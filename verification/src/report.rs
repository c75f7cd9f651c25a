//! The per-file summary rows every reporter prints, their total, and the threshold gate.

use vstd::prelude::*;

use crate::covdata::{branch_tally, fn_tally, line_tally, stmt_tally, tally, CoverageData};
use crate::coverage::{
    is_ignored, passes_globs, passes_globs_spec, thresholds_wf, Coverage, Thresholds,
};
use crate::decimal::{pow10, Decimal};
use crate::text::strs;

verus! {

/// One file's counts: lines, functions, branches and statements, hit and found.
pub struct Row {
    pub path: String,
    pub lh: u64,
    pub lf: u64,
    pub fnh: u64,
    pub fnf: u64,
    pub brh: u64,
    pub brf: u64,
    pub sh: u64,
    pub sf: u64,
}

/// `r` holds `f`'s counts: entries found and entries hit of each table (a branch counts as
/// hit when it was reached and taken).
pub open spec fn row_of(data: &CoverageData, f: Seq<char>, r: &Row) -> bool {
    &&& r.path@ == f
    &&& r.lf == tally(data.line_view(), f, |c: u64| c > 0).0
    &&& r.lh == tally(data.line_view(), f, |c: u64| c > 0).1
    &&& r.fnf == tally(data.fn_view(), f, |c: u64| c > 0).0
    &&& r.fnh == tally(data.fn_view(), f, |c: u64| c > 0).1
    &&& r.brf == tally(data.branch_view(), f, |v: (u32, bool, u64)| v.1 && v.2 > 0).0
    &&& r.brh == tally(data.branch_view(), f, |v: (u32, bool, u64)| v.1 && v.2 > 0).1
    &&& r.sf == tally(data.stmt_view(), f, |v: (u32, u64)| v.1 > 0).0
    &&& r.sh == tally(data.stmt_view(), f, |v: (u32, u64)| v.1 > 0).1
}

/// The summary row of one file.
pub fn file_row(data: &CoverageData, file: &str) -> (r: Row)
    requires
        data.wf(),
    ensures
        row_of(data, file@, &r),
{
    let (lf, lh) = line_tally(data, file);
    let (fnf, fnh) = fn_tally(data, file);
    let (brf, brh) = branch_tally(data, file);
    let (sf, sh) = stmt_tally(data, file);
    Row { path: file.to_owned(), lh, lf, fnh, fnf, brh, brf, sh, sf }
}

/// The files that are reported: those passing the include/exclude globs (by their
/// working-directory relative path) and not exempted by a directive.
pub open spec fn selected(cov: &Coverage, files: Seq<(String, String)>) -> Seq<Seq<char>>
    decreases files.len(),
{
    if files.len() == 0 {
        Seq::empty()
    } else {
        let prev = selected(cov, files.drop_last());
        let e = files.last();
        if passes_globs_spec(cov, e.1@) && !strs(cov.ignored@).contains(e.0@) {
            prev.push(e.0@)
        } else {
            prev
        }
    }
}

/// Keep the reported files of `(file, relative path)` pairs, in order.
pub fn select_files(cov: &Coverage, files: &[(String, String)]) -> (r: Vec<String>)
    ensures
        strs(r@) == selected(cov, files@),
{
    let mut r: Vec<String> = Vec::new();
    let mut i: usize = 0;
    assert(files@.take(0) =~= Seq::<(String, String)>::empty());
    while i < files.len()
        invariant
            i <= files@.len(),
            strs(r@) == selected(cov, files@.take(i as int)),
        decreases files@.len() - i,
    {
        assert(files@.take(i + 1).drop_last() =~= files@.take(i as int));
        let (f, rel) = &files[i];
        if passes_globs(cov, rel.as_str()) && !is_ignored(cov, f.as_str()) {
            let ghost before = r@;
            r.push(f.clone());
            assert(strs(r@) =~= strs(before).push(f@));
        }
        i += 1;
    }
    assert(files@.take(files@.len() as int) =~= files@);
    r
}

/// A sum that stops at `u64::MAX`.
pub open spec fn sat(v: int) -> u64 {
    if v > u64::MAX {
        u64::MAX
    } else {
        v as u64
    }
}

/// Sum of one count over the rows.
pub open spec fn sum_of(rows: Seq<Row>, get: spec_fn(Row) -> u64) -> int
    decreases rows.len(),
{
    if rows.len() == 0 {
        0
    } else {
        sum_of(rows.drop_last(), get) + get(rows.last())
    }
}

proof fn lemma_sum_nonneg(rows: Seq<Row>, get: spec_fn(Row) -> u64)
    ensures
        sum_of(rows, get) >= 0,
    decreases rows.len(),
{
    if rows.len() > 0 {
        lemma_sum_nonneg(rows.drop_last(), get);
    }
}

fn sat_add(a: u64, b: u64) -> (r: u64)
    ensures
        r == sat(a + b),
{
    if a > u64::MAX - b {
        u64::MAX
    } else {
        a + b
    }
}

/// The total row: each count summed over the rows (stopping at `u64::MAX`), no path.
pub open spec fn is_total(rows: Seq<Row>, t: &Row) -> bool {
    &&& t.path@ == Seq::<char>::empty()
    &&& t.lh == sat(sum_of(rows, |r: Row| r.lh))
    &&& t.lf == sat(sum_of(rows, |r: Row| r.lf))
    &&& t.fnh == sat(sum_of(rows, |r: Row| r.fnh))
    &&& t.fnf == sat(sum_of(rows, |r: Row| r.fnf))
    &&& t.brh == sat(sum_of(rows, |r: Row| r.brh))
    &&& t.brf == sat(sum_of(rows, |r: Row| r.brf))
    &&& t.sh == sat(sum_of(rows, |r: Row| r.sh))
    &&& t.sf == sat(sum_of(rows, |r: Row| r.sf))
}

/// The rows of the reported files, and their total.
pub fn build_rows(data: &CoverageData, files: &[String]) -> (r: (Vec<Row>, Row))
    requires
        data.wf(),
    ensures
        r.0@.len() == files@.len(),
        forall|i: int| 0 <= i < files@.len() ==> row_of(data, files@[i]@, #[trigger] &r.0@[i]),
        is_total(r.0@, &r.1),
{
    let mut rows: Vec<Row> = Vec::new();
    let mut t = Row { path: String::new(), lh: 0, lf: 0, fnh: 0, fnf: 0, brh: 0, brf: 0, sh: 0, sf: 0 };
    let mut i: usize = 0;
    while i < files.len()
        invariant
            i <= files@.len(),
            data.wf(),
            rows@.len() == i,
            forall|k: int| 0 <= k < i ==> row_of(data, files@[k]@, #[trigger] &rows@[k]),
            is_total(rows@, &t),
        decreases files@.len() - i,
    {
        let row = file_row(data, files[i].as_str());
        let ghost before = rows@;
        let ghost rw = row;
        t.lh = sat_add(t.lh, row.lh);
        t.lf = sat_add(t.lf, row.lf);
        t.fnh = sat_add(t.fnh, row.fnh);
        t.fnf = sat_add(t.fnf, row.fnf);
        t.brh = sat_add(t.brh, row.brh);
        t.brf = sat_add(t.brf, row.brf);
        t.sh = sat_add(t.sh, row.sh);
        t.sf = sat_add(t.sf, row.sf);
        rows.push(row);
        proof {
            assert(rows@.drop_last() =~= before);
            assert(rows@.last() == rw);
            lemma_sum_nonneg(before, |r: Row| r.lh);
            lemma_sum_nonneg(before, |r: Row| r.lf);
            lemma_sum_nonneg(before, |r: Row| r.fnh);
            lemma_sum_nonneg(before, |r: Row| r.fnf);
            lemma_sum_nonneg(before, |r: Row| r.brh);
            lemma_sum_nonneg(before, |r: Row| r.brf);
            lemma_sum_nonneg(before, |r: Row| r.sh);
            lemma_sum_nonneg(before, |r: Row| r.sf);
        }
        i += 1;
    }
    (rows, t)
}

} // verus!

verus! {

/// A gated metric.
#[derive(Clone, Copy, PartialEq, Eq, Structural, Debug)]
pub enum Metric {
    Lines,
    Functions,
    Branches,
    Statements,
}

/// One unmet threshold: the row (`None`: the total; `Some(i)`: the `i`-th file row), the
/// metric, its counts and the minimum.
#[derive(Clone, Copy, Debug)]
pub struct GateFailure {
    pub row: Option<usize>,
    pub metric: Metric,
    pub hit: u64,
    pub found: u64,
    pub min: Decimal,
}

/// The percentage `hit / found` (100 when nothing was found) plus `1e-9` is below `min`,
/// computed exactly: `100 h / f + 10^-9 < units / 10^scale`.
pub open spec fn below(hit: u64, found: u64, min: Decimal) -> bool {
    let h: int = if found == 0 {
        1
    } else {
        hit as int
    };
    let f: int = if found == 0 {
        1
    } else {
        found as int
    };
    100 * h * 1_000_000_000 + f < min.units * pow10((9 - min.scale) as nat) * f
}

fn pow10_exec(n: u32) -> (r: u128)
    requires
        n <= 9,
    ensures
        r == pow10(n as nat),
        r <= 1_000_000_000,
{
    let mut r: u128 = 1;
    let mut i: u32 = 0;
    while i < n
        invariant
            i <= n <= 9,
            r == pow10(i as nat),
            r <= pow10(i as nat),
            pow10(i as nat) <= 1_000_000_000,
        decreases n - i,
    {
        proof {
            assert(pow10((i + 1) as nat) == 10 * pow10(i as nat));
            reveal_with_fuel(pow10, 10);
        }
        r = r * 10;
        i += 1;
    }
    r
}

fn below_exec(hit: u64, found: u64, min: Decimal) -> (b: bool)
    requires
        min.scale <= 9,
    ensures
        b == below(hit, found, min),
{
    let h: u128 = if found == 0 {
        1
    } else {
        hit as u128
    };
    let f: u128 = if found == 0 {
        1
    } else {
        found as u128
    };
    assert(h * 100 <= 100 * 0xffff_ffff_ffff_ffffu128) by (nonlinear_arith)
        requires
            h <= 0xffff_ffff_ffff_ffffu128,
    ;
    assert(h * 100 * 1_000_000_000 <= 100 * 0xffff_ffff_ffff_ffffu128 * 1_000_000_000)
        by (nonlinear_arith)
        requires
            h <= 0xffff_ffff_ffff_ffffu128,
    ;
    let lhs: u128 = h * 100 * 1_000_000_000 + f;
    let p = pow10_exec(9 - min.scale);
    assert(min.units as u128 * p <= 0xffff_ffff_ffff_ffffu128 * 1_000_000_000) by (nonlinear_arith)
        requires
            min.units <= 0xffff_ffff_ffff_ffffu128,
            p <= 1_000_000_000,
    ;
    let a: u128 = min.units as u128 * p;
    if a > 0 && f > u128::MAX / a {
        assert(a * f > u128::MAX) by (nonlinear_arith)
            requires
                a > 0,
                f > u128::MAX / a,
        ;
        return true;
    }
    assert(a * f <= u128::MAX) by (nonlinear_arith)
        requires
            a == 0 || f <= u128::MAX / a,
    ;
    assert(100 * h * 1_000_000_000 == h * 100 * 1_000_000_000) by (nonlinear_arith);
    assert(min.units * pow10((9 - min.scale) as nat) * f == a * f);
    lhs < a * f
}

/// The failures of one row, in metric order: lines, functions, branches, statements.
pub open spec fn row_failures(t: Thresholds, r: Row, idx: Option<usize>) -> Seq<GateFailure> {
    let l = match t.lines {
        Some(m) => if below(r.lh, r.lf, m) {
            seq![GateFailure { row: idx, metric: Metric::Lines, hit: r.lh, found: r.lf, min: m }]
        } else {
            Seq::empty()
        },
        None => Seq::empty(),
    };
    let fx = match t.functions {
        Some(m) => if below(r.fnh, r.fnf, m) {
            seq![GateFailure { row: idx, metric: Metric::Functions, hit: r.fnh, found: r.fnf, min: m }]
        } else {
            Seq::empty()
        },
        None => Seq::empty(),
    };
    let b = match t.branches {
        Some(m) => if below(r.brh, r.brf, m) {
            seq![GateFailure { row: idx, metric: Metric::Branches, hit: r.brh, found: r.brf, min: m }]
        } else {
            Seq::empty()
        },
        None => Seq::empty(),
    };
    let s = match t.statements {
        Some(m) => if below(r.sh, r.sf, m) {
            seq![GateFailure { row: idx, metric: Metric::Statements, hit: r.sh, found: r.sf, min: m }]
        } else {
            Seq::empty()
        },
        None => Seq::empty(),
    };
    l + fx + b + s
}

pub open spec fn rows_failures(t: Thresholds, rows: Seq<Row>) -> Seq<GateFailure>
    decreases rows.len(),
{
    if rows.len() == 0 {
        Seq::empty()
    } else {
        rows_failures(t, rows.drop_last()) + row_failures(t, rows.last(), Some((rows.len() - 1) as usize))
    }
}

/// The unmet thresholds: the total's, then (gating per file) each row's. No thresholds:
/// none.
pub open spec fn gate_spec(cov: &Coverage, total: Row, rows: Seq<Row>) -> Seq<GateFailure> {
    match cov.thresholds {
        None => Seq::empty(),
        Some(t) => row_failures(t, total, None) + if cov.per_file {
            rows_failures(t, rows)
        } else {
            Seq::empty()
        },
    }
}

/// The minimum configured for a metric.
pub open spec fn metric_min(t: Thresholds, m: Metric) -> Option<Decimal> {
    match m {
        Metric::Lines => t.lines,
        Metric::Functions => t.functions,
        Metric::Branches => t.branches,
        Metric::Statements => t.statements,
    }
}

/// A row's (hit, found) counts for a metric.
pub open spec fn metric_counts(r: Row, m: Metric) -> (u64, u64) {
    match m {
        Metric::Lines => (r.lh, r.lf),
        Metric::Functions => (r.fnh, r.fnf),
        Metric::Branches => (r.brh, r.brf),
        Metric::Statements => (r.sh, r.sf),
    }
}

/// The percentage `100 hit / found` (100 when nothing was found), plus `10^-9`, is below
/// `min = units / 10^scale`; both sides multiplied by `found * 10^(9 + scale)`.
pub open spec fn percent_short(hit: u64, found: u64, min: Decimal) -> bool {
    let num: int = if found == 0 {
        100
    } else {
        100 * hit
    };
    let den: int = if found == 0 {
        1
    } else {
        found as int
    };
    (num * 1_000_000_000 + den) * pow10(min.scale as nat) < min.units * 1_000_000_000 * den
}

proof fn lemma_pow10_split(s: nat)
    requires
        s <= 9,
    ensures
        pow10((9 - s) as nat) * pow10(s) == 1_000_000_000,
        pow10(s) >= 1,
{
    assert(pow10(0) == 1);
    assert(pow10(1) == 10);
    assert(pow10(2) == 100);
    assert(pow10(3) == 1000);
    assert(pow10(4) == 10000);
    assert(pow10(5) == 100000);
    assert(pow10(6) == 1000000);
    assert(pow10(7) == 10000000);
    assert(pow10(8) == 100000000);
    assert(pow10(9) == 1000000000);
    if s == 0 {
        assert(pow10(9) * pow10(0) == 1_000_000_000);
    } else if s == 1 {
        assert(pow10(8) * pow10(1) == 1_000_000_000);
    } else if s == 2 {
        assert(pow10(7) * pow10(2) == 1_000_000_000);
    } else if s == 3 {
        assert(pow10(6) * pow10(3) == 1_000_000_000);
    } else if s == 4 {
        assert(pow10(5) * pow10(4) == 1_000_000_000);
    } else if s == 5 {
        assert(pow10(4) * pow10(5) == 1_000_000_000);
    } else if s == 6 {
        assert(pow10(3) * pow10(6) == 1_000_000_000);
    } else if s == 7 {
        assert(pow10(2) * pow10(7) == 1_000_000_000);
    } else if s == 8 {
        assert(pow10(1) * pow10(8) == 1_000_000_000);
    } else if s == 9 {
        assert(pow10(0) * pow10(9) == 1_000_000_000);
    }
}

proof fn lemma_short_is_below(hit: u64, found: u64, min: Decimal)
    requires
        min.scale <= 9,
    ensures
        percent_short(hit, found, min) == below(hit, found, min),
{
    lemma_pow10_split(min.scale as nat);
    let num: int = if found == 0 {
        100
    } else {
        100 * hit
    };
    let h: int = if found == 0 {
        1
    } else {
        hit as int
    };
    let den: int = if found == 0 {
        1
    } else {
        found as int
    };
    let p = pow10(min.scale as nat);
    let q = pow10((9 - min.scale) as nat);
    let x = num * 1_000_000_000 + den;
    let u = min.units as int;
    assert(num == 100 * h);
    assert(100 * h * 1_000_000_000 + den == x);
    assert(x * p < u * 1_000_000_000 * den <==> x < u * q * den) by (nonlinear_arith)
        requires
            q * p == 1_000_000_000,
            p >= 1,
    ;
}

proof fn lemma_contains_concat<A>(a: Seq<A>, b: Seq<A>, x: A)
    ensures
        a.contains(x) ==> (a + b).contains(x),
        b.contains(x) ==> (a + b).contains(x),
{
    if a.contains(x) {
        let i = choose|i: int| 0 <= i < a.len() && a[i] == x;
        assert((a + b)[i] == x);
    }
    if b.contains(x) {
        let i = choose|i: int| 0 <= i < b.len() && b[i] == x;
        assert((a + b)[a.len() + i] == x);
    }
}

proof fn lemma_row_flags(t: Thresholds, r: Row, idx: Option<usize>, m: Metric)
    requires
        thresholds_wf(t),
        metric_min(t, m) is Some,
        percent_short(metric_counts(r, m).0, metric_counts(r, m).1, metric_min(t, m)->0),
    ensures
        row_failures(t, r, idx).contains(
            GateFailure {
                row: idx,
                metric: m,
                hit: metric_counts(r, m).0,
                found: metric_counts(r, m).1,
                min: metric_min(t, m)->0,
            },
        ),
{
    let mn = metric_min(t, m)->0;
    let (h, f) = metric_counts(r, m);
    let g = GateFailure { row: idx, metric: m, hit: h, found: f, min: mn };
    lemma_short_is_below(h, f, mn);
    let l = match t.lines {
        Some(m) => if below(r.lh, r.lf, m) {
            seq![GateFailure { row: idx, metric: Metric::Lines, hit: r.lh, found: r.lf, min: m }]
        } else {
            Seq::empty()
        },
        None => Seq::empty(),
    };
    let fx = match t.functions {
        Some(m) => if below(r.fnh, r.fnf, m) {
            seq![GateFailure { row: idx, metric: Metric::Functions, hit: r.fnh, found: r.fnf, min: m }]
        } else {
            Seq::empty()
        },
        None => Seq::empty(),
    };
    let b = match t.branches {
        Some(m) => if below(r.brh, r.brf, m) {
            seq![GateFailure { row: idx, metric: Metric::Branches, hit: r.brh, found: r.brf, min: m }]
        } else {
            Seq::empty()
        },
        None => Seq::empty(),
    };
    let st = match t.statements {
        Some(m) => if below(r.sh, r.sf, m) {
            seq![GateFailure { row: idx, metric: Metric::Statements, hit: r.sh, found: r.sf, min: m }]
        } else {
            Seq::empty()
        },
        None => Seq::empty(),
    };
    assert(row_failures(t, r, idx) == l + fx + b + st);
    match m {
        Metric::Lines => {
            assert(l[0] == g);
            lemma_contains_concat(l, fx, g);
            lemma_contains_concat(l + fx, b, g);
            lemma_contains_concat(l + fx + b, st, g);
        },
        Metric::Functions => {
            assert(fx[0] == g);
            lemma_contains_concat(l, fx, g);
            lemma_contains_concat(l + fx, b, g);
            lemma_contains_concat(l + fx + b, st, g);
        },
        Metric::Branches => {
            assert(b[0] == g);
            lemma_contains_concat(l + fx, b, g);
            lemma_contains_concat(l + fx + b, st, g);
        },
        Metric::Statements => {
            assert(st[0] == g);
            lemma_contains_concat(l + fx + b, st, g);
        },
    }
}

proof fn lemma_rows_flag(t: Thresholds, rows: Seq<Row>, i: int, g: GateFailure)
    requires
        0 <= i < rows.len(),
        row_failures(t, rows[i], Some(i as usize)).contains(g),
    ensures
        rows_failures(t, rows).contains(g),
    decreases rows.len(),
{
    let p = rows.drop_last();
    if i == rows.len() - 1 {
        lemma_contains_concat(rows_failures(t, p), row_failures(t, rows.last(), Some(i as usize)), g);
    } else {
        assert(p[i] == rows[i]);
        lemma_rows_flag(t, p, i, g);
        lemma_contains_concat(rows_failures(t, p), row_failures(t, rows.last(), Some((rows.len() - 1) as usize)), g);
    }
}

/// Every configured metric whose percentage falls short of its minimum is reported: for
/// the total (row `None`) always, and for each file row `i` (row `Some(i)`) when gating
/// per file, with that row's counts for the metric and the configured minimum.
pub proof fn law_gate_flags_short_metrics(cov: &Coverage, t: Thresholds, total: Row, rows: Seq<Row>, m: Metric)
    requires
        cov.thresholds == Some(t),
        thresholds_wf(t),
    ensures
        metric_min(t, m) is Some && percent_short(metric_counts(total, m).0, metric_counts(total, m).1, metric_min(t, m)->0)
            ==> gate_spec(cov, total, rows).contains(
            GateFailure {
                row: None,
                metric: m,
                hit: metric_counts(total, m).0,
                found: metric_counts(total, m).1,
                min: metric_min(t, m)->0,
            },
        ),
        forall|i: int|
            0 <= i < rows.len() && cov.per_file && metric_min(t, m) is Some && percent_short(
                metric_counts(#[trigger] rows[i], m).0,
                metric_counts(rows[i], m).1,
                metric_min(t, m)->0,
            ) ==> gate_spec(cov, total, rows).contains(
                GateFailure {
                    row: Some(i as usize),
                    metric: m,
                    hit: metric_counts(rows[i], m).0,
                    found: metric_counts(rows[i], m).1,
                    min: metric_min(t, m)->0,
                },
            ),
{
    let tail = if cov.per_file {
        rows_failures(t, rows)
    } else {
        Seq::empty()
    };
    assert(gate_spec(cov, total, rows) == row_failures(t, total, None) + tail);
    if metric_min(t, m) is Some && percent_short(metric_counts(total, m).0, metric_counts(total, m).1, metric_min(t, m)->0) {
        lemma_row_flags(t, total, None, m);
        lemma_contains_concat(
            row_failures(t, total, None),
            tail,
            GateFailure {
                row: None,
                metric: m,
                hit: metric_counts(total, m).0,
                found: metric_counts(total, m).1,
                min: metric_min(t, m)->0,
            },
        );
    }
    assert forall|i: int|
        0 <= i < rows.len() && cov.per_file && metric_min(t, m) is Some && percent_short(
            metric_counts(#[trigger] rows[i], m).0,
            metric_counts(rows[i], m).1,
            metric_min(t, m)->0,
        ) implies gate_spec(cov, total, rows).contains(
        GateFailure {
            row: Some(i as usize),
            metric: m,
            hit: metric_counts(rows[i], m).0,
            found: metric_counts(rows[i], m).1,
            min: metric_min(t, m)->0,
        },
    ) by {
        let g = GateFailure {
            row: Some(i as usize),
            metric: m,
            hit: metric_counts(rows[i], m).0,
            found: metric_counts(rows[i], m).1,
            min: metric_min(t, m)->0,
        };
        lemma_row_flags(t, rows[i], Some(i as usize), m);
        lemma_rows_flag(t, rows, i, g);
        lemma_contains_concat(row_failures(t, total, None), tail, g);
    }
}

/// What a failure reported for row `r` (at `idx`) says holds of that row.
pub open spec fn failure_of_row(t: Thresholds, r: Row, idx: Option<usize>, g: GateFailure) -> bool {
    &&& g.row == idx
    &&& metric_min(t, g.metric) == Some(g.min)
    &&& metric_counts(r, g.metric) == (g.hit, g.found)
    &&& below(g.hit, g.found, g.min)
}

proof fn lemma_row_sound(t: Thresholds, r: Row, idx: Option<usize>)
    ensures
        forall|k: int|
            0 <= k < row_failures(t, r, idx).len() ==> failure_of_row(t, r, idx, #[trigger] row_failures(t, r, idx)[k]),
{
    let l = match t.lines {
        Some(m) => if below(r.lh, r.lf, m) {
            seq![GateFailure { row: idx, metric: Metric::Lines, hit: r.lh, found: r.lf, min: m }]
        } else {
            Seq::empty()
        },
        None => Seq::empty(),
    };
    let fx = match t.functions {
        Some(m) => if below(r.fnh, r.fnf, m) {
            seq![GateFailure { row: idx, metric: Metric::Functions, hit: r.fnh, found: r.fnf, min: m }]
        } else {
            Seq::empty()
        },
        None => Seq::empty(),
    };
    let b = match t.branches {
        Some(m) => if below(r.brh, r.brf, m) {
            seq![GateFailure { row: idx, metric: Metric::Branches, hit: r.brh, found: r.brf, min: m }]
        } else {
            Seq::empty()
        },
        None => Seq::empty(),
    };
    let st = match t.statements {
        Some(m) => if below(r.sh, r.sf, m) {
            seq![GateFailure { row: idx, metric: Metric::Statements, hit: r.sh, found: r.sf, min: m }]
        } else {
            Seq::empty()
        },
        None => Seq::empty(),
    };
    let all = l + fx + b + st;
    assert(row_failures(t, r, idx) == all);
    assert forall|k: int| 0 <= k < all.len() implies failure_of_row(t, r, idx, #[trigger] all[k]) by {
        if k < l.len() {
            assert(all[k] == l[k]);
        } else if k < l.len() + fx.len() {
            assert(all[k] == fx[k - l.len()]);
        } else if k < l.len() + fx.len() + b.len() {
            assert(all[k] == b[k - l.len() - fx.len()]);
        } else {
            assert(all[k] == st[k - l.len() - fx.len() - b.len()]);
        }
    }
}

/// A failure of file row `i` of `rows`.
pub open spec fn failure_of_rows(t: Thresholds, rows: Seq<Row>, g: GateFailure) -> bool {
    match g.row {
        Some(i) => i < rows.len() && failure_of_row(t, rows[i as int], Some(i), g),
        None => false,
    }
}

proof fn lemma_rows_sound(t: Thresholds, rows: Seq<Row>)
    requires
        rows.len() <= usize::MAX,
    ensures
        forall|k: int|
            0 <= k < rows_failures(t, rows).len() ==> failure_of_rows(t, rows, #[trigger] rows_failures(t, rows)[k]),
    decreases rows.len(),
{
    if rows.len() > 0 {
        let p = rows.drop_last();
        let n = (rows.len() - 1) as usize;
        lemma_rows_sound(t, p);
        lemma_row_sound(t, rows.last(), Some(n));
        let a = rows_failures(t, p);
        let c = row_failures(t, rows.last(), Some(n));
        assert(rows_failures(t, rows) == a + c);
        assert forall|k: int| 0 <= k < (a + c).len() implies failure_of_rows(t, rows, #[trigger] (a + c)[k]) by {
            if k < a.len() {
                assert((a + c)[k] == a[k]);
                let i = a[k].row->0;
                assert(p[i as int] == rows[i as int]);
            } else {
                assert((a + c)[k] == c[k - a.len()]);
                assert(n as int == rows.len() - 1);
                assert(rows[n as int] == rows.last());
            }
        }
    }
}

/// Every failure in the threshold check is a configured metric that falls short of its minimum,
/// with the counts of the row it names: the total (row `None`), or, gating per file, file
/// row `i` (row `Some(i)`).
pub proof fn law_gate_flags_only_short_metrics(cov: &Coverage, t: Thresholds, total: Row, rows: Seq<Row>)
    requires
        cov.thresholds == Some(t),
        thresholds_wf(t),
        rows.len() <= usize::MAX,
    ensures
        forall|k: int|
            0 <= k < gate_spec(cov, total, rows).len() ==> {
                let g = #[trigger] gate_spec(cov, total, rows)[k];
                &&& metric_min(t, g.metric) == Some(g.min)
                &&& percent_short(g.hit, g.found, g.min)
                &&& match g.row {
                    None => metric_counts(total, g.metric) == (g.hit, g.found),
                    Some(i) => cov.per_file && i < rows.len() && metric_counts(rows[i as int], g.metric) == (
                    g.hit,
                    g.found,
                    ),
                }
            },
{
    let head = row_failures(t, total, None);
    let tail = if cov.per_file {
        rows_failures(t, rows)
    } else {
        Seq::empty()
    };
    assert(gate_spec(cov, total, rows) == head + tail);
    lemma_row_sound(t, total, None);
    lemma_rows_sound(t, rows);
    assert forall|k: int| 0 <= k < (head + tail).len() implies {
        let g = #[trigger] (head + tail)[k];
        &&& metric_min(t, g.metric) == Some(g.min)
        &&& percent_short(g.hit, g.found, g.min)
        &&& match g.row {
            None => metric_counts(total, g.metric) == (g.hit, g.found),
            Some(i) => cov.per_file && i < rows.len() && metric_counts(rows[i as int], g.metric) == (g.hit, g.found),
        }
    } by {
        let g = (head + tail)[k];
        if k < head.len() {
            assert(g == head[k]);
        } else {
            assert(g == tail[k - head.len()]);
        }
        assert(g.min.scale <= 9) by {
            match g.metric {
                Metric::Lines => {},
                Metric::Functions => {},
                Metric::Branches => {},
                Metric::Statements => {},
            }
        }
        lemma_short_is_below(g.hit, g.found, g.min);
    }
}

fn metric_check(
    out: &mut Vec<GateFailure>,
    min: Option<Decimal>,
    metric: Metric,
    hit: u64,
    found: u64,
    idx: Option<usize>,
)
    requires
        min matches Some(m) ==> m.scale <= 9,
    ensures
        final(out)@ == old(out)@ + match min {
            Some(m) => if below(hit, found, m) {
                seq![GateFailure { row: idx, metric, hit, found, min: m }]
            } else {
                Seq::empty()
            },
            None => Seq::empty(),
        },
{
    match min {
        Some(m) => {
            if below_exec(hit, found, m) {
                out.push(GateFailure { row: idx, metric, hit, found, min: m });
                assert(out@ =~= old(out)@ + seq![GateFailure { row: idx, metric, hit, found, min: m }]);
            } else {
                assert(out@ =~= old(out)@ + Seq::<GateFailure>::empty());
            }
        },
        None => {
            assert(out@ =~= old(out)@ + Seq::<GateFailure>::empty());
        },
    }
}

fn check_row(out: &mut Vec<GateFailure>, t: &Thresholds, r: &Row, idx: Option<usize>)
    requires
        thresholds_wf(*t),
    ensures
        final(out)@ == old(out)@ + row_failures(*t, *r, idx),
{
    metric_check(out, t.lines, Metric::Lines, r.lh, r.lf, idx);
    metric_check(out, t.functions, Metric::Functions, r.fnh, r.fnf, idx);
    metric_check(out, t.branches, Metric::Branches, r.brh, r.brf, idx);
    metric_check(out, t.statements, Metric::Statements, r.sh, r.sf, idx);
    let ghost parts = row_failures(*t, *r, idx);
    assert(final(out)@ =~= old(out)@ + parts);
}

/// Check the thresholds against the total and, gating per file, every row.
pub fn gate(cov: &Coverage, total: &Row, rows: &[Row]) -> (r: Vec<GateFailure>)
    requires
        crate::coverage::coverage_wf(cov),
    ensures
        r@ == gate_spec(cov, *total, rows@),
{
    let mut out: Vec<GateFailure> = Vec::new();
    match &cov.thresholds {
        None => out,
        Some(t) => {
            check_row(&mut out, t, total, None);
            assert(out@ =~= row_failures(*t, *total, None));
            if cov.per_file {
                let ghost head = out@;
                let mut i: usize = 0;
                assert(rows@.take(0) =~= Seq::<Row>::empty());
                while i < rows.len()
                    invariant
                        i <= rows@.len(),
                        thresholds_wf(*t),
                        out@ == head + rows_failures(*t, rows@.take(i as int)),
                    decreases rows@.len() - i,
                {
                    assert(rows@.take(i + 1).drop_last() =~= rows@.take(i as int));
                    check_row(&mut out, t, &rows[i], Some(i));
                    assert(head + rows_failures(*t, rows@.take(i + 1)) =~= head + rows_failures(
                        *t,
                        rows@.take(i as int),
                    ) + row_failures(*t, rows@[i as int], Some(i)));
                    i += 1;
                }
                assert(rows@.take(rows@.len() as int) =~= rows@);
            } else {
                assert(out@ =~= out@ + Seq::<GateFailure>::empty());
            }
            out
        },
    }
}

} // verus!

verus! {

/// A JSON string body: backslashes doubled first, then quotes escaped.
pub open spec fn json_escape_spec(s: Seq<char>) -> Seq<char> {
    crate::mocks::replace_all_spec(
        crate::mocks::replace_all_spec(s, seq!['\\'], seq!['\\', '\\']),
        seq!['"'],
        seq!['\\', '"'],
    )
}

/// A path as a key of the JSON summary.
pub fn json_escape(s: &str) -> (r: String)
    ensures
        r@ == json_escape_spec(s@),
{
    let bs: Vec<char> = vec!['\\'];
    let bs2: Vec<char> = vec!['\\', '\\'];
    let q: Vec<char> = vec!['"'];
    let q2: Vec<char> = vec!['\\', '"'];
    assert(bs@ =~= seq!['\\']);
    assert(bs2@ =~= seq!['\\', '\\']);
    assert(q@ =~= seq!['"']);
    assert(q2@ =~= seq!['\\', '"']);
    let a = crate::mocks::replace_all(crate::text::chars_of(s).as_slice(), bs.as_slice(), bs2.as_slice());
    let b = crate::mocks::replace_all(a.as_slice(), q.as_slice(), q2.as_slice());
    crate::text::string_of(b.as_slice())
}

/// Text made safe for HTML: `&`, then `<` and `>`, replaced by entities.
pub open spec fn html_escape_spec(s: Seq<char>) -> Seq<char> {
    crate::mocks::replace_all_spec(
        crate::mocks::replace_all_spec(
            crate::mocks::replace_all_spec(s, "&"@, "&amp;"@),
            "<"@,
            "&lt;"@,
        ),
        ">"@,
        "&gt;"@,
    )
}

pub fn html_escape(s: &str) -> (r: String)
    ensures
        r@ == html_escape_spec(s@),
{
    proof {
        reveal_strlit("&");
        reveal_strlit("<");
        reveal_strlit(">");
    }
    let a = crate::mocks::replace_all(
        crate::text::chars_of(s).as_slice(),
        crate::text::chars_of("&").as_slice(),
        crate::text::chars_of("&amp;").as_slice(),
    );
    let b = crate::mocks::replace_all(
        a.as_slice(),
        crate::text::chars_of("<").as_slice(),
        crate::text::chars_of("&lt;").as_slice(),
    );
    let c = crate::mocks::replace_all(
        b.as_slice(),
        crate::text::chars_of(">").as_slice(),
        crate::text::chars_of("&gt;").as_slice(),
    );
    crate::text::string_of(c.as_slice())
}

} // verus!

verus! {

/// Whether coverage succeeds: at least one file was reported and no threshold is unmet. A
/// run that reports no file fails; it never counts as a vacuous 0/0 success.
pub fn coverage_ok(reported: usize, unmet: usize) -> (ok: bool)
    ensures
        ok == (reported > 0 && unmet == 0),
{
    reported > 0 && unmet == 0
}

} // verus!
