//! The lcov tracefile record of one source file: its functions (`FN`/`FNDA`/`FNF`/`FNH`),
//! branches (`BRDA`/`BRF`/`BRH`) and lines (`DA`/`LF`/`LH`), each listed in key order.

use vstd::prelude::*;

use crate::covdata::{
    branch_entries, fn_entries, inner_or_empty, line_entries, lists_map, pair_lt, CoverageData,
};
use crate::order::{fn_key_of, fn_lt, fn_views};
use crate::text::{chars_of, dec_spec, extend_chars, string_of, u64_dec};

verus! {

/// How many functions were called.
pub open spec fn fn_hits(fs: Seq<((u32, Seq<char>), u64)>) -> nat
    decreases fs.len(),
{
    if fs.len() == 0 {
        0
    } else {
        fn_hits(fs.drop_last()) + if fs.last().1 > 0 {
            1nat
        } else {
            0nat
        }
    }
}

/// How many branch arms were reached and taken.
pub open spec fn br_hits(bs: Seq<((u32, u32), (u32, bool, u64))>) -> nat
    decreases bs.len(),
{
    if bs.len() == 0 {
        0
    } else {
        br_hits(bs.drop_last()) + if bs.last().1.1 && bs.last().1.2 > 0 {
            1nat
        } else {
            0nat
        }
    }
}

/// How many lines ran.
pub open spec fn line_hits(ls: Seq<(u32, u64)>) -> nat
    decreases ls.len(),
{
    if ls.len() == 0 {
        0
    } else {
        line_hits(ls.drop_last()) + if ls.last().1 > 0 {
            1nat
        } else {
            0nat
        }
    }
}

/// `FN:<line>,<name>` for each function.
pub open spec fn fn_decls(fs: Seq<((u32, Seq<char>), u64)>) -> Seq<char>
    decreases fs.len(),
{
    if fs.len() == 0 {
        Seq::empty()
    } else {
        let e = fs.last();
        fn_decls(fs.drop_last()) + "FN:"@ + dec_spec(e.0.0 as nat) + ","@ + e.0.1 + "\n"@
    }
}

/// `FNDA:<count>,<name>` for each function.
pub open spec fn fn_counts(fs: Seq<((u32, Seq<char>), u64)>) -> Seq<char>
    decreases fs.len(),
{
    if fs.len() == 0 {
        Seq::empty()
    } else {
        let e = fs.last();
        fn_counts(fs.drop_last()) + "FNDA:"@ + dec_spec(e.1 as nat) + ","@ + e.0.1 + "\n"@
    }
}

/// The taken count of a branch arm, `-` when its block never ran.
pub open spec fn taken_text(v: (u32, bool, u64)) -> Seq<char> {
    if v.1 {
        dec_spec(v.2 as nat)
    } else {
        "-"@
    }
}

/// `BRDA:<line>,<block>,<arm>,<taken>` for each arm.
pub open spec fn br_lines(bs: Seq<((u32, u32), (u32, bool, u64))>) -> Seq<char>
    decreases bs.len(),
{
    if bs.len() == 0 {
        Seq::empty()
    } else {
        br_lines(bs.drop_last()) + br_line_spec(bs.last())
    }
}

/// `DA:<line>,<count>` for each line.
pub open spec fn da_lines(ls: Seq<(u32, u64)>) -> Seq<char>
    decreases ls.len(),
{
    if ls.len() == 0 {
        Seq::empty()
    } else {
        let e = ls.last();
        da_lines(ls.drop_last()) + "DA:"@ + dec_spec(e.0 as nat) + ","@ + dec_spec(e.1 as nat) + "\n"@
    }
}

/// The function section: declarations, call counts, found and hit.
pub open spec fn fn_part(fs: Option<Seq<((u32, Seq<char>), u64)>>) -> Seq<char> {
    match fs {
        Some(f) => fn_decls(f) + fn_counts(f) + "FNF:"@ + dec_spec(f.len()) + "\nFNH:"@ + dec_spec(
            fn_hits(f),
        ) + "\n"@,
        None => Seq::empty(),
    }
}

/// The branch section: one line per arm, found and hit.
pub open spec fn br_part(bs: Option<Seq<((u32, u32), (u32, bool, u64))>>) -> Seq<char> {
    match bs {
        Some(b) => br_lines(b) + "BRF:"@ + dec_spec(b.len()) + "\nBRH:"@ + dec_spec(br_hits(b))
            + "\n"@,
        None => Seq::empty(),
    }
}

/// The line section and the end of the record.
pub open spec fn line_part(ls: Seq<(u32, u64)>) -> Seq<char> {
    da_lines(ls) + "LF:"@ + dec_spec(ls.len()) + "\nLH:"@ + dec_spec(line_hits(ls))
        + "\nend_of_record\n"@
}

/// The record of `file` given its functions, branch arms (each `None` when the file has no
/// such table) and lines, in the order listed.
pub open spec fn lcov_spec(
    file: Seq<char>,
    fs: Option<Seq<((u32, Seq<char>), u64)>>,
    bs: Option<Seq<((u32, u32), (u32, bool, u64))>>,
    ls: Seq<(u32, u64)>,
) -> Seq<char> {
    "SF:"@ + file + "\n"@ + fn_part(fs) + br_part(bs) + line_part(ls)
}

/// `fs` lists `file`'s functions by line, then name (`None`: no function table).
pub open spec fn fns_listed(data: &CoverageData, file: Seq<char>, fs: Option<Seq<((u32, Seq<char>), u64)>>) -> bool {
    match fs {
        None => !data.fn_view().contains_key(file),
        Some(s) => data.fn_view().contains_key(file) && (forall|i: int, j: int|
            0 <= i < j < s.len() ==> fn_lt(s[i].0, s[j].0)) && lists_map(s, data.fn_view()[file]),
    }
}

/// `bs` lists `file`'s branch arms by block, then arm (`None`: no branch table).
pub open spec fn branches_listed(
    data: &CoverageData,
    file: Seq<char>,
    bs: Option<Seq<((u32, u32), (u32, bool, u64))>>,
) -> bool {
    match bs {
        None => !data.branch_view().contains_key(file),
        Some(s) => data.branch_view().contains_key(file) && (forall|i: int, j: int|
            0 <= i < j < s.len() ==> pair_lt(s[i].0, s[j].0)) && lists_map(s, data.branch_view()[file]),
    }
}

/// `ls` lists `file`'s lines in increasing order.
pub open spec fn lines_listed(data: &CoverageData, file: Seq<char>, ls: Seq<(u32, u64)>) -> bool {
    &&& forall|i: int, j: int| 0 <= i < j < ls.len() ==> ls[i].0 < ls[j].0
    &&& lists_map(ls, inner_or_empty(data.line_view(), file))
}

/// `text` is the record of `file` for these listings of its tables.
pub open spec fn lcov_from(
    data: &CoverageData,
    file: Seq<char>,
    fs: Option<Seq<((u32, Seq<char>), u64)>>,
    bs: Option<Seq<((u32, u32), (u32, bool, u64))>>,
    ls: Seq<(u32, u64)>,
    text: Seq<char>,
) -> bool {
    &&& fns_listed(data, file, fs)
    &&& branches_listed(data, file, bs)
    &&& lines_listed(data, file, ls)
    &&& text == lcov_spec(file, fs, bs, ls)
}

fn push_str(v: &mut Vec<char>, s: &str)
    ensures
        final(v)@ == old(v)@ + s@,
{
    extend_chars(v, chars_of(s).as_slice());
}

fn push_num(v: &mut Vec<char>, n: u64)
    ensures
        final(v)@ == old(v)@ + dec_spec(n as nat),
{
    extend_chars(v, u64_dec(n).as_slice());
}

fn fn_section(v: &mut Vec<char>, fs: &Vec<((u32, String), u64)>)
    ensures
        final(v)@ == old(v)@ + fn_decls(fn_views(fs@)) + fn_counts(fn_views(fs@)) + "FNF:"@
            + dec_spec(fs@.len()) + "\nFNH:"@ + dec_spec(fn_hits(fn_views(fs@))) + "\n"@,
{
    let ghost fv = fn_views(fs@);
    let ghost base = v@;
    let mut i: usize = 0;
    assert(fv.take(0) =~= Seq::<((u32, Seq<char>), u64)>::empty());
    while i < fs.len()
        invariant
            i <= fs@.len(),
            fv == fn_views(fs@),
            v@ == base + fn_decls(fv.take(i as int)),
        decreases fs@.len() - i,
    {
        assert(fv.take(i + 1).drop_last() =~= fv.take(i as int));
        assert(fv[i as int] == fn_entry(fs@[i as int]));
        push_str(v, "FN:");
        push_num(v, fs[i].0.0 as u64);
        push_str(v, ",");
        push_str(v, fs[i].0.1.as_str());
        push_str(v, "\n");
        assert(v@ =~= base + fn_decls(fv.take(i + 1)));
        i += 1;
    }
    assert(fv.take(fs@.len() as int) =~= fv);
    let ghost mid = v@;
    let mut j: usize = 0;
    let mut hits: u64 = 0;
    while j < fs.len()
        invariant
            j <= fs@.len(),
            fv == fn_views(fs@),
            v@ == mid + fn_counts(fv.take(j as int)),
            hits == fn_hits(fv.take(j as int)),
            hits <= j,
        decreases fs@.len() - j,
    {
        assert(fv.take(j + 1).drop_last() =~= fv.take(j as int));
        assert(fv[j as int] == fn_entry(fs@[j as int]));
        push_str(v, "FNDA:");
        push_num(v, fs[j].1);
        push_str(v, ",");
        push_str(v, fs[j].0.1.as_str());
        push_str(v, "\n");
        if fs[j].1 > 0 {
            hits += 1;
        }
        assert(v@ =~= mid + fn_counts(fv.take(j + 1)));
        j += 1;
    }
    assert(fv.take(fs@.len() as int) =~= fv);
    push_str(v, "FNF:");
    push_num(v, fs.len() as u64);
    push_str(v, "\nFNH:");
    push_num(v, hits);
    push_str(v, "\n");
    assert(v@ =~= base + fn_decls(fv) + fn_counts(fv) + "FNF:"@ + dec_spec(fs@.len()) + "\nFNH:"@
        + dec_spec(fn_hits(fv)) + "\n"@);
}

spec fn fn_entry(e: ((u32, String), u64)) -> ((u32, Seq<char>), u64) {
    crate::order::fn_entry_view(e)
}

/// One `BRDA` line.
pub open spec fn br_line_spec(e: ((u32, u32), (u32, bool, u64))) -> Seq<char> {
    "BRDA:"@ + dec_spec(e.1.0 as nat) + ","@ + dec_spec(e.0.0 as nat) + ","@ + dec_spec(
        e.0.1 as nat,
    ) + ","@ + taken_text(e.1) + "\n"@
}

fn br_line(v: &mut Vec<char>, e: ((u32, u32), (u32, bool, u64)))
    ensures
        final(v)@ == old(v)@ + br_line_spec(e),
{
    push_str(v, "BRDA:");
    push_num(v, e.1.0 as u64);
    push_str(v, ",");
    push_num(v, e.0.0 as u64);
    push_str(v, ",");
    push_num(v, e.0.1 as u64);
    push_str(v, ",");
    if e.1.1 {
        push_num(v, e.1.2);
    } else {
        push_str(v, "-");
    }
    push_str(v, "\n");
    assert(v@ =~= old(v)@ + br_line_spec(e));
}

fn br_section(v: &mut Vec<char>, bs: &Vec<((u32, u32), (u32, bool, u64))>)
    ensures
        final(v)@ == old(v)@ + br_lines(bs@) + "BRF:"@ + dec_spec(bs@.len()) + "\nBRH:"@ + dec_spec(
            br_hits(bs@),
        ) + "\n"@,
{
    let ghost base = v@;
    let mut i: usize = 0;
    let mut hits: u64 = 0;
    assert(bs@.take(0) =~= Seq::<((u32, u32), (u32, bool, u64))>::empty());
    while i < bs.len()
        invariant
            i <= bs@.len(),
            v@ == base + br_lines(bs@.take(i as int)),
            hits == br_hits(bs@.take(i as int)),
            hits <= i,
        decreases bs@.len() - i,
    {
        assert(bs@.take(i + 1).drop_last() =~= bs@.take(i as int));
        let e = bs[i];
        br_line(v, e);
        if e.1.1 && e.1.2 > 0 {
            hits += 1;
        }
        assert(v@ =~= base + br_lines(bs@.take(i + 1)));
        i += 1;
    }
    assert(bs@.take(bs@.len() as int) =~= bs@);
    push_str(v, "BRF:");
    push_num(v, bs.len() as u64);
    push_str(v, "\nBRH:");
    push_num(v, hits);
    push_str(v, "\n");
    assert(v@ =~= base + br_lines(bs@) + "BRF:"@ + dec_spec(bs@.len()) + "\nBRH:"@ + dec_spec(
        br_hits(bs@),
    ) + "\n"@);
}

fn line_section(v: &mut Vec<char>, ls: &Vec<(u32, u64)>)
    ensures
        final(v)@ == old(v)@ + da_lines(ls@) + "LF:"@ + dec_spec(ls@.len()) + "\nLH:"@ + dec_spec(
            line_hits(ls@),
        ) + "\nend_of_record\n"@,
{
    let ghost base = v@;
    let mut i: usize = 0;
    let mut hits: u64 = 0;
    assert(ls@.take(0) =~= Seq::<(u32, u64)>::empty());
    while i < ls.len()
        invariant
            i <= ls@.len(),
            v@ == base + da_lines(ls@.take(i as int)),
            hits == line_hits(ls@.take(i as int)),
            hits <= i,
        decreases ls@.len() - i,
    {
        assert(ls@.take(i + 1).drop_last() =~= ls@.take(i as int));
        let e = ls[i];
        push_str(v, "DA:");
        push_num(v, e.0 as u64);
        push_str(v, ",");
        push_num(v, e.1);
        push_str(v, "\n");
        if e.1 > 0 {
            hits += 1;
        }
        assert(v@ =~= base + da_lines(ls@.take(i + 1)));
        i += 1;
    }
    assert(ls@.take(ls@.len() as int) =~= ls@);
    push_str(v, "LF:");
    push_num(v, ls.len() as u64);
    push_str(v, "\nLH:");
    push_num(v, hits);
    push_str(v, "\nend_of_record\n");
    assert(v@ =~= base + da_lines(ls@) + "LF:"@ + dec_spec(ls@.len()) + "\nLH:"@ + dec_spec(
        line_hits(ls@),
    ) + "\nend_of_record\n"@);
}

fn fns_text(data: &CoverageData, file: &str) -> (r: (Vec<char>, Ghost<Option<Seq<((u32, Seq<char>), u64)>>>))
    requires
        data.wf(),
    ensures
        fns_listed(data, file@, r.1@),
        r.0@ == fn_part(r.1@),
{
    let mut v: Vec<char> = Vec::new();
    match fn_entries(data, file) {
        None => (v, Ghost(None)),
        Some(x) => {
            fn_section(&mut v, &x);
            proof {
                assert forall|i: int, j: int| 0 <= i < j < fn_views(x@).len() implies fn_lt(
                    fn_views(x@)[i].0,
                    fn_views(x@)[j].0,
                ) by {
                    assert(fn_views(x@)[i].0 == fn_key_of(x@[i]));
                    assert(fn_views(x@)[j].0 == fn_key_of(x@[j]));
                }
                assert(v@ =~= fn_part(Some(fn_views(x@))));
            }
            (v, Ghost(Some(fn_views(x@))))
        },
    }
}

fn branches_text(data: &CoverageData, file: &str) -> (r: (Vec<char>, Ghost<Option<Seq<((u32, u32), (u32, bool, u64))>>>))
    requires
        data.wf(),
    ensures
        branches_listed(data, file@, r.1@),
        r.0@ == br_part(r.1@),
{
    let mut v: Vec<char> = Vec::new();
    match branch_entries(data, file) {
        None => (v, Ghost(None)),
        Some(x) => {
            br_section(&mut v, &x);
            assert(v@ =~= br_part(Some(x@)));
            (v, Ghost(Some(x@)))
        },
    }
}

fn lines_text(data: &CoverageData, file: &str) -> (r: (Vec<char>, Ghost<Seq<(u32, u64)>>))
    requires
        data.wf(),
    ensures
        lines_listed(data, file@, r.1@),
        r.0@ == line_part(r.1@),
{
    let mut v: Vec<char> = Vec::new();
    let le = line_entries(data, file);
    line_section(&mut v, &le);
    assert(v@ =~= line_part(le@));
    (v, Ghost(le@))
}

/// The lcov record of `file`: functions by line then name, branch arms by block then arm,
/// lines in order (see `lcov_spec`).
pub fn lcov_record(data: &CoverageData, file: &str) -> (r: String)
    requires
        data.wf(),
    ensures
        exists|
            fs: Option<Seq<((u32, Seq<char>), u64)>>,
            bs: Option<Seq<((u32, u32), (u32, bool, u64))>>,
            ls: Seq<(u32, u64)>,
        | #[trigger] lcov_from(data, file@, fs, bs, ls, r@),
{
    let mut v: Vec<char> = Vec::new();
    push_str(&mut v, "SF:");
    push_str(&mut v, file);
    push_str(&mut v, "\n");
    let (f, Ghost(fs)) = fns_text(data, file);
    let (b, Ghost(bs)) = branches_text(data, file);
    let (l, Ghost(ls)) = lines_text(data, file);
    extend_chars(&mut v, f.as_slice());
    extend_chars(&mut v, b.as_slice());
    extend_chars(&mut v, l.as_slice());
    proof {
        reveal_strlit("SF:");
        reveal_strlit("\n");
        assert(v@ =~= lcov_spec(file@, fs, bs, ls));
        assert(lcov_from(data, file@, fs, bs, ls, v@));
    }
    string_of(v.as_slice())
}

} // verus!

verus! {

/// `text` is an lcov record of `file` (see `lcov_from`).
pub open spec fn lcov_ok(data: &CoverageData, file: Seq<char>, text: Seq<char>) -> bool {
    exists|
        fs: Option<Seq<((u32, Seq<char>), u64)>>,
        bs: Option<Seq<((u32, u32), (u32, bool, u64))>>,
        ls: Seq<(u32, u64)>,
    | #[trigger] lcov_from(data, file, fs, bs, ls, text)
}

/// The texts joined.
pub open spec fn concat(ts: Seq<Seq<char>>) -> Seq<char>
    decreases ts.len(),
{
    if ts.len() == 0 {
        Seq::empty()
    } else {
        concat(ts.drop_last()) + ts.last()
    }
}

/// The lcov tracefile of the reported files: their records, in the order given.
pub fn lcov_report(data: &CoverageData, files: &[String]) -> (r: String)
    requires
        data.wf(),
    ensures
        exists|ts: Seq<Seq<char>>|
            ts.len() == files@.len() && (forall|i: int|
                0 <= i < ts.len() ==> lcov_ok(data, files@[i]@, #[trigger] ts[i])) && r@ == concat(ts),
{
    let mut v: Vec<char> = Vec::new();
    let ghost mut ts: Seq<Seq<char>> = Seq::empty();
    let mut i: usize = 0;
    while i < files.len()
        invariant
            i <= files@.len(),
            data.wf(),
            ts.len() == i,
            forall|k: int| 0 <= k < i ==> lcov_ok(data, files@[k]@, #[trigger] ts[k]),
            v@ == concat(ts),
        decreases files@.len() - i,
    {
        let rec = lcov_record(data, files[i].as_str());
        let rc = chars_of(rec.as_str());
        extend_chars(&mut v, rc.as_slice());
        proof {
            let ts2 = ts.push(rc@);
            assert(ts2.drop_last() =~= ts);
            assert forall|k: int| 0 <= k < i + 1 implies lcov_ok(data, files@[k]@, #[trigger] ts2[k]) by {
                if k < i {
                    assert(ts2[k] == ts[k]);
                }
            }
            ts = ts2;
        }
        i += 1;
    }
    string_of(v.as_slice())
}

} // verus!


verus! {

/// `lt` is a strict total order.
pub open spec fn strict_order<K>(lt: spec_fn(K, K) -> bool) -> bool {
    &&& forall|a: K| !#[trigger] lt(a, a)
    &&& forall|a: K, b: K, c: K| #[trigger] lt(a, b) && #[trigger] lt(b, c) ==> lt(a, c)
    &&& forall|a: K, b: K| a != b ==> #[trigger] lt(a, b) || lt(b, a)
}

/// The keys of `s` strictly increase under `lt`.
pub open spec fn sorted_by<K, V>(s: Seq<(K, V)>, lt: spec_fn(K, K) -> bool) -> bool {
    forall|i: int, j: int| 0 <= i < j < s.len() ==> lt(#[trigger] s[i].0, #[trigger] s[j].0)
}

/// Listing a map in strictly increasing key order leaves no choice: two such listings are
/// the same sequence.
pub proof fn lemma_sorted_listing_unique<K, V>(s1: Seq<(K, V)>, s2: Seq<(K, V)>, m: Map<K, V>, lt: spec_fn(K, K) -> bool)
    requires
        strict_order(lt),
        sorted_by(s1, lt),
        sorted_by(s2, lt),
        crate::covdata::lists_map(s1, m),
        crate::covdata::lists_map(s2, m),
    ensures
        s1 == s2,
{
    // Keys agree up to the shorter length.
    let short = if s1.len() <= s2.len() { s1.len() as int } else { s2.len() as int };
    lemma_listing_prefix(s1, s2, m, lt, short);
    if s1.len() < s2.len() {
        let k = s2[short].0;
        assert(m.contains_key(k));
        let j = choose|j: int| 0 <= j < s1.len() && s1[j].0 == k;
        assert(s2[j].0 == k);
        assert(lt(s2[j].0, s2[short].0));
    } else if s2.len() < s1.len() {
        let k = s1[short].0;
        assert(m.contains_key(k));
        let j = choose|j: int| 0 <= j < s2.len() && s2[j].0 == k;
        assert(s1[j].0 == k);
        assert(lt(s1[j].0, s1[short].0));
    }
    assert(s1.len() == s2.len());
    assert forall|i: int| 0 <= i < s1.len() implies s1[i] == s2[i] by {
        assert(s1[i].0 == s2[i].0);
        assert(m.contains_key(s1[i].0) && m[s1[i].0] == s1[i].1);
        assert(m.contains_key(s2[i].0) && m[s2[i].0] == s2[i].1);
    }
    assert(s1 =~= s2);
}

proof fn lemma_listing_prefix<K, V>(s1: Seq<(K, V)>, s2: Seq<(K, V)>, m: Map<K, V>, lt: spec_fn(K, K) -> bool, n: int)
    requires
        strict_order(lt),
        sorted_by(s1, lt),
        sorted_by(s2, lt),
        crate::covdata::lists_map(s1, m),
        crate::covdata::lists_map(s2, m),
        0 <= n <= s1.len(),
        n <= s2.len(),
    ensures
        forall|i: int| 0 <= i < n ==> #[trigger] s1[i].0 == s2[i].0,
    decreases n,
{
    if n > 0 {
        lemma_listing_prefix(s1, s2, m, lt, n - 1);
        let i = n - 1;
        let a = s1[i].0;
        let b = s2[i].0;
        if a != b {
            assert(m.contains_key(a));
            assert(m.contains_key(b));
            let j2 = choose|j: int| 0 <= j < s2.len() && s2[j].0 == a;
            let j1 = choose|j: int| 0 <= j < s1.len() && s1[j].0 == b;
            if j2 < i {
                assert(s1[j2].0 == s2[j2].0);
                assert(lt(s1[j2].0, s1[i].0));
            } else if j1 < i {
                assert(s1[j1].0 == s2[j1].0);
                assert(lt(s2[j1].0, s2[i].0));
            } else {
                assert(j2 > i && j1 > i);
                assert(lt(s2[i].0, s2[j2].0));
                assert(lt(s1[i].0, s1[j1].0));
                assert(lt(b, a) && lt(a, b));
                assert(lt(a, a));
            }
        }
    }
}

proof fn lemma_orders()
    ensures
        strict_order(|a: (u32, Seq<char>), b: (u32, Seq<char>)| fn_lt(a, b)),
        strict_order(|a: (u32, u32), b: (u32, u32)| pair_lt(a, b)),
        strict_order(|a: u32, b: u32| a < b),
{
    let f = |a: (u32, Seq<char>), b: (u32, Seq<char>)| fn_lt(a, b);
    assert forall|a: (u32, Seq<char>), b: (u32, Seq<char>), c: (u32, Seq<char>)|
        #[trigger] f(a, b) && #[trigger] f(b, c) implies f(a, c) by {
        crate::order::lemma_fn_lt_props(a, b, c);
    }
    assert forall|a: (u32, Seq<char>)| !#[trigger] f(a, a) by {
        crate::order::lemma_fn_lt_props(a, a, a);
    }
    assert forall|a: (u32, Seq<char>), b: (u32, Seq<char>)| a != b implies #[trigger] f(a, b) || f(b, a) by {
        crate::order::lemma_fn_lt_props(a, b, a);
    }
}

/// An lcov record is determined by the coverage data: whatever listings of the tables meet
/// `lcov_from`, the text is the same.
pub proof fn law_lcov_record_unique(
    data: &CoverageData,
    file: Seq<char>,
    fs1: Option<Seq<((u32, Seq<char>), u64)>>,
    bs1: Option<Seq<((u32, u32), (u32, bool, u64))>>,
    ls1: Seq<(u32, u64)>,
    t1: Seq<char>,
    fs2: Option<Seq<((u32, Seq<char>), u64)>>,
    bs2: Option<Seq<((u32, u32), (u32, bool, u64))>>,
    ls2: Seq<(u32, u64)>,
    t2: Seq<char>,
)
    requires
        lcov_from(data, file, fs1, bs1, ls1, t1),
        lcov_from(data, file, fs2, bs2, ls2, t2),
    ensures
        t1 == t2,
{
    lemma_orders();
    let flt = |a: (u32, Seq<char>), b: (u32, Seq<char>)| fn_lt(a, b);
    let plt = |a: (u32, u32), b: (u32, u32)| pair_lt(a, b);
    let llt = |a: u32, b: u32| a < b;
    match (fs1, fs2) {
        (Some(a), Some(b)) => {
            assert(sorted_by(a, flt));
            assert(sorted_by(b, flt));
            lemma_sorted_listing_unique(a, b, data.fn_view()[file], flt);
        },
        _ => {},
    }
    match (bs1, bs2) {
        (Some(a), Some(b)) => {
            assert(sorted_by(a, plt));
            assert(sorted_by(b, plt));
            lemma_sorted_listing_unique(a, b, data.branch_view()[file], plt);
        },
        _ => {},
    }
    assert(sorted_by(ls1, llt));
    assert(sorted_by(ls2, llt));
    lemma_sorted_listing_unique(ls1, ls2, inner_or_empty(data.line_view(), file), llt);
    assert(fs1 == fs2);
    assert(bs1 == bs2);
}

/// The lcov tracefile is determined by the coverage data and the reported files: two texts
/// that each list, in order, a record of every file are equal.
pub proof fn law_lcov_report_unique(data: &CoverageData, files: Seq<Seq<char>>, ts1: Seq<Seq<char>>, ts2: Seq<Seq<char>>)
    requires
        ts1.len() == files.len(),
        ts2.len() == files.len(),
        forall|i: int| 0 <= i < files.len() ==> lcov_ok(data, files[i], #[trigger] ts1[i]),
        forall|i: int| 0 <= i < files.len() ==> lcov_ok(data, files[i], #[trigger] ts2[i]),
    ensures
        concat(ts1) == concat(ts2),
{
    assert forall|i: int| 0 <= i < files.len() implies ts1[i] == ts2[i] by {
        assert(lcov_ok(data, files[i], ts1[i]));
        assert(lcov_ok(data, files[i], ts2[i]));
        let (fa, ba, la) = choose|
            fs: Option<Seq<((u32, Seq<char>), u64)>>,
            bs: Option<Seq<((u32, u32), (u32, bool, u64))>>,
            ls: Seq<(u32, u64)>,
        | #[trigger] lcov_from(data, files[i], fs, bs, ls, ts1[i]);
        let (fb, bb, lb) = choose|
            fs: Option<Seq<((u32, Seq<char>), u64)>>,
            bs: Option<Seq<((u32, u32), (u32, bool, u64))>>,
            ls: Seq<(u32, u64)>,
        | #[trigger] lcov_from(data, files[i], fs, bs, ls, ts2[i]);
        law_lcov_record_unique(data, files[i], fa, ba, la, ts1[i], fb, bb, lb, ts2[i]);
    }
    assert(ts1 =~= ts2);
}

} // verus!
