//! Command-line handling of the runner: numbers and shard specs as `str::parse` reads
//! them, the flag table, the deterministic shard partition and the worker count.

use vstd::prelude::*;
use crate::coverage::{
    add_exclude, add_include, coverage_wf, enable, meta_map, reporter_list, set_out_dir, set_per_file,
    set_reporters, set_thresholds, split_globs_spec, thresholds_fold, Coverage, Thresholds,
};
use crate::text::{chars_of, find_at, find_from, is_ascii_digit, lemma_find_from, slice_range, split_spec};

verus! {

/// The value of a string of decimal digits (leading zeros allowed).
pub open spec fn digits_value(d: Seq<char>) -> nat
    decreases d.len(),
{
    if d.len() == 0 {
        0
    } else {
        digits_value(d.drop_last()) * 10 + ((d.last() as int - 48) as nat)
    }
}

pub open spec fn all_digits(d: Seq<char>) -> bool {
    forall|k: int| 0 <= k < d.len() ==> is_ascii_digit(#[trigger] d[k])
}

/// The digits of an unsigned number: one optional leading `+` removed.
pub open spec fn unsigned_digits(s: Seq<char>) -> Seq<char> {
    if s.len() > 0 && s[0] == '+' {
        s.drop_first()
    } else {
        s
    }
}

/// What `s.parse::<usize>()` gives: an optional `+`, then at least one decimal digit and
/// nothing else, of a value that fits.
pub open spec fn count_spec(s: Seq<char>) -> Option<usize> {
    let d = unsigned_digits(s);
    if d.len() > 0 && all_digits(d) && digits_value(d) <= usize::MAX {
        Some(digits_value(d) as usize)
    } else {
        None
    }
}

/// A prefix of digits is worth no more than the whole.
pub proof fn lemma_digits_prefix(d: Seq<char>, k: int)
    requires
        all_digits(d),
        0 <= k <= d.len(),
    ensures
        digits_value(d.take(k)) <= digits_value(d),
    decreases d.len(),
{
    if k < d.len() {
        let p = d.drop_last();
        assert(all_digits(p)) by {
            assert forall|j: int| 0 <= j < p.len() implies is_ascii_digit(#[trigger] p[j]) by {
                assert(p[j] == d[j]);
            }
        }
        lemma_digits_prefix(p, k);
        assert(p.take(k) =~= d.take(k));
    } else {
        assert(d.take(k) =~= d);
    }
}

/// `s.parse::<usize>()`, `None` where it fails.
pub fn parse_count(s: &str) -> (r: Option<usize>)
    ensures
        r == count_spec(s@),
{
    let v = chars_of(s);
    let start: usize = if v.len() > 0 && v[0] == '+' { 1 } else { 0 };
    let ghost d = unsigned_digits(s@);
    assert(d =~= v@.skip(start as int));
    if start >= v.len() {
        return None;
    }
    let mut acc: usize = 0;
    let mut i: usize = start;
    while i < v.len()
        invariant
            start <= i <= v@.len(),
            v@ == s@,
            d == v@.skip(start as int),
            d == unsigned_digits(s@),
            d.len() > 0,
            forall|k: int| start <= k < i ==> is_ascii_digit(#[trigger] v@[k]),
            acc == digits_value(d.take(i - start)),
        decreases v.len() - i,
    {
        let c = v[i];
        if !('0' <= c && c <= '9') {
            assert(d[i - start] == c);
            assert(!is_ascii_digit(d[i - start]));
            return None;
        }
        let dig: usize = (c as u32 - 48) as usize;
        assert(d.take(i + 1 - start).drop_last() =~= d.take(i - start));
        assert(d.take(i + 1 - start).last() == c);
        proof {
            assert forall|k: int| start <= k < i + 1 implies is_ascii_digit(#[trigger] v@[k]) by {
            }
        }
        let ghost next = digits_value(d.take(i + 1 - start));
        assert(next == acc * 10 + dig);
        match acc.checked_mul(10) {
            Some(m) => match m.checked_add(dig) {
                Some(n) => {
                    acc = n;
                },
                None => {
                    proof { lemma_overflow_rest(d, start as int, i as int, v@); }
                    return None;
                },
            },
            None => {
                proof { lemma_overflow_rest(d, start as int, i as int, v@); }
                return None;
            },
        }
        i += 1;
    }
    assert(d.take(i - start) =~= d);
    assert(all_digits(d)) by {
        assert forall|k: int| 0 <= k < d.len() implies is_ascii_digit(#[trigger] d[k]) by {
            assert(d[k] == v@[k + start]);
        }
    }
    Some(acc)
}

/// Once the digits read so far are worth more than `usize::MAX`, the parse fails.
proof fn lemma_overflow_rest(d: Seq<char>, start: int, i: int, v: Seq<char>)
    requires
        0 <= start <= i < v.len(),
        d == v.skip(start),
        forall|k: int| start <= k < i + 1 ==> is_ascii_digit(#[trigger] v[k]),
        digits_value(d.take(i + 1 - start)) > usize::MAX,
    ensures
        !(all_digits(d) && digits_value(d) <= usize::MAX),
{
    if all_digits(d) {
        lemma_digits_prefix(d, i + 1 - start);
    }
}

/// What `v.split_once('/')` followed by parsing both halves gives.
pub open spec fn shard_spec(v: Seq<char>) -> Option<(usize, usize)> {
    match find_from(v, seq!['/'], 0) {
        Some(p) => match (count_spec(v.take(p)), count_spec(v.skip(p + 1))) {
            (Some(i), Some(n)) => Some((i, n)),
            _ => None,
        },
        None => None,
    }
}

/// A `--shard i/n` value.
pub fn parse_shard(v: &str) -> (r: Option<(usize, usize)>)
    ensures
        r == shard_spec(v@),
{
    let cs = chars_of(v);
    let slash: Vec<char> = vec!['/'];
    assert(slash@ =~= seq!['/']);
    proof { lemma_find_from(v@, seq!['/'], 0); }
    match find_at(cs.as_slice(), slash.as_slice(), 0) {
        Some(p) => {
            let a = slice_range(cs.as_slice(), 0, p);
            let b = slice_range(cs.as_slice(), p + 1, cs.len());
            assert(a@ =~= v@.take(p as int));
            assert(b@ =~= v@.skip(p + 1));
            let sa = crate::text::string_of(a.as_slice());
            let sb = crate::text::string_of(b.as_slice());
            match (parse_count(sa.as_str()), parse_count(sb.as_str())) {
                (Some(i), Some(n)) => Some((i, n)),
                _ => None,
            }
        },
        None => None,
    }
}

/// The items of `s` whose index `k` has `k % n == r`, in order.
pub open spec fn every_nth<A>(s: Seq<A>, n: int, r: int) -> Seq<A>
    decreases s.len(),
{
    if s.len() == 0 {
        Seq::empty()
    } else {
        let prev = every_nth(s.drop_last(), n, r);
        if (s.len() - 1) % n == r {
            prev.push(s.last())
        } else {
            prev
        }
    }
}

/// `x` split by `n` into quotient and remainder, as `x == q * n + t` with `0 <= t < n`.
proof fn lemma_split(x: int, n: int, q: int, t: int)
    requires
        n > 0,
        0 <= t < n,
        x == q * n + t,
    ensures
        x / n == q,
        x % n == t,
{
    vstd::arithmetic::div_mod::lemma_fundamental_div_mod_converse(x, n, q, t);
}

/// Shard `r` of `n` holds one item for each index `k < s.len()` with `k % n == r`.
pub proof fn law_shard_size(s: Seq<Seq<char>>, n: int, r: int)
    requires
        0 <= r < n,
    ensures
        every_nth(s, n, r).len() == (s.len() + n - 1 - r) / n,
    decreases s.len(),
{
    if s.len() == 0 {
        lemma_split(n - 1 - r, n, 0, n - 1 - r);
    } else {
        let l = s.len() - 1;
        law_shard_size(s.drop_last(), n, r);
        vstd::arithmetic::div_mod::lemma_fundamental_div_mod(l, n);
        let q = l / n;
        let t = l % n;
        assert(l == q * n + t) by (nonlinear_arith)
            requires
                l == n * (l / n) + (l % n),
                q == l / n,
                t == l % n,
        ;
        if t == r {
            lemma_split(l + n - 1 - r, n, q, n - 1);
            assert(l + n - r == (q + 1) * n + 0) by (nonlinear_arith)
                requires
                    l == q * n + t,
                    t == r,
            ;
            lemma_split(l + n - r, n, q + 1, 0);
        } else if t > r {
            assert(l + n - 1 - r == (q + 1) * n + (t - 1 - r)) by (nonlinear_arith)
                requires
                    l == q * n + t,
            ;
            lemma_split(l + n - 1 - r, n, q + 1, t - 1 - r);
            assert(l + n - r == (q + 1) * n + (t - r)) by (nonlinear_arith)
                requires
                    l == q * n + t,
            ;
            lemma_split(l + n - r, n, q + 1, t - r);
        } else {
            lemma_split(l + n - 1 - r, n, q, t + n - 1 - r);
            lemma_split(l + n - r, n, q, t + n - r);
        }
    }
}

/// The file at index `k` is item `k / n` of shard `k % n`: the shards split the files
/// by index, each file in exactly one shard, in their original order.
pub proof fn law_shard_item(s: Seq<Seq<char>>, n: int, k: int)
    requires
        n > 0,
        0 <= k < s.len(),
    ensures
        k / n < every_nth(s, n, k % n).len(),
        every_nth(s, n, k % n)[k / n] == s[k],
    decreases s.len(),
{
    let r = k % n;
    vstd::arithmetic::div_mod::lemma_fundamental_div_mod(k, n);
    let q = k / n;
    assert(k == q * n + r) by (nonlinear_arith)
        requires
            k == n * (k / n) + (k % n),
            q == k / n,
            r == k % n,
    ;
    let l = s.len() - 1;
    let prev = every_nth(s.drop_last(), n, r);
    law_shard_size(s.drop_last(), n, r);
    if k == l {
        lemma_split(l + n - 1 - r, n, q, n - 1);
        assert(prev.len() == q);
    } else {
        law_shard_item(s.drop_last(), n, k);
        assert(s.drop_last()[k] == s[k]);
    }
}

/// The files a run takes: with a valid shard `i/n` (`1 <= i <= n`), those at indices `k`
/// with `k % n == i - 1`; otherwise all of them.
pub open spec fn shard_files_spec(files: Seq<Seq<char>>, shard: Option<(usize, usize)>) -> Seq<Seq<char>> {
    match shard {
        Some((i, n)) => if n >= 1 && i >= 1 && i <= n {
            every_nth(files, n as int, i - 1)
        } else {
            files
        },
        None => files,
    }
}

/// Keep this shard's part of `files`.
pub fn shard_files(files: Vec<String>, shard: Option<(usize, usize)>) -> (r: Vec<String>)
    ensures
        crate::text::strs(r@) == shard_files_spec(crate::text::strs(files@), shard),
{
    match shard {
        Some((i, n)) => {
            if n >= 1 && i >= 1 && i <= n {
                let ghost fs = crate::text::strs(files@);
                let mut out: Vec<String> = Vec::new();
                let mut k: usize = 0;
                while k < files.len()
                    invariant
                        k <= files@.len(),
                        n >= 1,
                        1 <= i <= n,
                        fs == crate::text::strs(files@),
                        crate::text::strs(out@) == every_nth(fs.take(k as int), n as int, i - 1),
                    decreases files.len() - k,
                {
                    assert(fs.take(k + 1).drop_last() =~= fs.take(k as int));
                    if k % n == i - 1 {
                        let ghost before = out@;
                        out.push(files[k].clone());
                        assert(crate::text::strs(out@) =~= crate::text::strs(before).push(fs[k as int]));
                    }
                    k += 1;
                }
                assert(fs.take(files@.len() as int) =~= fs);
                out
            } else {
                files
            }
        },
        None => files,
    }
}

/// Worker threads for a run: the requested number, but no more than there are files and
/// at least one.
pub open spec fn worker_count_spec(jobs: usize, files: usize) -> usize {
    let m = if jobs < files { jobs } else { files };
    if m < 1 { 1 } else { m }
}

pub fn worker_count(jobs: usize, files: usize) -> (r: usize)
    ensures
        r == worker_count_spec(jobs, files),
{
    let m = if jobs < files { jobs } else { files };
    if m < 1 { 1 } else { m }
}

} // verus!

verus! {

/// A coverage setting named on the command line, in the order given.
pub enum CovFlag {
    Enable,
    OutDir(String),
    Thresholds(String),
    PerFile,
    Reporters(String),
    Include(String),
    Exclude(String),
}

/// A coverage setting as text.
pub enum CovAct {
    Enable,
    OutDir(Seq<char>),
    Thresholds(Seq<char>),
    PerFile,
    Reporters(Seq<char>),
    Include(Seq<char>),
    Exclude(Seq<char>),
}

pub open spec fn cov_act(f: CovFlag) -> CovAct {
    match f {
        CovFlag::Enable => CovAct::Enable,
        CovFlag::OutDir(s) => CovAct::OutDir(s@),
        CovFlag::Thresholds(s) => CovAct::Thresholds(s@),
        CovFlag::PerFile => CovAct::PerFile,
        CovFlag::Reporters(s) => CovAct::Reporters(s@),
        CovFlag::Include(s) => CovAct::Include(s@),
        CovFlag::Exclude(s) => CovAct::Exclude(s@),
    }
}

pub open spec fn cov_acts(v: Seq<CovFlag>) -> Seq<CovAct> {
    v.map_values(|f: CovFlag| cov_act(f))
}

/// What the command line asks for.
pub struct Cli {
    /// Test files, in the order given.
    pub files: Vec<String>,
    /// Worker threads asked for.
    pub jobs: usize,
    /// `--shard i/n`, as given.
    pub shard: Option<(usize, usize)>,
    /// `--reporter json`.
    pub json: bool,
    /// `-t` / `--testNamePattern`: run only tests whose full name matches.
    pub name_pattern: Option<String>,
    /// `-u` / `--update`: write snapshots instead of failing on them.
    pub update: bool,
    /// Flags this runner does not model; they are reported and skipped.
    pub unsupported: Vec<String>,
    /// Coverage settings, in order.
    pub coverage: Vec<CovFlag>,
}

/// The command line as text.
pub struct CliModel {
    pub files: Seq<Seq<char>>,
    pub jobs: usize,
    pub shard: Option<(usize, usize)>,
    pub json: bool,
    pub name_pattern: Option<Seq<char>>,
    pub update: bool,
    pub unsupported: Seq<Seq<char>>,
    pub coverage: Seq<CovAct>,
}

pub open spec fn opt_text(o: Option<String>) -> Option<Seq<char>> {
    match o {
        Some(s) => Some(s@),
        None => None,
    }
}

pub open spec fn cli_model(c: Cli) -> CliModel {
    CliModel {
        files: crate::text::strs(c.files@),
        jobs: c.jobs,
        shard: c.shard,
        json: c.json,
        name_pattern: opt_text(c.name_pattern),
        update: c.update,
        unsupported: crate::text::strs(c.unsupported@),
        coverage: cov_acts(c.coverage@),
    }
}

/// Flags that read the argument after them.
pub open spec fn takes_value(a: Seq<char>) -> bool {
    ||| a == "--jobs"@
    ||| a == "-j"@
    ||| a == "--shard"@
    ||| a == "--reporter"@
    ||| a == "-t"@
    ||| a == "--testNamePattern"@
    ||| a == "--coverage-dir"@
    ||| a == "--coverage-thresholds"@
    ||| a == "--coverage-threshold"@
    ||| a == "--coverage-reporter"@
    ||| a == "--coverage-reporters"@
    ||| a == "--coverage-include"@
    ||| a == "--coverage-exclude"@
}

/// Enable coverage, then apply `act` with the flag's value, when there is one.
pub open spec fn with_coverage(m: CliModel, next: Option<Seq<char>>, act: spec_fn(Seq<char>) -> CovAct) -> CliModel {
    match next {
        Some(v) => CliModel { coverage: m.coverage.push(CovAct::Enable).push(act(v)), ..m },
        None => CliModel { coverage: m.coverage.push(CovAct::Enable), ..m },
    }
}

/// One argument `a` (with `next`, the argument after it) applied to `m`.
pub open spec fn arg_step(m: CliModel, a: Seq<char>, next: Option<Seq<char>>) -> CliModel {
    if a == "--jobs"@ || a == "-j"@ {
        match next {
            Some(v) => match count_spec(v) {
                Some(j) => CliModel { jobs: j, ..m },
                None => m,
            },
            None => m,
        }
    } else if a == "--shard"@ {
        match next {
            Some(v) => match shard_spec(v) {
                Some(p) => CliModel { shard: Some(p), ..m },
                None => m,
            },
            None => m,
        }
    } else if a == "--reporter"@ {
        CliModel { json: next == Some("json"@), ..m }
    } else if a == "-t"@ || a == "--testNamePattern"@ {
        match next {
            Some(v) => CliModel { name_pattern: Some(v), ..m },
            None => m,
        }
    } else if a == "-u"@ || a == "--update"@ {
        CliModel { update: true, ..m }
    } else if a == "--coverage"@ {
        CliModel { coverage: m.coverage.push(CovAct::Enable), ..m }
    } else if a == "--coverage-dir"@ {
        with_coverage(m, next, |v: Seq<char>| CovAct::OutDir(v))
    } else if a == "--coverage-thresholds"@ || a == "--coverage-threshold"@ {
        with_coverage(m, next, |v: Seq<char>| CovAct::Thresholds(v))
    } else if a == "--coverage-per-file"@ {
        CliModel { coverage: m.coverage.push(CovAct::Enable).push(CovAct::PerFile), ..m }
    } else if a == "--coverage-reporter"@ || a == "--coverage-reporters"@ {
        with_coverage(m, next, |v: Seq<char>| CovAct::Reporters(v))
    } else if a == "--coverage-include"@ {
        with_coverage(m, next, |v: Seq<char>| CovAct::Include(v))
    } else if a == "--coverage-exclude"@ {
        with_coverage(m, next, |v: Seq<char>| CovAct::Exclude(v))
    } else if a.len() > 0 && a[0] == '-' {
        CliModel { unsupported: m.unsupported.push(a), ..m }
    } else {
        CliModel { files: m.files.push(a), ..m }
    }
}

pub open spec fn next_arg(args: Seq<Seq<char>>, i: int) -> Option<Seq<char>> {
    if i + 1 < args.len() {
        Some(args[i + 1])
    } else {
        None
    }
}

/// The arguments from index `i` on, applied to `m` left to right.
pub open spec fn parse_from(args: Seq<Seq<char>>, i: int, m: CliModel) -> CliModel
    decreases args.len() + 1 - i,
{
    if i < 0 || i >= args.len() {
        m
    } else {
        let w = if takes_value(args[i]) { 2int } else { 1int };
        parse_from(args, i + w, arg_step(m, args[i], next_arg(args, i)))
    }
}

/// Before any argument: no files, `jobs` as given, every switch off.
pub open spec fn initial_model(jobs: usize) -> CliModel {
    CliModel {
        files: Seq::empty(),
        jobs,
        shard: None,
        json: false,
        name_pattern: None,
        update: false,
        unsupported: Seq::empty(),
        coverage: Seq::empty(),
    }
}

fn is_lit(a: &[char], lit: &str) -> (b: bool)
    ensures
        b == (a@ == lit@),
{
    crate::text::chars_eq(a, chars_of(lit).as_slice())
}

fn uses_value(a: &[char]) -> (b: bool)
    ensures
        b == takes_value(a@),
{
    is_lit(a, "--jobs") || is_lit(a, "-j") || is_lit(a, "--shard") || is_lit(a, "--reporter")
        || is_lit(a, "-t") || is_lit(a, "--testNamePattern") || is_lit(a, "--coverage-dir")
        || is_lit(a, "--coverage-thresholds") || is_lit(a, "--coverage-threshold")
        || is_lit(a, "--coverage-reporter") || is_lit(a, "--coverage-reporters")
        || is_lit(a, "--coverage-include") || is_lit(a, "--coverage-exclude")
}

fn push_flag(v: &mut Vec<CovFlag>, f: CovFlag)
    ensures
        cov_acts(final(v)@) == cov_acts(old(v)@).push(cov_act(f)),
{
    let ghost before = v@;
    v.push(f);
    assert(cov_acts(v@) =~= cov_acts(before).push(cov_act(f)));
}

/// Push `Enable` and, when there is a value, the setting `make` builds from it.
fn push_with_value(v: &mut Vec<CovFlag>, next: Option<&String>, kind: u8)
    requires
        kind < 5,
    ensures
        cov_acts(final(v)@) == (match next {
            Some(s) => cov_acts(old(v)@).push(CovAct::Enable).push(kind_act(kind, s@)),
            None => cov_acts(old(v)@).push(CovAct::Enable),
        }),
{
    push_flag(v, CovFlag::Enable);
    match next {
        Some(s) => {
            let t = s.clone();
            let f = match kind {
                0 => CovFlag::OutDir(t),
                1 => CovFlag::Thresholds(t),
                2 => CovFlag::Reporters(t),
                3 => CovFlag::Include(t),
                _ => CovFlag::Exclude(t),
            };
            push_flag(v, f);
        },
        None => {},
    }
}

pub open spec fn kind_act(kind: u8, s: Seq<char>) -> CovAct {
    if kind == 0 {
        CovAct::OutDir(s)
    } else if kind == 1 {
        CovAct::Thresholds(s)
    } else if kind == 2 {
        CovAct::Reporters(s)
    } else if kind == 3 {
        CovAct::Include(s)
    } else {
        CovAct::Exclude(s)
    }
}

pub open spec fn opt_ref_text(o: Option<&String>) -> Option<Seq<char>> {
    match o {
        Some(s) => Some(s@),
        None => None,
    }
}

/// Apply one argument.
fn apply_arg(cli: &mut Cli, arg: &String, next: Option<&String>)
    ensures
        cli_model(*final(cli)) == arg_step(cli_model(*old(cli)), arg@, opt_ref_text(next)),
{
    let a = chars_of(arg.as_str());
    let a = a.as_slice();
    let ghost m = cli_model(*cli);
    if is_lit(a, "--jobs") || is_lit(a, "-j") {
        match next {
            Some(v) => match parse_count(v.as_str()) {
                Some(j) => {
                    cli.jobs = j;
                },
                None => {},
            },
            None => {},
        }
    } else if is_lit(a, "--shard") {
        match next {
            Some(v) => match parse_shard(v.as_str()) {
                Some(p) => {
                    cli.shard = Some(p);
                },
                None => {},
            },
            None => {},
        }
    } else if is_lit(a, "--reporter") {
        cli.json = match next {
            Some(v) => is_lit(chars_of(v.as_str()).as_slice(), "json"),
            None => false,
        };
    } else if is_lit(a, "-t") || is_lit(a, "--testNamePattern") {
        match next {
            Some(v) => {
                cli.name_pattern = Some(v.clone());
            },
            None => {},
        }
    } else if is_lit(a, "-u") || is_lit(a, "--update") {
        cli.update = true;
    } else if is_lit(a, "--coverage") {
        push_flag(&mut cli.coverage, CovFlag::Enable);
    } else if is_lit(a, "--coverage-dir") {
        push_with_value(&mut cli.coverage, next, 0);
        assert(cov_acts(cli.coverage@) == with_coverage(m, opt_ref_text(next), |v: Seq<char>| CovAct::OutDir(v)).coverage);
    } else if is_lit(a, "--coverage-thresholds") || is_lit(a, "--coverage-threshold") {
        push_with_value(&mut cli.coverage, next, 1);
        assert(cov_acts(cli.coverage@) == with_coverage(m, opt_ref_text(next), |v: Seq<char>| CovAct::Thresholds(v)).coverage);
    } else if is_lit(a, "--coverage-per-file") {
        push_flag(&mut cli.coverage, CovFlag::Enable);
        push_flag(&mut cli.coverage, CovFlag::PerFile);
    } else if is_lit(a, "--coverage-reporter") || is_lit(a, "--coverage-reporters") {
        push_with_value(&mut cli.coverage, next, 2);
        assert(cov_acts(cli.coverage@) == with_coverage(m, opt_ref_text(next), |v: Seq<char>| CovAct::Reporters(v)).coverage);
    } else if is_lit(a, "--coverage-include") {
        push_with_value(&mut cli.coverage, next, 3);
        assert(cov_acts(cli.coverage@) == with_coverage(m, opt_ref_text(next), |v: Seq<char>| CovAct::Include(v)).coverage);
    } else if is_lit(a, "--coverage-exclude") {
        push_with_value(&mut cli.coverage, next, 4);
        assert(cov_acts(cli.coverage@) == with_coverage(m, opt_ref_text(next), |v: Seq<char>| CovAct::Exclude(v)).coverage);
    } else if a.len() > 0 && a[0] == '-' {
        let ghost before = cli.unsupported@;
        cli.unsupported.push(arg.clone());
        assert(crate::text::strs(cli.unsupported@) =~= crate::text::strs(before).push(arg@));
    } else {
        let ghost before = cli.files@;
        cli.files.push(arg.clone());
        assert(crate::text::strs(cli.files@) =~= crate::text::strs(before).push(arg@));
    }
}

/// Read the command line (the arguments after the program name). `default_jobs` is the
/// worker count when no valid `--jobs` is given. A flag that reads a value takes the next
/// argument whatever it is; an unknown flag is set aside, never taken for a file.
pub fn parse_args(args: &[String], default_jobs: usize) -> (c: Cli)
    ensures
        cli_model(c) == parse_from(crate::text::strs(args@), 0, initial_model(default_jobs)),
{
    let ghost a = crate::text::strs(args@);
    let mut cli = Cli {
        files: Vec::new(),
        jobs: default_jobs,
        shard: None,
        json: false,
        name_pattern: None,
        update: false,
        unsupported: Vec::new(),
        coverage: Vec::new(),
    };
    assert(cli_model(cli) =~= initial_model(default_jobs)) by {
        assert(crate::text::strs(cli.files@) =~= Seq::<Seq<char>>::empty());
        assert(crate::text::strs(cli.unsupported@) =~= Seq::<Seq<char>>::empty());
        assert(cov_acts(cli.coverage@) =~= Seq::<CovAct>::empty());
    }
    let mut i: usize = 0;
    while i < args.len()
        invariant
            a == crate::text::strs(args@),
            parse_from(a, 0, initial_model(default_jobs)) == parse_from(a, i as int, cli_model(cli)),
        decreases args.len() - i,
    {
        let next: Option<&String> = if i + 1 < args.len() { Some(&args[i + 1]) } else { None };
        assert(opt_ref_text(next) == next_arg(a, i as int));
        apply_arg(&mut cli, &args[i], next);
        let w: usize = if uses_value(chars_of(args[i].as_str()).as_slice()) { 2 } else { 1 };
        if w == 2 && i + 1 >= args.len() {
            assert(parse_from(a, i + 2, cli_model(cli)) == cli_model(cli));
            return cli;
        }
        i = i + w;
    }
    cli
}

} // verus!

verus! {

/// The coverage settings a command line can change.
pub struct CovSettings {
    pub enabled: bool,
    pub out_dir: Option<Seq<char>>,
    pub thresholds: Option<Thresholds>,
    pub per_file: bool,
    pub reporters: Option<Seq<Seq<char>>>,
    pub included: Seq<Seq<char>>,
    pub excluded: Seq<Seq<char>>,
}

pub open spec fn settings_of(c: &Coverage) -> CovSettings {
    CovSettings {
        enabled: c.enabled,
        out_dir: opt_text(c.out_dir),
        thresholds: c.thresholds,
        per_file: c.per_file,
        reporters: match c.reporters {
            Some(v) => Some(crate::text::strs(v@)),
            None => None,
        },
        included: crate::text::strs(c.include_globs@),
        excluded: crate::text::strs(c.exclude_globs@),
    }
}

pub open spec fn thresholds_or_none(t: Option<Thresholds>) -> Thresholds {
    match t {
        Some(t) => t,
        None => Thresholds { lines: None, functions: None, branches: None, statements: None },
    }
}

/// One setting applied, as the matching `coverage` setter does it.
pub open spec fn settings_step(s: CovSettings, a: CovAct) -> CovSettings {
    match a {
        CovAct::Enable => CovSettings { enabled: true, ..s },
        CovAct::OutDir(d) => CovSettings { out_dir: Some(d), ..s },
        CovAct::Thresholds(v) => CovSettings {
            thresholds: Some(thresholds_fold(thresholds_or_none(s.thresholds), split_spec(v, ','))),
            ..s
        },
        CovAct::PerFile => CovSettings { per_file: true, ..s },
        CovAct::Reporters(v) => {
            let l = reporter_list(split_spec(v, ','));
            if l.len() > 0 {
                CovSettings { reporters: Some(l), ..s }
            } else {
                s
            }
        },
        CovAct::Include(v) => CovSettings { included: s.included + split_globs_spec(v), ..s },
        CovAct::Exclude(v) => CovSettings { excluded: s.excluded + split_globs_spec(v), ..s },
    }
}

/// The settings applied left to right.
pub open spec fn settings_fold(s: CovSettings, acts: Seq<CovAct>) -> CovSettings
    decreases acts.len(),
{
    if acts.len() == 0 {
        s
    } else {
        settings_step(settings_fold(s, acts.drop_last()), acts.last())
    }
}

/// Once coverage is on it stays on: no setting applied afterwards turns it off, and turning
/// it on again changes nothing.
pub proof fn law_enabled_stays(s: CovSettings, acts: Seq<CovAct>)
    requires
        s.enabled,
    ensures
        settings_fold(s, acts).enabled,
        settings_step(s, CovAct::Enable) == s,
    decreases acts.len(),
{
    if acts.len() > 0 {
        law_enabled_stays(s, acts.drop_last());
    }
}

/// The names of a reporter setting, if it names any.
pub open spec fn named_reporters(a: CovAct) -> Option<Seq<Seq<char>>> {
    match a {
        CovAct::Reporters(v) => {
            let l = reporter_list(split_spec(v, ','));
            if l.len() > 0 {
                Some(l)
            } else {
                None
            }
        },
        _ => None,
    }
}

/// The last reporter setting among `acts` that names a reporter, if any.
pub open spec fn last_named_reporters(acts: Seq<CovAct>) -> Option<Seq<Seq<char>>>
    decreases acts.len(),
{
    if acts.len() == 0 {
        None
    } else {
        match named_reporters(acts.last()) {
            Some(l) => Some(l),
            None => last_named_reporters(acts.drop_last()),
        }
    }
}

/// The last reporter list that names something wins; a list with no name (such as " , ")
/// and every other setting leave the choice as it was, so with none the defaults stay.
pub proof fn law_last_reporters_win(s: CovSettings, acts: Seq<CovAct>)
    ensures
        settings_fold(s, acts).reporters == match last_named_reporters(acts) {
            Some(l) => Some(l),
            None => s.reporters,
        },
    decreases acts.len(),
{
    if acts.len() > 0 {
        law_last_reporters_win(s, acts.drop_last());
    }
}

/// A reporter list whose parts are all blank names no reporter.
pub proof fn law_blank_reporters_name_nothing(parts: Seq<Seq<char>>)
    requires
        forall|k: int| 0 <= k < parts.len() ==> #[trigger] crate::text::trim_spec(parts[k]).len() == 0,
    ensures
        reporter_list(parts).len() == 0,
    decreases parts.len(),
{
    if parts.len() > 0 {
        assert forall|k: int| 0 <= k < parts.drop_last().len() implies #[trigger] crate::text::trim_spec(
            parts.drop_last()[k],
        ).len() == 0 by {
            assert(parts.drop_last()[k] == parts[k]);
        }
        law_blank_reporters_name_nothing(parts.drop_last());
        assert(crate::text::trim_spec(parts.last()).len() == 0);
    }
}

/// Everything but the settings: what was gathered and registered.
pub open spec fn same_gathered(a: &Coverage, b: &Coverage) -> bool {
    &&& a.ignored == b.ignored
    &&& a.data == b.data
    &&& a.meta == b.meta
}

fn apply_flag(cov: &mut Coverage, f: &CovFlag)
    ensures
        settings_of(final(cov)) == settings_step(settings_of(old(cov)), cov_act(*f)),
        same_gathered(old(cov), final(cov)),
        coverage_wf(old(cov)) ==> coverage_wf(final(cov)),
{
    match f {
        CovFlag::Enable => enable(cov),
        CovFlag::OutDir(d) => set_out_dir(cov, d.as_str()),
        CovFlag::Thresholds(v) => set_thresholds(cov, v.as_str()),
        CovFlag::PerFile => set_per_file(cov, true),
        CovFlag::Reporters(v) => set_reporters(cov, v.as_str()),
        CovFlag::Include(v) => add_include(cov, v.as_str()),
        CovFlag::Exclude(v) => add_exclude(cov, v.as_str()),
    }
    assert(meta_map(cov) == meta_map(old(cov)));
}

/// Apply the coverage settings of a command line, in order.
pub fn configure(cov: &mut Coverage, flags: &[CovFlag])
    ensures
        settings_of(final(cov)) == settings_fold(settings_of(old(cov)), cov_acts(flags@)),
        same_gathered(old(cov), final(cov)),
        coverage_wf(old(cov)) ==> coverage_wf(final(cov)),
{
    let ghost acts = cov_acts(flags@);
    let mut i: usize = 0;
    while i < flags.len()
        invariant
            i <= flags@.len(),
            acts == cov_acts(flags@),
            settings_of(cov) == settings_fold(settings_of(old(cov)), acts.take(i as int)),
            same_gathered(old(cov), cov),
            coverage_wf(old(cov)) ==> coverage_wf(cov),
        decreases flags.len() - i,
    {
        assert(acts.take(i + 1).drop_last() =~= acts.take(i as int));
        apply_flag(cov, &flags[i]);
        i += 1;
    }
    assert(acts.take(flags@.len() as int) =~= acts);
}

} // verus!
