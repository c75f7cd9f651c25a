//! Coverage settings and bookkeeping: whether coverage is on, where reports go, the
//! threshold gate, the reporters, include/exclude globs, files exempted by a directive,
//! and the data gathered so far.

use vstd::prelude::*;

use base64::Engine;

use crate::assoc::{assoc_map, lemma_assoc_push, lemma_assoc_update, lemma_first_index};
use crate::covdata::{file_keys, find_file, CoverageData};
use crate::decimal::{parse_decimal, parse_decimal_spec, Decimal};
use crate::glob::{glob_match, glob_match_spec};
use crate::meta::{line_starts, line_starts_spec, meta_wf, utf16_len, utf8_len, BranchCC, ScriptMeta};
use crate::sourcemap::{mappings_spec, parse_mappings_full, MapState};
use crate::text::{
    chars_eq, chars_of, clone_strings, contains_chars, contains_seq, extend_chars, find_at,
    find_from, lemma_find_from, lower_char, lower_chars, rfind_chars, rfind_spec, slice_skip, slice_take, split_char,
    split_spec, string_of, strs, trim_chars, trim_spec,
};

verus! {

/// Minimum percentages per metric; `None` leaves a metric ungated.
#[derive(Clone, Copy)]
pub struct Thresholds {
    pub lines: Option<Decimal>,
    pub functions: Option<Decimal>,
    pub branches: Option<Decimal>,
    pub statements: Option<Decimal>,
}

impl Thresholds {
    /// No metric gated.
    pub fn none() -> (t: Thresholds)
        ensures
            t.lines is None,
            t.functions is None,
            t.branches is None,
            t.statements is None,
    {
        Thresholds { lines: None, functions: None, branches: None, statements: None }
    }
}

/// Everything coverage keeps for one run.
pub struct Coverage {
    /// `--coverage` was given.
    pub enabled: bool,
    /// `--coverage-dir`, when given.
    pub out_dir: Option<String>,
    /// The threshold gate, once any threshold was set.
    pub thresholds: Option<Thresholds>,
    /// Gate every file too, not only the total.
    pub per_file: bool,
    /// Reporters chosen on the command line, if any.
    pub reporters: Option<Vec<String>>,
    /// Include globs (empty: every file).
    pub include_globs: Vec<String>,
    /// Exclude globs.
    pub exclude_globs: Vec<String>,
    /// Files carrying an ignore directive.
    pub ignored: Vec<String>,
    /// Hits gathered so far.
    pub data: CoverageData,
    /// Per source file, its mapping data (`None`: its source map could not be read).
    pub meta: Vec<(String, Option<ScriptMeta>)>,
}

impl Coverage {
    /// Coverage off, nothing configured, nothing gathered.
    pub fn new() -> (c: Coverage)
        ensures
            !c.enabled,
            c.out_dir is None,
            c.thresholds is None,
            !c.per_file,
            c.reporters is None,
            c.include_globs@.len() == 0,
            c.exclude_globs@.len() == 0,
            c.ignored@.len() == 0,
            c.meta@.len() == 0,
            c.data.line_view() =~= Map::empty(),
            c.data.fn_view() =~= Map::empty(),
            c.data.branch_view() =~= Map::empty(),
            c.data.stmt_view() =~= Map::empty(),
            coverage_wf(&c),
    {
        Coverage {
            enabled: false,
            out_dir: None,
            thresholds: None,
            per_file: false,
            reporters: None,
            include_globs: Vec::new(),
            exclude_globs: Vec::new(),
            ignored: Vec::new(),
            data: CoverageData::new(),
            meta: Vec::new(),
        }
    }
}

/// Turn coverage on.
pub fn enable(cov: &mut Coverage)
    ensures
        *final(cov) == (Coverage { enabled: true, ..*old(cov) }),
{
    cov.enabled = true;
}

/// Whether coverage is on.
pub fn enabled(cov: &Coverage) -> (b: bool)
    ensures
        b == cov.enabled,
{
    cov.enabled
}

/// Set the report directory.
pub fn set_out_dir(cov: &mut Coverage, dir: &str)
    ensures
        final(cov).out_dir matches Some(d) && d@ == dir@,
        *final(cov) == (Coverage { out_dir: final(cov).out_dir, ..*old(cov) }),
{
    cov.out_dir = Some(dir.to_owned());
}

/// `base` joined with the relative path `name` (as `Path::join` does).
pub open spec fn join_path(base: Seq<char>, name: Seq<char>) -> Seq<char> {
    if base.len() == 0 {
        name
    } else if base.last() == '/' {
        base + name
    } else {
        base + seq!['/'] + name
    }
}

/// The report directory: the one set, else `coverage` under the working directory.
pub open spec fn out_dir_spec(cov: &Coverage, cwd: Seq<char>) -> Seq<char> {
    match cov.out_dir {
        Some(d) => d@,
        None => join_path(cwd, "coverage"@),
    }
}

pub fn out_dir(cov: &Coverage, cwd: &str) -> (r: String)
    ensures
        r@ == out_dir_spec(cov, cwd@),
{
    match &cov.out_dir {
        Some(d) => d.clone(),
        None => {
            let mut v = chars_of(cwd);
            let name = chars_of("coverage");
            if v.len() > 0 && v[v.len() - 1] != '/' {
                v.push('/');
            }
            extend_chars(&mut v, name.as_slice());
            string_of(v.as_slice())
        },
    }
}

/// Gate each file as well as the total.
pub fn set_per_file(cov: &mut Coverage, on: bool)
    ensures
        *final(cov) == (Coverage { per_file: on, ..*old(cov) }),
{
    cov.per_file = on;
}

} // verus!

verus! {

/// One `key=value` item of a thresholds spec applied to `t`. Items without `=`, with a
/// value that is not a number, or with an unknown key change nothing.
pub open spec fn apply_threshold(t: Thresholds, part: Seq<char>) -> Thresholds {
    match find_from(part, seq!['='], 0) {
        None => t,
        Some(i) => {
            let k = trim_spec(part.take(i));
            match parse_decimal_spec(trim_spec(part.skip(i + 1))) {
                None => t,
                Some(n) => {
                    if k == "lines"@ {
                        Thresholds { lines: Some(n), ..t }
                    } else if k == "functions"@ || k == "funcs"@ {
                        Thresholds { functions: Some(n), ..t }
                    } else if k == "branches"@ {
                        Thresholds { branches: Some(n), ..t }
                    } else if k == "statements"@ || k == "stmts"@ {
                        Thresholds { statements: Some(n), ..t }
                    } else {
                        t
                    }
                },
            }
        },
    }
}

/// The items applied left to right.
pub open spec fn thresholds_fold(t: Thresholds, parts: Seq<Seq<char>>) -> Thresholds
    decreases parts.len(),
{
    if parts.len() == 0 {
        t
    } else {
        apply_threshold(thresholds_fold(t, parts.drop_last()), parts.last())
    }
}

/// A threshold's decimal has at most nine fractional digits (what `set_thresholds` reads).
pub open spec fn thresholds_wf(t: Thresholds) -> bool {
    &&& (t.lines matches Some(d) ==> d.scale <= 9)
    &&& (t.functions matches Some(d) ==> d.scale <= 9)
    &&& (t.branches matches Some(d) ==> d.scale <= 9)
    &&& (t.statements matches Some(d) ==> d.scale <= 9)
}

proof fn lemma_thresholds_fold_wf(t: Thresholds, parts: Seq<Seq<char>>)
    requires
        thresholds_wf(t),
    ensures
        thresholds_wf(thresholds_fold(t, parts)),
    decreases parts.len(),
{
    if parts.len() > 0 {
        lemma_thresholds_fold_wf(t, parts.drop_last());
    }
}

/// The thresholds in force before a spec is applied.
pub open spec fn current_thresholds(cov: &Coverage) -> Thresholds {
    match cov.thresholds {
        Some(t) => t,
        None => Thresholds { lines: None, functions: None, branches: None, statements: None },
    }
}

fn apply_threshold_exec(t: Thresholds, part: &[char]) -> (r: Thresholds)
    ensures
        r == apply_threshold(t, part@),
{
    let eq: Vec<char> = vec!['='];
    assert(eq@ =~= seq!['=']);
    proof {
        lemma_find_from(part@, seq!['='], 0);
    }
    match find_at(part, eq.as_slice(), 0) {
        None => t,
        Some(i) => {
            let k = trim_chars(slice_take(part, i).as_slice());
            let v = trim_chars(slice_skip(part, i + 1));
            match parse_decimal(v.as_slice()) {
                None => t,
                Some(n) => {
                    if chars_eq(k.as_slice(), chars_of("lines").as_slice()) {
                        Thresholds { lines: Some(n), ..t }
                    } else if chars_eq(k.as_slice(), chars_of("functions").as_slice())
                        || chars_eq(k.as_slice(), chars_of("funcs").as_slice()) {
                        Thresholds { functions: Some(n), ..t }
                    } else if chars_eq(k.as_slice(), chars_of("branches").as_slice()) {
                        Thresholds { branches: Some(n), ..t }
                    } else if chars_eq(k.as_slice(), chars_of("statements").as_slice())
                        || chars_eq(k.as_slice(), chars_of("stmts").as_slice()) {
                        Thresholds { statements: Some(n), ..t }
                    } else {
                        t
                    }
                },
            }
        },
    }
}

/// Apply `lines=90,functions=80,branches=80,statements=90` (any subset, any order) over
/// the thresholds already set; thresholds are checked from then on.
pub fn set_thresholds(cov: &mut Coverage, spec: &str)
    ensures
        final(cov).thresholds == Some(
            thresholds_fold(current_thresholds(old(cov)), split_spec(spec@, ',')),
        ),
        *final(cov) == (Coverage { thresholds: final(cov).thresholds, ..*old(cov) }),
        thresholds_wf(current_thresholds(old(cov))) ==> thresholds_wf(current_thresholds(final(cov))),
{
    proof {
        if thresholds_wf(current_thresholds(cov)) {
            lemma_thresholds_fold_wf(current_thresholds(cov), split_spec(spec@, ','));
        }
    }
    let mut t = match cov.thresholds {
        Some(t) => t,
        None => Thresholds::none(),
    };
    let s = chars_of(spec);
    let parts = split_char(s.as_slice(), ',');
    let ghost ps = split_spec(spec@, ',');
    let mut i: usize = 0;
    assert(ps.take(0) =~= Seq::<Seq<char>>::empty());
    while i < parts.len()
        invariant
            i <= parts@.len() == ps.len(),
            forall|k: int| 0 <= k < parts@.len() ==> #[trigger] parts@[k]@ == ps[k],
            t == thresholds_fold(current_thresholds(old(cov)), ps.take(i as int)),
        decreases parts@.len() - i,
    {
        assert(ps.take(i + 1).drop_last() =~= ps.take(i as int));
        t = apply_threshold_exec(t, parts[i].as_slice());
        i += 1;
    }
    assert(ps.take(ps.len() as int) =~= ps);
    cov.thresholds = Some(t);
}

/// Reporter names of a comma list: trimmed, ASCII-lowercased, blanks dropped.
pub open spec fn reporter_list(parts: Seq<Seq<char>>) -> Seq<Seq<char>>
    decreases parts.len(),
{
    if parts.len() == 0 {
        Seq::empty()
    } else {
        let prev = reporter_list(parts.drop_last());
        let r = trim_spec(parts.last()).map_values(|c: char| lower_char(c));
        if r.len() > 0 {
            prev.push(r)
        } else {
            prev
        }
    }
}

/// Choose the reporters. A list with no name in it changes nothing.
pub fn set_reporters(cov: &mut Coverage, spec: &str)
    ensures
        ({
            let l = reporter_list(split_spec(spec@, ','));
            if l.len() > 0 {
                final(cov).reporters matches Some(v) && strs(v@) == l
            } else {
                final(cov).reporters == old(cov).reporters
            }
        }),
        *final(cov) == (Coverage { reporters: final(cov).reporters, ..*old(cov) }),
{
    let s = chars_of(spec);
    let parts = split_char(s.as_slice(), ',');
    let ghost ps = split_spec(spec@, ',');
    let mut list: Vec<String> = Vec::new();
    let mut i: usize = 0;
    assert(ps.take(0) =~= Seq::<Seq<char>>::empty());
    while i < parts.len()
        invariant
            i <= parts@.len() == ps.len(),
            forall|k: int| 0 <= k < parts@.len() ==> #[trigger] parts@[k]@ == ps[k],
            strs(list@) == reporter_list(ps.take(i as int)),
        decreases parts@.len() - i,
    {
        assert(ps.take(i + 1).drop_last() =~= ps.take(i as int));
        let r = lower_chars(trim_chars(parts[i].as_slice()).as_slice());
        if r.len() > 0 {
            let ghost before = list@;
            list.push(string_of(r.as_slice()));
            assert(strs(list@) =~= strs(before).push(r@));
        }
        i += 1;
    }
    assert(ps.take(ps.len() as int) =~= ps);
    if list.len() > 0 {
        cov.reporters = Some(list);
    }
}

/// The reporters to emit: those chosen, else lcov, json-summary and text.
pub open spec fn reporters_spec(cov: &Coverage) -> Seq<Seq<char>> {
    match cov.reporters {
        Some(v) => strs(v@),
        None => seq!["lcov"@, "json-summary"@, "text"@],
    }
}

pub fn reporters(cov: &Coverage) -> (r: Vec<String>)
    ensures
        strs(r@) == reporters_spec(cov),
{
    match &cov.reporters {
        Some(v) => clone_strings(v),
        None => {
            let mut r: Vec<String> = Vec::new();
            r.push("lcov".to_owned());
            r.push("json-summary".to_owned());
            r.push("text".to_owned());
            assert(strs(r@) =~= seq!["lcov"@, "json-summary"@, "text"@]);
            r
        },
    }
}

} // verus!

verus! {

/// State of the top-level comma splitter: pieces so far, the current piece, brace depth.
pub struct GlobSplit {
    pub out: Seq<Seq<char>>,
    pub cur: Seq<char>,
    pub depth: nat,
}

/// The trimmed piece joins the list unless it is blank.
pub open spec fn flush_piece(out: Seq<Seq<char>>, cur: Seq<char>) -> Seq<Seq<char>> {
    if trim_spec(cur).len() > 0 {
        out.push(trim_spec(cur))
    } else {
        out
    }
}

pub open spec fn glob_split_step(st: GlobSplit, c: char) -> GlobSplit {
    if c == '{' {
        GlobSplit { cur: st.cur.push(c), depth: st.depth + 1, ..st }
    } else if c == '}' {
        GlobSplit {
            cur: st.cur.push(c),
            depth: if st.depth > 0 {
                (st.depth - 1) as nat
            } else {
                0
            },
            ..st
        }
    } else if c == ',' && st.depth == 0 {
        GlobSplit { out: flush_piece(st.out, st.cur), cur: Seq::empty(), ..st }
    } else {
        GlobSplit { cur: st.cur.push(c), ..st }
    }
}

pub open spec fn glob_split_fold(s: Seq<char>) -> GlobSplit
    decreases s.len(),
{
    if s.len() == 0 {
        GlobSplit { out: Seq::empty(), cur: Seq::empty(), depth: 0 }
    } else {
        glob_split_step(glob_split_fold(s.drop_last()), s.last())
    }
}

/// A comma-joined glob list split on top-level commas only (a comma inside `{a,b}` belongs
/// to its glob), each glob trimmed, blanks dropped.
pub open spec fn split_globs_spec(s: Seq<char>) -> Seq<Seq<char>> {
    let st = glob_split_fold(s);
    flush_piece(st.out, st.cur)
}

fn flush_exec(out: &mut Vec<String>, cur: &Vec<char>)
    ensures
        strs(final(out)@) == flush_piece(strs(old(out)@), cur@),
{
    let t = trim_chars(cur.as_slice());
    if t.len() > 0 {
        out.push(string_of(t.as_slice()));
        assert(strs(out@) =~= strs(old(out)@).push(t@));
    }
}

pub fn split_globs(spec: &str) -> (r: Vec<String>)
    ensures
        strs(r@) == split_globs_spec(spec@),
{
    let s = chars_of(spec);
    let mut out: Vec<String> = Vec::new();
    let mut cur: Vec<char> = Vec::new();
    let mut depth: usize = 0;
    let mut i: usize = 0;
    assert(s@.take(0) =~= Seq::<char>::empty());
    assert(strs(out@) =~= Seq::<Seq<char>>::empty());
    while i < s.len()
        invariant
            i <= s@.len(),
            s@ == spec@,
            depth <= i,
            ({
                let st = glob_split_fold(s@.take(i as int));
                strs(out@) == st.out && cur@ == st.cur && depth == st.depth
            }),
        decreases s@.len() - i,
    {
        assert(s@.take(i + 1).drop_last() =~= s@.take(i as int));
        let c = s[i];
        if c == '{' {
            depth += 1;
            cur.push(c);
        } else if c == '}' {
            if depth > 0 {
                depth -= 1;
            }
            cur.push(c);
        } else if c == ',' && depth == 0 {
            flush_exec(&mut out, &cur);
            cur = Vec::new();
            assert(cur@ =~= Seq::<char>::empty());
        } else {
            cur.push(c);
        }
        i += 1;
    }
    assert(s@.take(s@.len() as int) =~= s@);
    flush_exec(&mut out, &cur);
    out
}

/// Add include globs (a comma-joined list).
pub fn add_include(cov: &mut Coverage, spec: &str)
    ensures
        strs(final(cov).include_globs@) == strs(old(cov).include_globs@) + split_globs_spec(spec@),
        *final(cov) == (Coverage { include_globs: final(cov).include_globs, ..*old(cov) }),
{
    let mut g = split_globs(spec);
    let ghost before = cov.include_globs@;
    let ghost added = g@;
    cov.include_globs.append(&mut g);
    assert(strs(cov.include_globs@) =~= strs(before) + strs(added));
}

/// Add exclude globs (a comma-joined list).
pub fn add_exclude(cov: &mut Coverage, spec: &str)
    ensures
        strs(final(cov).exclude_globs@) == strs(old(cov).exclude_globs@) + split_globs_spec(spec@),
        *final(cov) == (Coverage { exclude_globs: final(cov).exclude_globs, ..*old(cov) }),
{
    let mut g = split_globs(spec);
    let ghost before = cov.exclude_globs@;
    let ghost added = g@;
    cov.exclude_globs.append(&mut g);
    assert(strs(cov.exclude_globs@) =~= strs(before) + strs(added));
}

/// Whether `file` carries an ignore directive.
pub fn is_ignored(cov: &Coverage, file: &str) -> (b: bool)
    ensures
        b == strs(cov.ignored@).contains(file@),
{
    let f = file.to_owned();
    let mut i: usize = 0;
    while i < cov.ignored.len()
        invariant
            i <= cov.ignored@.len(),
            f@ == file@,
            forall|j: int| 0 <= j < i ==> strs(cov.ignored@)[j] != file@,
        decreases cov.ignored@.len() - i,
    {
        if cov.ignored[i] == f {
            assert(strs(cov.ignored@)[i as int] == file@);
            return true;
        }
        i += 1;
    }
    false
}

/// Exempt `file` from the report and the threshold check.
pub fn mark_ignored(cov: &mut Coverage, file: &str)
    ensures
        forall|f: Seq<char>|
            strs(final(cov).ignored@).contains(f) <==> (strs(old(cov).ignored@).contains(f) || f
                == file@),
        *final(cov) == (Coverage { ignored: final(cov).ignored, ..*old(cov) }),
{
    if !is_ignored(cov, file) {
        let ghost before = strs(cov.ignored@);
        cov.ignored.push(file.to_owned());
        assert(strs(cov.ignored@) =~= before.push(file@));
        assert forall|f: Seq<char>| strs(cov.ignored@).contains(f) <==> (before.contains(f) || f
            == file@) by {
            if before.contains(f) {
                let j = choose|j: int| 0 <= j < before.len() && before[j] == f;
                assert(strs(cov.ignored@)[j] == f);
            }
            if f == file@ {
                assert(strs(cov.ignored@)[before.len() as int] == f);
            }
            if strs(cov.ignored@).contains(f) {
                let j = choose|j: int| 0 <= j < strs(cov.ignored@).len() && strs(cov.ignored@)[j] == f;
                if j < before.len() {
                    assert(before[j] == f);
                }
            }
        }
    }
}

/// The markers that exempt a file from coverage.
pub open spec fn line_has_marker(l: Seq<char>) -> bool {
    contains_seq(l, "turbo-test-coverage-ignore-file"@) || contains_seq(l, "coverage-ignore-file"@)
        || contains_seq(l, "disable-test-coverage-check"@)
}

/// One of the first ten lines of `src` holds a marker.
pub open spec fn has_ignore_directive(src: Seq<char>) -> bool {
    exists|i: int|
        0 <= i < 10 && i < split_spec(src, '\n').len() && line_has_marker(
            #[trigger] split_spec(src, '\n')[i],
        )
}

fn line_has_marker_exec(l: &[char]) -> (b: bool)
    ensures
        b == line_has_marker(l@),
{
    contains_chars(l, chars_of("turbo-test-coverage-ignore-file").as_slice()) || contains_chars(
        l,
        chars_of("coverage-ignore-file").as_slice(),
    ) || contains_chars(l, chars_of("disable-test-coverage-check").as_slice())
}

/// Honor an ignore directive in the leading lines of a source file.
pub fn scan_ignore_directive(cov: &mut Coverage, file: &str, src: &str)
    ensures
        has_ignore_directive(src@) ==> forall|f: Seq<char>|
            strs(final(cov).ignored@).contains(f) <==> (strs(old(cov).ignored@).contains(f) || f
                == file@),
        !has_ignore_directive(src@) ==> final(cov).ignored == old(cov).ignored,
        *final(cov) == (Coverage { ignored: final(cov).ignored, ..*old(cov) }),
{
    let s = chars_of(src);
    let lines = split_char(s.as_slice(), '\n');
    let ghost ls = split_spec(src@, '\n');
    let mut i: usize = 0;
    while i < lines.len() && i < 10
        invariant
            i <= lines@.len() == ls.len(),
            i <= 10,
            *cov == *old(cov),
            ls == split_spec(src@, '\n'),
            forall|k: int| 0 <= k < lines@.len() ==> #[trigger] lines@[k]@ == ls[k],
            forall|k: int| 0 <= k < i ==> !line_has_marker(#[trigger] ls[k]),
        decreases 10 - i,
    {
        if line_has_marker_exec(lines[i].as_slice()) {
            assert(line_has_marker(ls[i as int]));
            mark_ignored(cov, file);
            return;
        }
        i += 1;
    }
}

/// Whether a (working-directory relative) path passes the include and exclude globs.
pub open spec fn passes_globs_spec(cov: &Coverage, rel: Seq<char>) -> bool {
    let inc = strs(cov.include_globs@);
    let exc = strs(cov.exclude_globs@);
    (inc.len() == 0 || exists|i: int| 0 <= i < inc.len() && glob_match_spec(#[trigger] inc[i], rel))
        && !(exists|i: int| 0 <= i < exc.len() && glob_match_spec(#[trigger] exc[i], rel))
}

fn any_glob(globs: &Vec<String>, rel: &str) -> (b: bool)
    ensures
        b == exists|i: int|
            0 <= i < globs@.len() && glob_match_spec(#[trigger] strs(globs@)[i], rel@),
{
    let mut i: usize = 0;
    while i < globs.len()
        invariant
            i <= globs@.len(),
            forall|j: int| 0 <= j < i ==> !glob_match_spec(#[trigger] strs(globs@)[j], rel@),
        decreases globs@.len() - i,
    {
        if glob_match(globs[i].as_str(), rel) {
            assert(glob_match_spec(strs(globs@)[i as int], rel@));
            return true;
        }
        i += 1;
    }
    false
}

pub fn passes_globs(cov: &Coverage, rel: &str) -> (b: bool)
    ensures
        b == passes_globs_spec(cov, rel@),
{
    if cov.include_globs.len() > 0 && !any_glob(&cov.include_globs, rel) {
        return false;
    }
    !any_glob(&cov.exclude_globs, rel)
}

} // verus!

verus! {

/// A decision point found in the original source, by byte offset: the decision, the
/// start of each arm, and whether it is an `if` without `else` (then the second arm is
/// the end of the `if`).
pub struct RawBranch {
    pub decision: u32,
    pub arms: Vec<u32>,
    pub implicit_else: bool,
}

/// What base64's STANDARD engine (`Engine::decode`) yields for `text`: the bytes it
/// encodes, or `None` where the engine rejects it.
pub uninterp spec fn base64_standard_decode(text: Seq<char>) -> Option<Seq<u8>>;

/// What serde_json yields when `json` is parsed (`from_slice` into a `Value`) and the
/// member `key` is read as a string (`get(key)` then `as_str`): `None` where the text is
/// not JSON, has no such member, or the member is not a string.
pub uninterp spec fn json_str_field(json: Seq<u8>, key: Seq<char>) -> Option<Seq<char>>;

pub open spec fn opt_bytes(o: Option<Vec<u8>>) -> Option<Seq<u8>> {
    match o {
        Some(v) => Some(v@),
        None => None,
    }
}

pub open spec fn opt_string(o: Option<String>) -> Option<Seq<char>> {
    match o {
        Some(s) => Some(s@),
        None => None,
    }
}

/// base64 `general_purpose::STANDARD.decode(text)`; the contract names its result.
#[verifier::external_body]
fn decode_base64(text: &str) -> (r: Option<Vec<u8>>)
    ensures
        opt_bytes(r) == base64_standard_decode(text@),
{
    base64::engine::general_purpose::STANDARD.decode(text).ok()
}

/// serde_json `from_slice::<Value>(json)`, then `get(key)` and `as_str`; the contract names
/// the result.
#[verifier::external_body]
fn json_string_field(json: &[u8], key: &str) -> (r: Option<String>)
    ensures
        opt_string(r) == json_str_field(json@, key@),
{
    let v: serde_json::Value = serde_json::from_slice(json).ok()?;
    v.get(key)?.as_str().map(|s| s.to_owned())
}

/// The comment that carries an inline source map.
pub open spec fn map_marker() -> Seq<char> {
    "//# sourceMappingURL=data:application/json;base64,"@
}

/// The base64 text of the last inline source map comment: the rest of its line, trimmed.
pub open spec fn inline_map_b64(t: Seq<char>) -> Option<Seq<char>> {
    match rfind_spec(t, map_marker()) {
        None => None,
        Some(p) => {
            let rest = t.skip(p + map_marker().len());
            if rest.len() == 0 {
                None
            } else {
                Some(trim_spec(split_spec(rest, '\n')[0]))
            }
        },
    }
}

/// The `mappings` string of a transformed module's inline source map.
pub open spec fn inline_mappings(t: Seq<char>) -> Option<Seq<char>> {
    match inline_map_b64(t) {
        None => None,
        Some(b) => match base64_standard_decode(b) {
            None => None,
            Some(json) => json_str_field(json, "mappings"@),
        },
    }
}

/// Extract the inline source map's `mappings` (see `inline_mappings`).
pub fn inline_map_mappings(t: &[char]) -> (r: Option<String>)
    ensures
        opt_string(r) == inline_mappings(t@),
{
    let marker = chars_of("//# sourceMappingURL=data:application/json;base64,");
    match rfind_chars(t, marker.as_slice()) {
        None => None,
        Some(p) => {
            let rest = slice_skip(t, p + marker.len());
            if rest.len() == 0 {
                return None;
            }
            let pieces = split_char(rest, '\n');
            let b64 = trim_chars(pieces[0].as_slice());
            let text = string_of(b64.as_slice());
            match decode_base64(text.as_str()) {
                None => None,
                Some(json) => json_string_field(json.as_slice(), "mappings"),
            }
        },
    }
}

/// The decoded map of a wrapped module, when it can be read and indexed.
pub open spec fn map_state_of(wrapped: Seq<char>) -> Option<MapState> {
    if wrapped.len() > usize::MAX / 2 {
        None
    } else {
        match inline_mappings(wrapped) {
            None => None,
            Some(m) => mappings_spec(m),
        }
    }
}

/// (line, UTF-16 column, bytes consumed) after reading `s` up to byte offset `off`.
pub open spec fn linecol_fold(s: Seq<char>, off: int) -> (int, int, int)
    decreases s.len(),
{
    if s.len() == 0 {
        (0, 0, 0)
    } else {
        let st = linecol_fold(s.drop_last(), off);
        if st.2 >= off {
            st
        } else if s.last() == '\n' {
            (st.0 + 1, 0, st.2 + utf8_len(s.last()))
        } else {
            (st.0, st.1 + utf16_len(s.last()), st.2 + utf8_len(s.last()))
        }
    }
}

/// Original-source byte offset -> (line, UTF-16 column), both 0-based.
pub open spec fn linecol_spec(s: Seq<char>, off: int) -> (u64, u64) {
    (linecol_fold(s, off).0 as u64, linecol_fold(s, off).1 as u64)
}

proof fn lemma_linecol_stable(s: Seq<char>, off: int, i: int)
    requires
        0 <= i <= s.len(),
        linecol_fold(s.take(i), off).2 >= off,
    ensures
        linecol_fold(s, off) == linecol_fold(s.take(i), off),
    decreases s.len() - i,
{
    if i < s.len() {
        assert(s.take(i + 1).drop_last() =~= s.take(i));
        lemma_linecol_stable(s, off, i + 1);
    } else {
        assert(s.take(i) =~= s);
    }
}

proof fn lemma_linecol_bounds(s: Seq<char>, off: int)
    requires
        0 <= off,
    ensures
        0 <= linecol_fold(s, off).0 <= linecol_fold(s, off).2,
        0 <= linecol_fold(s, off).1 <= linecol_fold(s, off).2,
        linecol_fold(s, off).2 <= off + 3,
    decreases s.len(),
{
    if s.len() > 0 {
        lemma_linecol_bounds(s.drop_last(), off);
    }
}

fn utf8_len_exec(c: char) -> (n: u64)
    ensures
        n == utf8_len(c),
{
    if (c as u32) < 0x80 {
        1
    } else if (c as u32) < 0x800 {
        2
    } else if (c as u32) < 0x10000 {
        3
    } else {
        4
    }
}

fn utf16_len_u64(c: char) -> (n: u64)
    ensures
        n == utf16_len(c),
{
    if (c as u32) < 0x10000 {
        1
    } else {
        2
    }
}

pub fn byte_to_linecol(src: &[char], off: u32) -> (r: (u64, u64))
    ensures
        r == linecol_spec(src@, off as int),
{
    let mut line: u64 = 0;
    let mut col: u64 = 0;
    let mut b: u64 = 0;
    let mut i: usize = 0;
    assert(src@.take(0) =~= Seq::<char>::empty());
    while i < src.len() && b < off as u64
        invariant
            i <= src@.len(),
            (line as int, col as int, b as int) == linecol_fold(src@.take(i as int), off as int),
        decreases src@.len() - i,
    {
        proof {
            assert(src@.take(i + 1).drop_last() =~= src@.take(i as int));
            lemma_linecol_bounds(src@.take(i as int), off as int);
        }
        let c = src[i];
        if c == '\n' {
            line += 1;
            col = 0;
        } else {
            col += utf16_len_u64(c);
        }
        b += utf8_len_exec(c);
        i += 1;
    }
    proof {
        if i < src@.len() {
            lemma_linecol_stable(src@, off as int, i as int);
        } else {
            assert(src@.take(i as int) =~= src@);
        }
    }
    (line, col)
}

} // verus!

verus! {

/// source file -> its mapping data (`None`: its source map could not be read).
pub open spec fn meta_map(cov: &Coverage) -> Map<Seq<char>, Option<ScriptMeta>> {
    assoc_map(file_keys(cov.meta@), cov.meta@.map_values(|e: (String, Option<ScriptMeta>)| e.1))
}

/// Every registered mapping is well formed (what `register_meta` builds).
pub open spec fn coverage_wf(cov: &Coverage) -> bool {
    &&& cov.data.wf()
    &&& thresholds_wf(current_thresholds(cov))
    &&& forall|f: Seq<char>|
        #[trigger] meta_map(cov).contains_key(f) ==> match meta_map(cov)[f] {
            Some(m) => meta_wf(&m),
            None => true,
        }
}

/// Whether `file` has been registered.
pub fn has_meta(cov: &Coverage, file: &str) -> (b: bool)
    ensures
        b == meta_map(cov).contains_key(file@),
{
    let f = file.to_owned();
    let r = find_file(&cov.meta, &f);
    r.is_some()
}

/// Index of `file`'s entry, if it has one.
pub(crate) fn meta_index(cov: &Coverage, file: &str) -> (r: Option<usize>)
    ensures
        match r {
            Some(i) => i < cov.meta@.len() && meta_map(cov).contains_key(file@) && meta_map(cov)[file@]
                == cov.meta@[i as int].1,
            None => !meta_map(cov).contains_key(file@),
        },
{
    let f = file.to_owned();
    let r = find_file(&cov.meta, &f);
    proof {
        lemma_first_index(file_keys(cov.meta@), file@);
    }
    r
}

/// One decision point carried to (line, column) coordinates.
pub open spec fn branch_built(b: BranchCC, raw: RawBranch, orig: Seq<char>) -> bool {
    &&& b.decision == linecol_spec(orig, raw.decision as int)
    &&& b.arms@ == raw.arms@.map_values(|o: u32| linecol_spec(orig, o as int))
    &&& b.implicit_else == raw.implicit_else
}

/// `m` is the mapping data of a wrapped module with decoded map `ms`, original source
/// `orig`, decision points `raw` and statement starts `stmts`.
pub open spec fn meta_built(
    m: ScriptMeta,
    wrapped: Seq<char>,
    orig: Seq<char>,
    raw: Seq<RawBranch>,
    stmts: Seq<u32>,
    ms: MapState,
) -> bool {
    &&& m.line_start@.len() == line_starts_spec(wrapped).len()
    &&& forall|i: int| 0 <= i < m.line_start@.len() ==> #[trigger] m.line_start@[i] == line_starts_spec(wrapped)[i]
    &&& meta_wf(&m)
    &&& m.map.matches(ms)
    &&& m.branches@.len() == raw.len()
    &&& forall|i: int| 0 <= i < raw.len() ==> branch_built(#[trigger] m.branches@[i], raw[i], orig)
    &&& m.statements@ == stmts.map_values(|o: u32| linecol_spec(orig, o as int))
}

fn build_branch(orig: &[char], raw: &RawBranch) -> (b: BranchCC)
    ensures
        branch_built(b, *raw, orig@),
{
    let mut arms: Vec<(u64, u64)> = Vec::new();
    let mut j: usize = 0;
    while j < raw.arms.len()
        invariant
            j <= raw.arms@.len(),
            arms@ == raw.arms@.take(j as int).map_values(|o: u32| linecol_spec(orig@, o as int)),
        decreases raw.arms@.len() - j,
    {
        let a = byte_to_linecol(orig, raw.arms[j]);
        arms.push(a);
        assert(raw.arms@.take(j + 1).map_values(|o: u32| linecol_spec(orig@, o as int))
            =~= raw.arms@.take(j as int).map_values(|o: u32| linecol_spec(orig@, o as int)).push(a));
        j += 1;
    }
    assert(raw.arms@.take(raw.arms@.len() as int) =~= raw.arms@);
    BranchCC {
        decision: byte_to_linecol(orig, raw.decision),
        arms,
        implicit_else: raw.implicit_else,
    }
}

fn build_meta(w: &[char], map: crate::sourcemap::SourceMapData, orig: &[char], raw_branches: &[RawBranch], raw_stmts: &[u32], Ghost(ms): Ghost<MapState>) -> (m: ScriptMeta)
    requires
        w@.len() <= usize::MAX / 2,
        map.matches(ms),
    ensures
        meta_built(m, w@, orig@, raw_branches@, raw_stmts@, ms),
{
    let line_start = line_starts(w);
    let mut branches: Vec<BranchCC> = Vec::new();
    let mut i: usize = 0;
    while i < raw_branches.len()
        invariant
            i <= raw_branches@.len(),
            branches@.len() == i,
            forall|k: int| 0 <= k < i ==> branch_built(#[trigger] branches@[k], raw_branches@[k], orig@),
        decreases raw_branches@.len() - i,
    {
        branches.push(build_branch(orig, &raw_branches[i]));
        i += 1;
    }
    let mut statements: Vec<(u64, u64)> = Vec::new();
    let mut k: usize = 0;
    while k < raw_stmts.len()
        invariant
            k <= raw_stmts@.len(),
            statements@ == raw_stmts@.take(k as int).map_values(|o: u32| linecol_spec(orig@, o as int)),
        decreases raw_stmts@.len() - k,
    {
        let p = byte_to_linecol(orig, raw_stmts[k]);
        statements.push(p);
        assert(raw_stmts@.take(k + 1).map_values(|o: u32| linecol_spec(orig@, o as int))
            =~= raw_stmts@.take(k as int).map_values(|o: u32| linecol_spec(orig@, o as int)).push(p));
        k += 1;
    }
    assert(raw_stmts@.take(raw_stmts@.len() as int) =~= raw_stmts@);
    ScriptMeta { line_start, map, branches, statements }
}

/// Store `m` as `file`'s mapping data, replacing any earlier entry.
fn insert_meta(cov: &mut Coverage, file: &str, m: Option<ScriptMeta>)
    ensures
        meta_map(final(cov)) == meta_map(old(cov)).insert(file@, m),
        *final(cov) == (Coverage { meta: final(cov).meta, ..*old(cov) }),
{
    let f = file.to_owned();
    let ghost old_t = cov.meta@;
    let ghost fk = file_keys(old_t);
    let ghost fv = old_t.map_values(|e: (String, Option<ScriptMeta>)| e.1);
    match find_file(&cov.meta, &f) {
        Some(i) => {
            proof {
                lemma_first_index(fk, f@);
            }
            cov.meta.set(i, (f, m));
            proof {
                assert(file_keys(cov.meta@) =~= fk);
                assert(cov.meta@.map_values(|e: (String, Option<ScriptMeta>)| e.1) =~= fv.update(
                    i as int,
                    m,
                ));
                lemma_assoc_update(fk, fv, i as int, m);
            }
        },
        None => {
            cov.meta.push((f, m));
            proof {
                assert(file_keys(cov.meta@) =~= fk.push(file@));
                assert(cov.meta@.map_values(|e: (String, Option<ScriptMeta>)| e.1) =~= fv.push(m));
                lemma_assoc_push(fk, fv, file@, m);
            }
        },
    }
}

/// Build and keep the mapping data of a source file from its wrapped compiled module (with
/// the inline source map), its original source, and the decision points and statement
/// starts found in that source. A map that cannot be read is kept as `None`. The source's
/// leading lines are scanned for an ignore directive first.
pub fn register_meta(
    cov: &mut Coverage,
    file: &str,
    wrapped: &str,
    orig_source: &str,
    raw_branches: &[RawBranch],
    raw_stmts: &[u32],
)
    ensures
        has_ignore_directive(orig_source@) ==> forall|f: Seq<char>|
            strs(final(cov).ignored@).contains(f) <==> (strs(old(cov).ignored@).contains(f) || f
                == file@),
        !has_ignore_directive(orig_source@) ==> final(cov).ignored == old(cov).ignored,
        meta_map(final(cov)).contains_key(file@),
        meta_map(final(cov)) == meta_map(old(cov)).insert(file@, meta_map(final(cov))[file@]),
        match meta_map(final(cov))[file@] {
            Some(m) => map_state_of(wrapped@) matches Some(ms) && meta_built(
                m,
                wrapped@,
                orig_source@,
                raw_branches@,
                raw_stmts@,
                ms,
            ),
            None => map_state_of(wrapped@) is None,
        },
        coverage_wf(old(cov)) ==> coverage_wf(final(cov)),
        *final(cov) == (Coverage { ignored: final(cov).ignored, meta: final(cov).meta, ..*old(cov) }),
{
    scan_ignore_directive(cov, file, orig_source);
    let w = chars_of(wrapped);
    let m: Option<ScriptMeta> = if w.len() > usize::MAX / 2 {
        None
    } else {
        match inline_map_mappings(w.as_slice()) {
            None => None,
            Some(mp) => match parse_mappings_full(mp.as_str()) {
                None => None,
                Some(map) => {
                    let ghost ms = mappings_spec(mp@)->Some_0;
                    let o = chars_of(orig_source);
                    Some(build_meta(w.as_slice(), map, o.as_slice(), raw_branches, raw_stmts, Ghost(ms)))
                },
            },
        }
    };
    insert_meta(cov, file, m);
}

} // verus!
