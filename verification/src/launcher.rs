//! The command-line front end's logic: which files are test files, a loose scan of a
//! vitest/vite config's text, splitting the arguments into launcher options, runner flags
//! and files, and the flags a config adds when the user did not pass them.

use vstd::prelude::*;

use crate::text::{
    chars_eq, chars_of, find_at, find_from, is_ascii_alpha, is_ascii_digit, is_ascii_ws,
    is_ascii_ws_exec, lemma_find_from, lower_char, rfind_chars, rfind_spec, slice_range,
    slice_skip, string_of, strs,
};

verus! {

/// `s` ends with `suf`.
pub open spec fn ends_with(s: Seq<char>, suf: Seq<char>) -> bool {
    suf.len() <= s.len() && s.skip(s.len() - suf.len()) == suf
}

pub fn ends_with_exec(s: &[char], suf: &[char]) -> (b: bool)
    ensures
        b == ends_with(s@, suf@),
{
    if suf.len() > s.len() {
        return false;
    }
    chars_eq(slice_skip(s, s.len() - suf.len()), suf)
}

/// `s` starts with `pre`.
pub open spec fn starts_with(s: Seq<char>, pre: Seq<char>) -> bool {
    pre.len() <= s.len() && s.take(pre.len() as int) == pre
}

pub fn starts_with_exec(s: &[char], pre: &[char]) -> (b: bool)
    ensures
        b == starts_with(s@, pre@),
{
    if pre.len() > s.len() {
        return false;
    }
    let mut i: usize = 0;
    while i < pre.len()
        invariant
            i <= pre.len() <= s.len(),
            forall|j: int| 0 <= j < i ==> s@[j] == pre@[j],
        decreases pre.len() - i,
    {
        if s[i] != pre[i] {
            assert(s@.take(pre.len() as int)[i as int] != pre@[i as int]);
            return false;
        }
        i += 1;
    }
    assert(s@.take(pre.len() as int) =~= pre@);
    true
}

/// The extensions a test file may have.
pub open spec fn test_ext(e: Seq<char>) -> bool {
    e == "ts"@ || e == "tsx"@ || e == "js"@ || e == "jsx"@ || e == "mts"@ || e == "cts"@
}

/// A vitest-style test file name: `*.{test,spec}.{ts,tsx,js,jsx,mts,cts}`.
pub open spec fn is_test_file_spec(n: Seq<char>) -> bool {
    match rfind_spec(n, seq!['.']) {
        None => false,
        Some(d) => test_ext(n.skip(d + 1)) && (ends_with(n.take(d), ".test"@) || ends_with(
            n.take(d),
            ".spec"@,
        )),
    }
}

pub fn is_test_file(name: &str) -> (b: bool)
    ensures
        b == is_test_file_spec(name@),
{
    let n = chars_of(name);
    let dot: Vec<char> = vec!['.'];
    assert(dot@ =~= seq!['.']);
    match rfind_chars(n.as_slice(), dot.as_slice()) {
        None => false,
        Some(d) => {
            let ext = slice_skip(n.as_slice(), d + 1);
            let stem = slice_range(n.as_slice(), 0, d);
            assert(stem@ =~= n@.take(d as int));
            let ok_ext = chars_eq(ext, chars_of("ts").as_slice()) || chars_eq(
                ext,
                chars_of("tsx").as_slice(),
            ) || chars_eq(ext, chars_of("js").as_slice()) || chars_eq(ext, chars_of("jsx").as_slice())
                || chars_eq(ext, chars_of("mts").as_slice()) || chars_eq(
                ext,
                chars_of("cts").as_slice(),
            );
            ok_ext && (ends_with_exec(stem.as_slice(), chars_of(".test").as_slice())
                || ends_with_exec(stem.as_slice(), chars_of(".spec").as_slice()))
        },
    }
}

/// Scanning back from `i` over characters that are not `.` reaches the `.` at `d`.
proof fn lemma_rfind_dot(h: Seq<char>, d: int, i: int)
    requires
        0 <= d <= i < h.len(),
        h[d] == '.',
        forall|j: int| d < j <= i ==> h[j] != '.',
    ensures
        rfind_spec_from_dot(h, i) == Some(d),
    decreases i - d,
{
    assert(h.subrange(d, d + 1) =~= seq!['.']);
    if i > d {
        assert(!(h.subrange(i, i + 1) =~= seq!['.'])) by {
            assert(h.subrange(i, i + 1)[0] == h[i]);
        }
        lemma_rfind_dot(h, d, i - 1);
    }
}

pub open spec fn rfind_spec_from_dot(h: Seq<char>, i: int) -> Option<int> {
    crate::text::rfind_from(h, seq!['.'], i)
}

/// Every name `<stem>.test.<ext>` or `<stem>.spec.<ext>` with `ext` one of `ts`, `tsx`,
/// `js`, `jsx`, `mts` and `cts` is a test file: `stem` here is any text ending in `.test`
/// or `.spec`.
pub proof fn law_test_file_extensions(stem: Seq<char>)
    requires
        ends_with(stem, ".test"@) || ends_with(stem, ".spec"@),
    ensures
        is_test_file_spec(stem + ".ts"@),
        is_test_file_spec(stem + ".tsx"@),
        is_test_file_spec(stem + ".js"@),
        is_test_file_spec(stem + ".jsx"@),
        is_test_file_spec(stem + ".mts"@),
        is_test_file_spec(stem + ".cts"@),
{
    reveal_strlit(".ts");
    reveal_strlit(".tsx");
    reveal_strlit(".js");
    reveal_strlit(".jsx");
    reveal_strlit(".mts");
    reveal_strlit(".cts");
    reveal_strlit("ts");
    reveal_strlit("tsx");
    reveal_strlit("js");
    reveal_strlit("jsx");
    reveal_strlit("mts");
    reveal_strlit("cts");
    assert(".ts"@ =~= seq!['.'] + "ts"@);
    lemma_test_name(stem, ".ts"@, "ts"@);
    assert(".tsx"@ =~= seq!['.'] + "tsx"@);
    lemma_test_name(stem, ".tsx"@, "tsx"@);
    assert(".js"@ =~= seq!['.'] + "js"@);
    lemma_test_name(stem, ".js"@, "js"@);
    assert(".jsx"@ =~= seq!['.'] + "jsx"@);
    lemma_test_name(stem, ".jsx"@, "jsx"@);
    assert(".mts"@ =~= seq!['.'] + "mts"@);
    lemma_test_name(stem, ".mts"@, "mts"@);
    assert(".cts"@ =~= seq!['.'] + "cts"@);
    lemma_test_name(stem, ".cts"@, "cts"@);
}

proof fn lemma_test_name(stem: Seq<char>, dot_ext: Seq<char>, ext: Seq<char>)
    requires
        ends_with(stem, ".test"@) || ends_with(stem, ".spec"@),
        dot_ext == seq!['.'] + ext,
        ext.len() > 0,
        forall|j: int| 0 <= j < ext.len() ==> ext[j] != '.',
        test_ext(ext),
    ensures
        is_test_file_spec(stem + dot_ext),
{
    let n = stem + dot_ext;
    let d = stem.len() as int;
    assert(n[d] == '.');
    assert forall|j: int| d < j <= n.len() - 1 implies n[j] != '.' by {
        assert(n[j] == ext[j - d - 1]);
    }
    lemma_rfind_dot(n, d, n.len() - 1);
    assert(rfind_spec(n, seq!['.']) == Some(d));
    assert(n.skip(d + 1) =~= ext);
    assert(n.take(d) =~= stem);
}

/// Only such names are test files: a test file ends in `.test.<ext>` or `.spec.<ext>` with
/// `ext` one of `ts`, `tsx`, `js`, `jsx`, `mts` and `cts`.
pub proof fn law_test_files_only(n: Seq<char>)
    requires
        is_test_file_spec(n),
    ensures
        exists|e: Seq<char>|
            (e == "ts"@ || e == "tsx"@ || e == "js"@ || e == "jsx"@ || e == "mts"@ || e == "cts"@) && (
            ends_with(n, ".test."@ + e) || ends_with(n, ".spec."@ + e)),
{
    let d = rfind_spec(n, seq!['.'])->0;
    assert(seq!['.'].len() == 1);
    assert(rfind_spec(n, seq!['.']) == crate::text::rfind_from(n, seq!['.'], n.len() - 1));
    crate::text::lemma_rfind_from_pub(n, seq!['.'], n.len() - 1);
    assert(crate::text::occurs_at(n, seq!['.'], d));
    assert(n.subrange(d, d + 1)[0] == n[d]);
    assert(n[d] == '.');
    let e = n.skip(d + 1);
    let stem = n.take(d);
    assert(n =~= stem + seq!['.'] + e);
    reveal_strlit(".test.");
    reveal_strlit(".spec.");
    reveal_strlit(".test");
    reveal_strlit(".spec");
    assert(".test."@ =~= ".test"@ + seq!['.']);
    assert(".spec."@ =~= ".spec"@ + seq!['.']);
    if ends_with(stem, ".test"@) {
        let suf = ".test."@ + e;
        assert(n.skip(n.len() - suf.len()) =~= suf) by {
            assert(stem.skip(stem.len() - 5) =~= ".test"@);
        }
        assert(ends_with(n, ".test."@ + e));
    } else {
        let suf = ".spec."@ + e;
        assert(n.skip(n.len() - suf.len()) =~= suf) by {
            assert(stem.skip(stem.len() - 5) =~= ".spec"@);
        }
        assert(ends_with(n, ".spec."@ + e));
    }
}

/// The first index at or after `i` that is not ASCII whitespace (or the end).
pub open spec fn skip_ws_spec(s: Seq<char>, i: int) -> int
    decreases s.len() - i,
{
    if 0 <= i < s.len() && is_ascii_ws(s[i]) {
        skip_ws_spec(s, i + 1)
    } else {
        i
    }
}

pub fn skip_ws(s: &[char], i: usize) -> (r: usize)
    ensures
        r == skip_ws_spec(s@, i as int),
        i <= r,
        i <= s.len() ==> r <= s.len(),
{
    let mut j = i;
    while j < s.len() && is_ascii_ws_exec(s[j])
        invariant
            i <= j,
            skip_ws_spec(s@, i as int) == skip_ws_spec(s@, j as int),
            i <= s.len() ==> j <= s.len(),
        decreases s.len() - j,
    {
        j += 1;
    }
    j
}

/// A quote character of a config string: `'`, `"` or a backtick.
pub open spec fn is_quote(c: char) -> bool {
    c == '\'' || c == '"' || c == '`'
}

/// The first quote character at or after `k`.
pub open spec fn next_quote(s: Seq<char>, k: int) -> Option<int>
    decreases s.len() - k,
{
    if k < 0 || k >= s.len() {
        None
    } else if is_quote(s[k]) {
        Some(k)
    } else {
        next_quote(s, k + 1)
    }
}

proof fn lemma_next_quote(s: Seq<char>, k: int)
    ensures
        next_quote(s, k) matches Some(x) ==> k <= x < s.len() && is_quote(s[x]),
    decreases s.len() - k,
{
    if 0 <= k < s.len() && !is_quote(s[k]) {
        lemma_next_quote(s, k + 1);
    }
}

fn next_quote_exec(s: &[char], k: usize) -> (r: Option<usize>)
    ensures
        r == (match next_quote(s@, k as int) {
            Some(x) => Some(x as usize),
            None => None::<usize>,
        }),
        r matches Some(x) ==> k <= x < s.len() && next_quote(s@, k as int) == Some(x as int),
{
    proof {
        lemma_next_quote(s@, k as int);
    }
    let mut j = k;
    while j < s.len()
        invariant
            k <= j,
            next_quote(s@, k as int) == next_quote(s@, j as int),
        decreases s.len() - j,
    {
        if s[j] == '\'' || s[j] == '"' || s[j] == '`' {
            return Some(j);
        }
        j += 1;
    }
    None
}

/// Every quoted string in `s` from index `i` on, in order (a quote opens, the next quote
/// of any kind closes; empty strings are dropped; an unclosed quote ends the scan).
pub open spec fn quoted_from(s: Seq<char>, i: int) -> Seq<Seq<char>>
    decreases s.len() - i,
{
    if i < 0 || i >= s.len() {
        Seq::empty()
    } else if is_quote(s[i]) {
        match next_quote(s, i + 1) {
            Some(e) => if e <= i || e >= s.len() {
                Seq::empty()
            } else {
                let rest = quoted_from(s, e + 1);
                if e > i + 1 {
                    seq![s.subrange(i + 1, e)] + rest
                } else {
                    rest
                }
            },
            None => Seq::empty(),
        }
    } else {
        quoted_from(s, i + 1)
    }
}

/// The quoted strings of `s`.
pub fn extract_quoted(s: &[char]) -> (r: Vec<String>)
    ensures
        strs(r@) == quoted_from(s@, 0),
{
    let mut out: Vec<String> = Vec::new();
    let mut i: usize = 0;
    while i < s.len()
        invariant
            i <= s.len(),
            quoted_from(s@, 0) == strs(out@) + quoted_from(s@, i as int),
        decreases s.len() - i,
    {
        let c = s[i];
        if c == '\'' || c == '"' || c == '`' {
            match next_quote_exec(s, i + 1) {
                Some(e) => {
                    let ghost before = out@;
                    assert(next_quote(s@, i + 1) == Some(e as int));
                    assert(quoted_from(s@, i as int) == (if e > i + 1 {
                        seq![s@.subrange(i + 1, e as int)] + quoted_from(s@, e + 1)
                    } else {
                        quoted_from(s@, e + 1)
                    }));
                    if e > i + 1 {
                        let v = slice_range(s, i + 1, e);
                        out.push(string_of(v.as_slice()));
                        assert(strs(out@) =~= strs(before).push(v@));
                        assert(strs(out@) + quoted_from(s@, e + 1) =~= strs(before) + (seq![v@]
                            + quoted_from(s@, e + 1)));
                    }
                    i = e + 1;
                },
                None => {
                    assert(quoted_from(s@, i as int) == Seq::<Seq<char>>::empty());
                    assert(strs(out@) + Seq::<Seq<char>>::empty() =~= strs(out@));
                    return out;
                },
            }
        } else {
            i += 1;
        }
    }
    assert(strs(out@) + Seq::<Seq<char>>::empty() =~= strs(out@));
    out
}

/// The end of the run of decimal digits starting at `k`.
pub open spec fn digit_end(t: Seq<char>, k: int) -> int
    decreases t.len() - k,
{
    if 0 <= k < t.len() && is_ascii_digit(t[k]) {
        digit_end(t, k + 1)
    } else {
        k
    }
}

/// The end of a number `\d+(\.\d+)?` starting at `k` (`k` itself when no digit is there).
pub open spec fn number_end(t: Seq<char>, k: int) -> int {
    let d = digit_end(t, k);
    if d == k {
        k
    } else if 0 <= d < t.len() && t[d] == '.' && digit_end(t, d + 1) > d + 1 {
        digit_end(t, d + 1)
    } else {
        d
    }
}

fn digit_end_exec(t: &[char], k: usize) -> (r: usize)
    requires
        k <= t.len(),
    ensures
        r == digit_end(t@, k as int),
        k <= r <= t.len(),
{
    let mut j = k;
    while j < t.len() && '0' <= t[j] && t[j] <= '9'
        invariant
            k <= j <= t.len(),
            digit_end(t@, k as int) == digit_end(t@, j as int),
        decreases t.len() - j,
    {
        j += 1;
    }
    j
}

fn number_end_exec(t: &[char], k: usize) -> (r: usize)
    requires
        k <= t.len(),
    ensures
        r == number_end(t@, k as int),
        k <= r <= t.len(),
{
    let d = digit_end_exec(t, k);
    if d == k {
        k
    } else if d < t.len() && t[d] == '.' {
        let e = digit_end_exec(t, d + 1);
        if e > d + 1 { e } else { d }
    } else {
        d
    }
}

} // verus!

verus! {

/// After a key ending at `after`: optional whitespace, `:`, optional whitespace; the index
/// reached (the value's first character), if the colon is there.
pub open spec fn after_colon(t: Seq<char>, after: int) -> Option<int> {
    let i = skip_ws_spec(t, after);
    if 0 <= i < t.len() && t[i] == ':' {
        Some(skip_ws_spec(t, i + 1))
    } else {
        None
    }
}

fn after_colon_exec(t: &[char], after: usize) -> (r: Option<usize>)
    requires
        after <= t.len(),
    ensures
        r matches Some(j) ==> j <= t.len() && after_colon(t@, after as int) == Some(j as int),
        r is None ==> after_colon(t@, after as int) is None,
{
    let i = skip_ws(t, after);
    if i < t.len() && t[i] == ':' {
        Some(skip_ws(t, i + 1))
    } else {
        None
    }
}

/// The quoted strings of the first `key: [ ... ]` at or after `from` (no nested brackets;
/// `key` is matched as a substring and a later occurrence is tried when one does not line
/// up).
pub open spec fn scan_array_from(t: Seq<char>, key: Seq<char>, from: int) -> Option<Seq<Seq<char>>>
    decreases t.len() + 1 - from,
{
    match find_from(t, key, from) {
        None => None,
        Some(at) => {
            let after = at + key.len();
            let found = match after_colon(t, after) {
                Some(j) => if 0 <= j < t.len() && t[j] == '[' {
                    match find_from(t, seq![']'], j + 1) {
                        Some(c) => Some(quoted_from(t.subrange(j + 1, c), 0)),
                        None => None,
                    }
                } else {
                    None
                },
                None => None,
            };
            if found is Some {
                found
            } else if after <= from || after > t.len() {
                None
            } else {
                scan_array_from(t, key, after)
            }
        },
    }
}

pub open spec fn opt_strs(o: Option<Vec<String>>) -> Option<Seq<Seq<char>>> {
    match o {
        Some(v) => Some(strs(v@)),
        None => None,
    }
}

/// The array literal of `key` (see `scan_array_from`).
pub fn scan_string_array(t: &[char], key: &[char]) -> (r: Option<Vec<String>>)
    ensures
        opt_strs(r) == scan_array_from(t@, key@, 0),
{
    let close: Vec<char> = vec![']'];
    assert(close@ =~= seq![']']);
    let mut from: usize = 0;
    loop
        invariant
            from <= t.len(),
            close@ == seq![']'],
            scan_array_from(t@, key@, 0) == scan_array_from(t@, key@, from as int),
        decreases t.len() + 1 - from,
    {
        proof {
            lemma_find_from(t@, key@, from as int);
        }
        match find_at(t, key, from) {
            None => {
                return None;
            },
            Some(at) => {
                let after = at + key.len();
                match after_colon_exec(t, after) {
                    Some(j) => {
                        if j < t.len() && t[j] == '[' {
                            proof {
                                lemma_find_from(t@, seq![']'], j + 1);
                            }
                            match find_at(t, close.as_slice(), j + 1) {
                                Some(c) => {
                                    let inner = slice_range(t, j + 1, c);
                                    let r = extract_quoted(inner.as_slice());
                                    assert(find_from(t@, key@, from as int) == Some(at as int));
                                    assert(after_colon(t@, after as int) == Some(j as int));
                                    assert(find_from(t@, seq![']'], j + 1) == Some(c as int));
                                    assert(scan_array_from(t@, key@, from as int) == Some(
                                        quoted_from(t@.subrange(j + 1, c as int), 0),
                                    ));
                                    return Some(r);
                                },
                                None => {},
                            }
                        }
                    },
                    None => {},
                }
                if after <= from || after > t.len() {
                    return None;
                }
                from = after;
            },
        }
    }
}

/// A value of the first `environment: '<letters>'` (letters and `-`), lowercased.
pub open spec fn env_from(t: Seq<char>, from: int) -> Option<Seq<char>>
    decreases t.len() + 1 - from,
{
    match find_from(t, "environment"@, from) {
        None => None,
        Some(at) => {
            let after = at + "environment"@.len();
            let found = match after_colon(t, after) {
                Some(j) => if 0 <= j < t.len() && is_quote(t[j]) {
                    let v = t.subrange(j + 1, run_end(t, j + 1));
                    if v.len() > 0 {
                        Some(v.map_values(|c: char| lower_char(c)))
                    } else {
                        None
                    }
                } else {
                    None
                },
                None => None,
            };
            if found is Some {
                found
            } else if after <= from || after > t.len() {
                None
            } else {
                env_from(t, after)
            }
        },
    }
}

/// Characters of an environment name: letters and `-`.
pub open spec fn in_run(c: char) -> bool {
    is_ascii_alpha(c) || c == '-'
}

/// The end of the run of such characters starting at `k`.
pub open spec fn run_end(t: Seq<char>, k: int) -> int
    decreases t.len() - k,
{
    if 0 <= k < t.len() && in_run(t[k]) {
        run_end(t, k + 1)
    } else {
        k
    }
}

fn in_run_exec(c: char) -> (b: bool)
    ensures
        b == in_run(c),
{
    ('a' <= c && c <= 'z') || ('A' <= c && c <= 'Z') || c == '-'
}

fn run_end_exec(t: &[char], k: usize) -> (r: usize)
    requires
        k <= t.len(),
    ensures
        r == run_end(t@, k as int),
        k <= r <= t.len(),
{
    let mut j = k;
    while j < t.len() && in_run_exec(t[j])
        invariant
            k <= j <= t.len(),
            run_end(t@, k as int) == run_end(t@, j as int),
        decreases t.len() - j,
    {
        j += 1;
    }
    j
}

} // verus!

verus! {

/// `test.environment` of a config text (see `env_from`).
pub fn config_environment(t: &[char]) -> (r: Option<String>)
    ensures
        crate::coverage::opt_string(r) == env_from(t@, 0),
{
    let key = chars_of("environment");
    let mut from: usize = 0;
    loop
        invariant
            from <= t.len(),
            key@ == "environment"@,
            env_from(t@, 0) == env_from(t@, from as int),
        decreases t.len() + 1 - from,
    {
        proof {
            lemma_find_from(t@, key@, from as int);
        }
        match find_at(t, key.as_slice(), from) {
            None => {
                return None;
            },
            Some(at) => {
                let after = at + key.len();
                match after_colon_exec(t, after) {
                    Some(j) => {
                        if j < t.len() && (t[j] == '\'' || t[j] == '"' || t[j] == '`') {
                            let e = run_end_exec(t, j + 1);
                            if e > j + 1 {
                                let v = crate::text::lower_chars(slice_range(t, j + 1, e).as_slice());
                                assert(find_from(t@, key@, from as int) == Some(at as int));
                                return Some(string_of(v.as_slice()));
                            }
                        }
                    },
                    None => {},
                }
                if after <= from || after > t.len() {
                    return None;
                }
                from = after;
            },
        }
    }
}

/// Where the first `coverage: {` block starts (the index of `coverage`), at or after `from`.
pub open spec fn coverage_block_from(t: Seq<char>, from: int) -> Option<int>
    decreases t.len() + 1 - from,
{
    match find_from(t, "coverage"@, from) {
        None => None,
        Some(at) => {
            let after = at + "coverage"@.len();
            let found = match after_colon(t, after) {
                Some(j) => 0 <= j < t.len() && t[j] == '{',
                None => false,
            };
            if found {
                Some(at)
            } else if after <= from || after > t.len() {
                None
            } else {
                coverage_block_from(t, after)
            }
        },
    }
}

pub fn find_coverage_block(t: &[char]) -> (r: Option<usize>)
    ensures
        r matches Some(i) ==> i <= t.len() && coverage_block_from(t@, 0) == Some(i as int),
        r is None ==> coverage_block_from(t@, 0) is None,
{
    let key = chars_of("coverage");
    let mut from: usize = 0;
    loop
        invariant
            from <= t.len(),
            key@ == "coverage"@,
            coverage_block_from(t@, 0) == coverage_block_from(t@, from as int),
        decreases t.len() + 1 - from,
    {
        proof {
            lemma_find_from(t@, key@, from as int);
        }
        match find_at(t, key.as_slice(), from) {
            None => {
                return None;
            },
            Some(at) => {
                let after = at + key.len();
                match after_colon_exec(t, after) {
                    Some(j) => {
                        if j < t.len() && t[j] == '{' {
                            assert(find_from(t@, key@, from as int) == Some(at as int));
                            return Some(at);
                        }
                    },
                    None => {},
                }
                if after <= from || after > t.len() {
                    return None;
                }
                from = after;
            },
        }
    }
}

/// The text between the braces of the first `key: { ... }` at or after `from` (no
/// nesting).
pub open spec fn braced_from(t: Seq<char>, key: Seq<char>, from: int) -> Option<Seq<char>>
    decreases t.len() + 1 - from,
{
    match find_from(t, key, from) {
        None => None,
        Some(at) => {
            let after = at + key.len();
            let found = match after_colon(t, after) {
                Some(j) => if 0 <= j < t.len() && t[j] == '{' {
                    match find_from(t, seq!['}'], j + 1) {
                        Some(c) => Some(t.subrange(j + 1, c)),
                        None => None,
                    }
                } else {
                    None
                },
                None => None,
            };
            if found is Some {
                found
            } else if after <= from || after > t.len() {
                None
            } else {
                braced_from(t, key, after)
            }
        },
    }
}

pub fn scan_braced(t: &[char], key: &[char]) -> (r: Option<Vec<char>>)
    ensures
        r matches Some(v) ==> braced_from(t@, key@, 0) == Some(v@),
        r is None ==> braced_from(t@, key@, 0) is None,
{
    let close: Vec<char> = vec!['}'];
    assert(close@ =~= seq!['}']);
    let mut from: usize = 0;
    loop
        invariant
            from <= t.len(),
            close@ == seq!['}'],
            braced_from(t@, key@, 0) == braced_from(t@, key@, from as int),
        decreases t.len() + 1 - from,
    {
        proof {
            lemma_find_from(t@, key@, from as int);
        }
        match find_at(t, key, from) {
            None => {
                return None;
            },
            Some(at) => {
                let after = at + key.len();
                match after_colon_exec(t, after) {
                    Some(j) => {
                        if j < t.len() && t[j] == '{' {
                            proof {
                                lemma_find_from(t@, seq!['}'], j + 1);
                            }
                            match find_at(t, close.as_slice(), j + 1) {
                                Some(c) => {
                                    assert(find_from(t@, key@, from as int) == Some(at as int));
                                    assert(find_from(t@, seq!['}'], j + 1) == Some(c as int));
                                    return Some(slice_range(t, j + 1, c));
                                },
                                None => {},
                            }
                        }
                    },
                    None => {},
                }
                if after <= from || after > t.len() {
                    return None;
                }
                from = after;
            },
        }
    }
}

/// The number (`\d+(\.\d+)?`) of the first `key: <number>` at or after `from` whose `key`
/// is not the tail of a longer word (the character before it is not `.`, `_` or ASCII
/// alphanumeric).
pub open spec fn number_from(t: Seq<char>, key: Seq<char>, from: int) -> Option<Seq<char>>
    decreases t.len() + 1 - from,
{
    match find_from(t, key, from) {
        None => None,
        Some(at) => {
            let after = at + key.len();
            let ok_prev = at == 0 || !(t[at - 1] == '.' || t[at - 1] == '_' || is_ascii_alpha(
                t[at - 1],
            ) || is_ascii_digit(t[at - 1]));
            let found = if ok_prev {
                match after_colon(t, after) {
                    Some(j) => if number_end(t, j) > j {
                        Some(t.subrange(j, number_end(t, j)))
                    } else {
                        None
                    },
                    None => None,
                }
            } else {
                None
            };
            if found is Some {
                found
            } else if after <= from || after > t.len() {
                None
            } else {
                number_from(t, key, after)
            }
        },
    }
}

pub fn scan_number(t: &[char], key: &[char]) -> (r: Option<Vec<char>>)
    ensures
        r matches Some(v) ==> number_from(t@, key@, 0) == Some(v@),
        r is None ==> number_from(t@, key@, 0) is None,
{
    let mut from: usize = 0;
    loop
        invariant
            from <= t.len(),
            number_from(t@, key@, 0) == number_from(t@, key@, from as int),
        decreases t.len() + 1 - from,
    {
        proof {
            lemma_find_from(t@, key@, from as int);
        }
        match find_at(t, key, from) {
            None => {
                return None;
            },
            Some(at) => {
                let after = at + key.len();
                let ok_prev = at == 0 || !(t[at - 1] == '.' || t[at - 1] == '_'
                    || crate::text::is_ascii_alnum_exec(t[at - 1]));
                if ok_prev {
                    match after_colon_exec(t, after) {
                        Some(j) => {
                            let e = number_end_exec(t, j);
                            if e > j {
                                assert(find_from(t@, key@, from as int) == Some(at as int));
                                return Some(slice_range(t, j, e));
                            }
                        },
                        None => {},
                    }
                }
                if after <= from || after > t.len() {
                    return None;
                }
                from = after;
            },
        }
    }
}

} // verus!

verus! {

/// The part of a config that holds the test-level settings: the text before its
/// `coverage: {` block.
pub open spec fn test_scan_text(t: Seq<char>) -> Seq<char> {
    match coverage_block_from(t, 0) {
        Some(ci) => t.take(ci),
        None => t,
    }
}

pub open spec fn or_empty(o: Option<Seq<Seq<char>>>) -> Seq<Seq<char>> {
    match o {
        Some(v) => v,
        None => Seq::empty(),
    }
}

fn unwrap_or_empty(o: Option<Vec<String>>) -> (r: Vec<String>)
    ensures
        strs(r@) == or_empty(opt_strs(o)),
{
    match o {
        Some(v) => v,
        None => {
            let r: Vec<String> = Vec::new();
            assert(strs(r@) =~= Seq::<Seq<char>>::empty());
            r
        },
    }
}

/// Test-level include and exclude globs of a config: `None` without a test `include`
/// (default discovery then applies).
pub fn vitest_patterns(text: &str) -> (r: Option<(Vec<String>, Vec<String>)>)
    ensures
        match scan_array_from(test_scan_text(text@), "include"@, 0) {
            None => r is None,
            Some(inc) => r matches Some(p) && strs(p.0@) == inc && strs(p.1@) == or_empty(
                scan_array_from(test_scan_text(text@), "exclude"@, 0),
            ),
        },
{
    let t = chars_of(text);
    let scan = match find_coverage_block(t.as_slice()) {
        Some(ci) => crate::text::slice_take(t.as_slice(), ci),
        None => t.clone(),
    };
    assert(scan@ == test_scan_text(text@));
    let inc = scan_string_array(scan.as_slice(), chars_of("include").as_slice());
    match inc {
        None => None,
        Some(inc) => {
            let exc = unwrap_or_empty(scan_string_array(scan.as_slice(), chars_of("exclude").as_slice()));
            Some((inc, exc))
        },
    }
}

/// What a config's `coverage` block says: include and exclude globs and the thresholds as
/// a `key=value` list.
pub struct CoverageCfg {
    pub include_globs: Vec<String>,
    pub exclude_globs: Vec<String>,
    pub thresholds: Option<String>,
}

/// `parts` joined with `sep` between them.
pub open spec fn join(parts: Seq<Seq<char>>, sep: Seq<char>) -> Seq<char>
    decreases parts.len(),
{
    if parts.len() == 0 {
        Seq::empty()
    } else if parts.len() == 1 {
        parts[0]
    } else {
        join(parts.drop_last(), sep) + sep + parts.last()
    }
}

/// `key=value` for each threshold key found, in the order lines, functions, branches,
/// statements.
pub open spec fn threshold_parts(thr: Seq<char>) -> Seq<Seq<char>> {
    let one = |k: Seq<char>|
        match number_from(thr, k, 0) {
            Some(v) => seq![k + "="@ + v],
            None => Seq::<Seq<char>>::empty(),
        };
    one("lines"@) + one("functions"@) + one("branches"@) + one("statements"@)
}

/// The coverage settings of a config text: nothing without a `coverage: {` block;
/// otherwise the globs of that block, and its thresholds (read inside a nested
/// `thresholds: { ... }` when there is one, else in the whole block).
pub open spec fn coverage_cfg_spec(t: Seq<char>) -> (Seq<Seq<char>>, Seq<Seq<char>>, Option<Seq<char>>) {
    match coverage_block_from(t, 0) {
        None => (Seq::empty(), Seq::empty(), None),
        Some(ci) => {
            let slice = t.skip(ci);
            let thr = match braced_from(slice, "thresholds"@, 0) {
                Some(b) => b,
                None => slice,
            };
            let parts = threshold_parts(thr);
            (
                or_empty(scan_array_from(slice, "include"@, 0)),
                or_empty(scan_array_from(slice, "exclude"@, 0)),
                if parts.len() == 0 {
                    None
                } else {
                    Some(join(parts, ","@))
                },
            )
        },
    }
}

fn push_part(parts: &mut Vec<Vec<char>>, thr: &[char], key: &str)
    ensures
        final(parts)@.map_values(|v: Vec<char>| v@) == old(parts)@.map_values(|v: Vec<char>| v@)
            + match number_from(thr@, key@, 0) {
            Some(v) => seq![key@ + "="@ + v],
            None => Seq::<Seq<char>>::empty(),
        },
{
    let k = chars_of(key);
    match scan_number(thr, k.as_slice()) {
        Some(v) => {
            let mut p = k.clone();
            p.push('=');
            crate::text::extend_chars(&mut p, v.as_slice());
            let ghost before = parts@;
            proof {
                reveal_strlit("=");
            }
            assert(p@ =~= key@ + "="@ + v@);
            parts.push(p);
            assert(parts@.map_values(|v: Vec<char>| v@) =~= before.map_values(|v: Vec<char>| v@)
                + seq![key@ + "="@ + v@]);
        },
        None => {
            assert(parts@.map_values(|v: Vec<char>| v@) =~= parts@.map_values(|v: Vec<char>| v@)
                + Seq::<Seq<char>>::empty());
        },
    }
}

fn join_exec(parts: &Vec<Vec<char>>, sep: char) -> (r: Vec<char>)
    ensures
        r@ == join(parts@.map_values(|v: Vec<char>| v@), seq![sep]),
{
    let ghost ps = parts@.map_values(|v: Vec<char>| v@);
    let mut r: Vec<char> = Vec::new();
    let mut i: usize = 0;
    while i < parts.len()
        invariant
            i <= parts@.len(),
            ps == parts@.map_values(|v: Vec<char>| v@),
            r@ == join(ps.take(i as int), seq![sep]),
        decreases parts@.len() - i,
    {
        assert(ps.take(i + 1).drop_last() =~= ps.take(i as int));
        if i > 0 {
            r.push(sep);
        } else {
            assert(ps.take(1) =~= seq![ps[0]]);
        }
        crate::text::extend_chars(&mut r, parts[i].as_slice());
        proof {
            if i > 0 {
                assert(join(ps.take(i + 1), seq![sep]) =~= join(ps.take(i as int), seq![sep]) + seq![sep]
                    + ps[i as int]);
            } else {
                assert(join(ps.take(1), seq![sep]) == ps[0]);
                assert(r@ =~= Seq::<char>::empty() + ps[0]);
            }
        }
        i += 1;
    }
    assert(ps.take(parts@.len() as int) =~= ps);
    r
}

/// The coverage settings of a config text (see `coverage_cfg_spec`).
pub fn vitest_coverage(text: &str) -> (c: CoverageCfg)
    ensures
        ({
            let s = coverage_cfg_spec(text@);
            &&& strs(c.include_globs@) == s.0
            &&& strs(c.exclude_globs@) == s.1
            &&& crate::coverage::opt_string(c.thresholds) == s.2
        }),
{
    let t = chars_of(text);
    match find_coverage_block(t.as_slice()) {
        None => {
            let a: Vec<String> = Vec::new();
            let b: Vec<String> = Vec::new();
            assert(strs(a@) =~= Seq::<Seq<char>>::empty());
            assert(strs(b@) =~= Seq::<Seq<char>>::empty());
            CoverageCfg { include_globs: a, exclude_globs: b, thresholds: None }
        },
        Some(ci) => {
            let slice = slice_skip(t.as_slice(), ci);
            let inc = unwrap_or_empty(scan_string_array(slice, chars_of("include").as_slice()));
            let exc = unwrap_or_empty(scan_string_array(slice, chars_of("exclude").as_slice()));
            let thr: Vec<char> = match scan_braced(slice, chars_of("thresholds").as_slice()) {
                Some(b) => b,
                None => crate::text::slice_take(slice, slice.len()),
            };
            assert(slice@.take(slice@.len() as int) =~= slice@);
            let mut parts: Vec<Vec<char>> = Vec::new();
            assert(parts@.map_values(|v: Vec<char>| v@) =~= Seq::<Seq<char>>::empty());
            push_part(&mut parts, thr.as_slice(), "lines");
            push_part(&mut parts, thr.as_slice(), "functions");
            push_part(&mut parts, thr.as_slice(), "branches");
            push_part(&mut parts, thr.as_slice(), "statements");
            let ghost ps = parts@.map_values(|v: Vec<char>| v@);
            assert(ps =~= threshold_parts(thr@));
            let thresholds = if parts.len() == 0 {
                None
            } else {
                let j = join_exec(&parts, ',');
                proof {
                    reveal_strlit(",");
                }
                assert(seq![','] =~= ","@);
                Some(string_of(j.as_slice()))
            };
            CoverageCfg { include_globs: inc, exclude_globs: exc, thresholds }
        },
    }
}

} // verus!

verus! {

/// Runner flags whose value is the following argument.
pub open spec fn value_flag(a: Seq<char>) -> bool {
    a == "-j"@ || a == "--jobs"@ || a == "--shard"@ || a == "--reporter"@ || a == "--reporters"@
        || a == "--outputFile"@ || a == "--output-file"@ || a == "-t"@ || a == "--testNamePattern"@
        || a == "--testTimeout"@ || a == "--retry"@ || a == "--bail"@ || a == "--maxWorkers"@ || a
        == "--minWorkers"@ || a == "--coverage-dir"@ || a == "--coverage-thresholds"@ || a
        == "--coverage-threshold"@ || a == "--coverage-reporter"@ || a == "--coverage-reporters"@
        || a == "--coverage-include"@ || a == "--coverage-exclude"@
}

fn is(a: &[char], lit: &str) -> (b: bool)
    ensures
        b == (a@ == lit@),
{
    chars_eq(a, chars_of(lit).as_slice())
}

/// Whether `a` is a runner flag that takes the following argument as its value.
pub fn flag_takes_value(a: &str) -> (b: bool)
    ensures
        b == value_flag(a@),
{
    let c = chars_of(a);
    let a = c.as_slice();
    is(a, "-j") || is(a, "--jobs") || is(a, "--shard") || is(a, "--reporter") || is(
        a,
        "--reporters",
    ) || is(a, "--outputFile") || is(a, "--output-file") || is(a, "-t") || is(
        a,
        "--testNamePattern",
    ) || is(a, "--testTimeout") || is(a, "--retry") || is(a, "--bail") || is(a, "--maxWorkers")
        || is(a, "--minWorkers") || is(a, "--coverage-dir") || is(a, "--coverage-thresholds") || is(
        a,
        "--coverage-threshold",
    ) || is(a, "--coverage-reporter") || is(a, "--coverage-reporters") || is(
        a,
        "--coverage-include",
    ) || is(a, "--coverage-exclude")
}

/// The launcher's options read from the arguments.
pub struct LaunchOpts {
    pub config: Option<String>,
    pub root: Option<String>,
    pub environment: Option<String>,
    /// `Some("true")` for a bare `--changed`, `Some(ref)` for `--changed ref`.
    pub changed: Option<String>,
    pub isolate: Option<bool>,
    pub pass_with_no_tests: bool,
}

/// The arguments split: launcher options, runner flags (forwarded as they are, a value
/// flag with its value) and file arguments.
pub struct ParsedArgs {
    pub opts: LaunchOpts,
    pub forward: Vec<String>,
    pub files: Vec<String>,
}

/// The model of `ParsedArgs`.
pub struct ArgsModel {
    pub config: Option<Seq<char>>,
    pub root: Option<Seq<char>>,
    pub environment: Option<Seq<char>>,
    pub changed: Option<Seq<char>>,
    pub isolate: Option<bool>,
    pub pass: bool,
    pub forward: Seq<Seq<char>>,
    pub files: Seq<Seq<char>>,
}

/// A `--key=value` argument's key and inline value; any other argument is its own key.
pub open spec fn key_of(a: Seq<char>) -> (Seq<char>, Option<Seq<char>>) {
    if starts_with(a, "--"@) {
        match find_from(a, seq!['='], 0) {
            Some(eq) => (a.take(eq), Some(a.skip(eq + 1))),
            None => (a, None),
        }
    } else {
        (a, None)
    }
}

/// A launcher option's value: the inline one, else the next argument unless it is a flag;
/// with the index of the last argument used.
pub open spec fn take_val(args: Seq<Seq<char>>, i: int, inline: Option<Seq<char>>) -> (
    Option<Seq<char>>,
    int,
) {
    match inline {
        Some(v) => (Some(v), i),
        None => if i + 1 < args.len() && !starts_with(args[i + 1], "-"@) {
            (Some(args[i + 1]), i + 1)
        } else {
            (None, i)
        },
    }
}

/// One argument read: the model after it and the index of the next argument.
pub open spec fn arg_step(args: Seq<Seq<char>>, i: int, m: ArgsModel) -> (ArgsModel, int) {
    let a = args[i];
    let ki = key_of(a);
    let key = ki.0;
    let tv = take_val(args, i, ki.1);
    if key == "--passWithNoTests"@ {
        (ArgsModel { pass: true, ..m }, i + 1)
    } else if key == "-c"@ || key == "--config"@ {
        (ArgsModel { config: tv.0, ..m }, tv.1 + 1)
    } else if key == "--root"@ || key == "--dir"@ {
        (ArgsModel { root: tv.0, ..m }, tv.1 + 1)
    } else if key == "--environment"@ {
        (ArgsModel { environment: tv.0, ..m }, tv.1 + 1)
    } else if key == "--changed"@ {
        (
            ArgsModel {
                changed: Some(
                    match tv.0 {
                        Some(v) => v,
                        None => "true"@,
                    },
                ),
                ..m
            },
            tv.1 + 1,
        )
    } else if key == "--isolate"@ {
        (ArgsModel { isolate: Some(true), ..m }, i + 1)
    } else if key == "--no-isolate"@ {
        (ArgsModel { isolate: Some(false), ..m }, i + 1)
    } else if key == "--globals"@ || key == "--no-globals"@ {
        (m, i + 1)
    } else if starts_with(a, "-"@) {
        if value_flag(a) && i + 1 < args.len() && !starts_with(args[i + 1], "-"@) {
            (ArgsModel { forward: m.forward.push(a).push(args[i + 1]), ..m }, i + 2)
        } else {
            (ArgsModel { forward: m.forward.push(a), ..m }, i + 1)
        }
    } else if a.len() > 0 {
        (ArgsModel { files: m.files.push(a), ..m }, i + 1)
    } else {
        (m, i + 1)
    }
}

/// The arguments from index `i` on, read into `m`.
pub open spec fn parse_from(args: Seq<Seq<char>>, i: int, m: ArgsModel) -> ArgsModel
    decreases args.len() - i,
{
    if i < 0 || i >= args.len() {
        m
    } else {
        let st = arg_step(args, i, m);
        if st.1 <= i {
            m
        } else {
            parse_from(args, st.1, st.0)
        }
    }
}

/// All arguments read; a leading `run`, `watch` or `dev` subcommand is dropped.
pub open spec fn parse_args_spec(args: Seq<Seq<char>>) -> ArgsModel {
    let start = if args.len() > 0 && (args[0] == "run"@ || args[0] == "watch"@ || args[0] == "dev"@) {
        1int
    } else {
        0int
    };
    parse_from(
        args,
        start,
        ArgsModel {
            config: None,
            root: None,
            environment: None,
            changed: None,
            isolate: None,
            pass: false,
            forward: Seq::empty(),
            files: Seq::empty(),
        },
    )
}

pub open spec fn opt_view(o: Option<String>) -> Option<Seq<char>> {
    crate::coverage::opt_string(o)
}

/// `p` is what the model says.
pub open spec fn parsed_as(p: &ParsedArgs, m: ArgsModel) -> bool {
    &&& opt_view(p.opts.config) == m.config
    &&& opt_view(p.opts.root) == m.root
    &&& opt_view(p.opts.environment) == m.environment
    &&& opt_view(p.opts.changed) == m.changed
    &&& p.opts.isolate == m.isolate
    &&& p.opts.pass_with_no_tests == m.pass
    &&& strs(p.forward@) == m.forward
    &&& strs(p.files@) == m.files
}

fn key_of_exec(a: &[char]) -> (r: (Vec<char>, Option<Vec<char>>))
    ensures
        r.0@ == key_of(a@).0,
        match r.1 {
            Some(v) => key_of(a@).1 == Some(v@),
            None => key_of(a@).1 is None,
        },
{
    if starts_with_exec(a, chars_of("--").as_slice()) {
        let eq: Vec<char> = vec!['='];
        assert(eq@ =~= seq!['=']);
        proof {
            lemma_find_from(a@, seq!['='], 0);
        }
        match find_at(a, eq.as_slice(), 0) {
            Some(e) => (crate::text::slice_take(a, e), Some(crate::text::slice_take(
                slice_skip(a, e + 1),
                a.len() - e - 1,
            ))),
            None => (crate::text::slice_take(a, a.len()), None),
        }
    } else {
        (crate::text::slice_take(a, a.len()), None)
    }
}

} // verus!

verus! {

fn is_flag(s: &String) -> (b: bool)
    ensures
        b == starts_with(s@, "-"@),
{
    let c = chars_of(s.as_str());
    starts_with_exec(c.as_slice(), chars_of("-").as_slice())
}

fn take_val_exec(args: &[String], i: usize, inline: Option<Vec<char>>) -> (r: (Option<String>, usize))
    requires
        i < args.len(),
    ensures
        ({
            let iv = match inline {
                Some(v) => Some(v@),
                None => None::<Seq<char>>,
            };
            &&& opt_view(r.0) == take_val(strs(args@), i as int, iv).0
            &&& r.1 == take_val(strs(args@), i as int, iv).1
            &&& i <= r.1 < args.len()
        }),
{
    match inline {
        Some(v) => (Some(string_of(v.as_slice())), i),
        None => {
            if i + 1 < args.len() && !is_flag(&args[i + 1]) {
                (Some(args[i + 1].clone()), i + 1)
            } else {
                (None, i)
            }
        },
    }
}

/// Split the arguments (without the program name) into launcher options, forwarded runner
/// flags and file arguments.
pub fn parse_args(args: &[String]) -> (p: ParsedArgs)
    ensures
        parsed_as(&p, parse_args_spec(strs(args@))),
{
    let ghost av = strs(args@);
    let mut p = ParsedArgs {
        opts: LaunchOpts {
            config: None,
            root: None,
            environment: None,
            changed: None,
            isolate: None,
            pass_with_no_tests: false,
        },
        forward: Vec::new(),
        files: Vec::new(),
    };
    let mut i: usize = 0;
    if args.len() > 0 {
        let c0 = chars_of(args[0].as_str());
        if is(c0.as_slice(), "run") || is(c0.as_slice(), "watch") || is(c0.as_slice(), "dev") {
            i = 1;
        }
    }
    let ghost m0 = ArgsModel {
        config: None,
        root: None,
        environment: None,
        changed: None,
        isolate: None,
        pass: false,
        forward: Seq::empty(),
        files: Seq::empty(),
    };
    assert(strs(p.forward@) =~= Seq::<Seq<char>>::empty());
    assert(strs(p.files@) =~= Seq::<Seq<char>>::empty());
    let ghost mut m = m0;
    while i < args.len()
        invariant
            i <= args.len(),
            av == strs(args@),
            parse_args_spec(av) == parse_from(av, i as int, m),
            parsed_as(&p, m),
        decreases args.len() - i,
    {
        let a = chars_of(args[i].as_str());
        assert(a@ == av[i as int]);
        let (key, inline) = key_of_exec(a.as_slice());
        let ghost iv = match &inline {
            Some(v) => Some(v@),
            None => None::<Seq<char>>,
        };
        let ghost st = arg_step(av, i as int, m);
        let k = key.as_slice();
        if is(k, "--passWithNoTests") {
            p.opts.pass_with_no_tests = true;
            proof {
                m = st.0;
            }
            i += 1;
        } else if is(k, "-c") || is(k, "--config") {
            let (v, j) = take_val_exec(args, i, inline);
            p.opts.config = v;
            proof {
                m = st.0;
            }
            i = j + 1;
        } else if is(k, "--root") || is(k, "--dir") {
            let (v, j) = take_val_exec(args, i, inline);
            p.opts.root = v;
            proof {
                m = st.0;
            }
            i = j + 1;
        } else if is(k, "--environment") {
            let (v, j) = take_val_exec(args, i, inline);
            p.opts.environment = v;
            proof {
                m = st.0;
            }
            i = j + 1;
        } else if is(k, "--changed") {
            let (v, j) = take_val_exec(args, i, inline);
            p.opts.changed = match v {
                Some(s) => Some(s),
                None => Some("true".to_owned()),
            };
            proof {
                m = st.0;
            }
            i = j + 1;
        } else if is(k, "--isolate") {
            p.opts.isolate = Some(true);
            proof {
                m = st.0;
            }
            i += 1;
        } else if is(k, "--no-isolate") {
            p.opts.isolate = Some(false);
            proof {
                m = st.0;
            }
            i += 1;
        } else if is(k, "--globals") || is(k, "--no-globals") {
            i += 1;
        } else if starts_with_exec(a.as_slice(), chars_of("-").as_slice()) {
            let ghost before = p.forward@;
            p.forward.push(args[i].clone());
            if flag_takes_value(args[i].as_str()) && i + 1 < args.len() && !is_flag(&args[i + 1]) {
                p.forward.push(args[i + 1].clone());
                assert(strs(p.forward@) =~= strs(before).push(av[i as int]).push(av[i + 1]));
                proof {
                    m = st.0;
                }
                i += 2;
            } else {
                assert(strs(p.forward@) =~= strs(before).push(av[i as int]));
                proof {
                    m = st.0;
                }
                i += 1;
            }
        } else if a.len() > 0 {
            let ghost before = p.files@;
            p.files.push(args[i].clone());
            assert(strs(p.files@) =~= strs(before).push(av[i as int]));
            proof {
                m = st.0;
            }
            i += 1;
        } else {
            i += 1;
        }
    }
    p
}

} // verus!

verus! {

/// The flag list carries `needle`, bare or as `needle=value`.
pub open spec fn has_flag_spec(forward: Seq<Seq<char>>, needle: Seq<char>) -> bool {
    exists|i: int|
        0 <= i < forward.len() && (#[trigger] forward[i] == needle || starts_with(
            forward[i],
            needle + "="@,
        ))
}

pub fn has_flag(forward: &[String], needle: &str) -> (b: bool)
    ensures
        b == has_flag_spec(strs(forward@), needle@),
{
    let n = chars_of(needle);
    let mut ne = n.clone();
    ne.push('=');
    proof {
        reveal_strlit("=");
    }
    assert(ne@ =~= needle@ + "="@);
    let mut i: usize = 0;
    while i < forward.len()
        invariant
            i <= forward@.len(),
            n@ == needle@,
            ne@ == needle@ + "="@,
            forall|j: int|
                0 <= j < i ==> !(#[trigger] strs(forward@)[j] == needle@ || starts_with(
                    strs(forward@)[j],
                    needle@ + "="@,
                )),
        decreases forward@.len() - i,
    {
        let f = chars_of(forward[i].as_str());
        assert(f@ == strs(forward@)[i as int]);
        if chars_eq(f.as_slice(), n.as_slice()) || starts_with_exec(f.as_slice(), ne.as_slice()) {
            return true;
        }
        i += 1;
    }
    false
}

/// Some forwarded flag turns coverage on (starts with `--coverage`).
pub open spec fn coverage_on_spec(forward: Seq<Seq<char>>) -> bool {
    exists|i: int| 0 <= i < forward.len() && starts_with(#[trigger] forward[i], "--coverage"@)
}

pub fn coverage_on(forward: &[String]) -> (b: bool)
    ensures
        b == coverage_on_spec(strs(forward@)),
{
    let pre = chars_of("--coverage");
    let mut i: usize = 0;
    while i < forward.len()
        invariant
            i <= forward@.len(),
            pre@ == "--coverage"@,
            forall|j: int| 0 <= j < i ==> !starts_with(#[trigger] strs(forward@)[j], "--coverage"@),
        decreases forward@.len() - i,
    {
        let f = chars_of(forward[i].as_str());
        assert(f@ == strs(forward@)[i as int]);
        if starts_with_exec(f.as_slice(), pre.as_slice()) {
            return true;
        }
        i += 1;
    }
    false
}

/// The flags after a config's coverage settings are added, each only where the user did not
/// pass that flag: thresholds, then the include globs, then the exclude globs (a glob list
/// comma-joined).
pub open spec fn inject_coverage_spec(
    f: Seq<Seq<char>>,
    inc: Seq<Seq<char>>,
    exc: Seq<Seq<char>>,
    thr: Option<Seq<char>>,
) -> Seq<Seq<char>> {
    let f1 = match thr {
        Some(t) => if !has_flag_spec(f, "--coverage-thresholds"@) && !has_flag_spec(
            f,
            "--coverage-threshold"@,
        ) {
            f.push("--coverage-thresholds"@).push(t)
        } else {
            f
        },
        None => f,
    };
    let f2 = if inc.len() > 0 && !has_flag_spec(f1, "--coverage-include"@) {
        f1.push("--coverage-include"@).push(join(inc, ","@))
    } else {
        f1
    };
    if exc.len() > 0 && !has_flag_spec(f2, "--coverage-exclude"@) {
        f2.push("--coverage-exclude"@).push(join(exc, ","@))
    } else {
        f2
    }
}

fn join_strings(v: &Vec<String>) -> (r: String)
    ensures
        r@ == join(strs(v@), ","@),
{
    let mut parts: Vec<Vec<char>> = Vec::new();
    let mut i: usize = 0;
    while i < v.len()
        invariant
            i <= v@.len(),
            parts@.map_values(|x: Vec<char>| x@) == strs(v@).take(i as int),
        decreases v@.len() - i,
    {
        let ghost before = parts@;
        parts.push(chars_of(v[i].as_str()));
        assert(parts@.map_values(|x: Vec<char>| x@) =~= before.map_values(|x: Vec<char>| x@).push(
            v@[i as int]@,
        ));
        assert(strs(v@).take(i + 1) =~= strs(v@).take(i as int).push(v@[i as int]@));
        i += 1;
    }
    assert(strs(v@).take(v@.len() as int) =~= strs(v@));
    let j = join_exec(&parts, ',');
    proof {
        reveal_strlit(",");
    }
    assert(seq![','] =~= ","@);
    string_of(j.as_slice())
}

fn push2(f: &mut Vec<String>, a: &str, b: String)
    ensures
        strs(final(f)@) == strs(old(f)@).push(a@).push(b@),
{
    f.push(a.to_owned());
    f.push(b);
    assert(strs(f@) =~= strs(old(f)@).push(a@).push(b@));
}

/// Add a config's coverage settings to the runner flags (see `inject_coverage_spec`).
pub fn inject_coverage_flags(forward: &mut Vec<String>, cfg: &CoverageCfg)
    ensures
        strs(final(forward)@) == inject_coverage_spec(
            strs(old(forward)@),
            strs(cfg.include_globs@),
            strs(cfg.exclude_globs@),
            crate::coverage::opt_string(cfg.thresholds),
        ),
{
    match &cfg.thresholds {
        Some(t) => {
            if !has_flag(forward.as_slice(), "--coverage-thresholds") && !has_flag(
                forward.as_slice(),
                "--coverage-threshold",
            ) {
                push2(forward, "--coverage-thresholds", t.clone());
            }
        },
        None => {},
    }
    if cfg.include_globs.len() > 0 && !has_flag(forward.as_slice(), "--coverage-include") {
        push2(forward, "--coverage-include", join_strings(&cfg.include_globs));
    }
    if cfg.exclude_globs.len() > 0 && !has_flag(forward.as_slice(), "--coverage-exclude") {
        push2(forward, "--coverage-exclude", join_strings(&cfg.exclude_globs));
    }
}

/// The flags after a config's `testTimeout` is added, unless the user passed one.
pub open spec fn inject_timeout_spec(f: Seq<Seq<char>>, config: Seq<char>) -> Seq<Seq<char>> {
    if has_flag_spec(f, "--testTimeout"@) {
        f
    } else {
        match number_from(config, "testTimeout"@, 0) {
            Some(v) => f.push("--testTimeout"@).push(v),
            None => f,
        }
    }
}

pub fn inject_test_timeout(forward: &mut Vec<String>, config_text: &str)
    ensures
        strs(final(forward)@) == inject_timeout_spec(strs(old(forward)@), config_text@),
{
    if has_flag(forward.as_slice(), "--testTimeout") {
        return;
    }
    let t = chars_of(config_text);
    match scan_number(t.as_slice(), chars_of("testTimeout").as_slice()) {
        Some(v) => push2(forward, "--testTimeout", string_of(v.as_slice())),
        None => {},
    }
}

/// A discovered file is kept when its root-relative path matches some include glob and no
/// exclude glob.
pub open spec fn keep_discovered_spec(rel: Seq<char>, inc: Seq<Seq<char>>, exc: Seq<Seq<char>>) -> bool {
    (exists|i: int| 0 <= i < inc.len() && crate::glob::glob_match_spec(#[trigger] inc[i], rel))
        && !(exists|i: int| 0 <= i < exc.len() && crate::glob::glob_match_spec(#[trigger] exc[i], rel))
}

fn any_glob_matches(globs: &Vec<String>, rel: &str) -> (b: bool)
    ensures
        b == exists|i: int|
            0 <= i < globs@.len() && crate::glob::glob_match_spec(#[trigger] strs(globs@)[i], rel@),
{
    let mut i: usize = 0;
    while i < globs.len()
        invariant
            i <= globs@.len(),
            forall|j: int| 0 <= j < i ==> !crate::glob::glob_match_spec(#[trigger] strs(globs@)[j], rel@),
        decreases globs@.len() - i,
    {
        if crate::glob::glob_matches(globs[i].as_str(), rel) {
            assert(crate::glob::glob_match_spec(strs(globs@)[i as int], rel@));
            return true;
        }
        i += 1;
    }
    false
}

pub fn keep_discovered(rel: &str, include_globs: &Vec<String>, exclude_globs: &Vec<String>) -> (b: bool)
    ensures
        b == keep_discovered_spec(rel@, strs(include_globs@), strs(exclude_globs@)),
{
    any_glob_matches(include_globs, rel) && !any_glob_matches(exclude_globs, rel)
}

} // verus!

verus! {

/// The discovered files (absolute path, root-relative path) the config's test globs keep,
/// in order.
pub open spec fn discovered_spec(files: Seq<(String, String)>, inc: Seq<Seq<char>>, exc: Seq<Seq<char>>) -> Seq<Seq<char>>
    decreases files.len(),
{
    if files.len() == 0 {
        Seq::empty()
    } else {
        let prev = discovered_spec(files.drop_last(), inc, exc);
        if keep_discovered_spec(files.last().1@, inc, exc) {
            prev.push(files.last().0@)
        } else {
            prev
        }
    }
}

pub fn select_discovered(files: &[(String, String)], include_globs: &Vec<String>, exclude_globs: &Vec<String>) -> (r: Vec<String>)
    ensures
        strs(r@) == discovered_spec(files@, strs(include_globs@), strs(exclude_globs@)),
{
    let mut r: Vec<String> = Vec::new();
    let mut i: usize = 0;
    assert(files@.take(0) =~= Seq::<(String, String)>::empty());
    while i < files.len()
        invariant
            i <= files@.len(),
            strs(r@) == discovered_spec(files@.take(i as int), strs(include_globs@), strs(exclude_globs@)),
        decreases files@.len() - i,
    {
        assert(files@.take(i + 1).drop_last() =~= files@.take(i as int));
        if keep_discovered(files[i].1.as_str(), include_globs, exclude_globs) {
            let ghost b = strs(r@);
            r.push(files[i].0.clone());
            assert(strs(r@) =~= b.push(files@[i as int].0@));
        }
        i += 1;
    }
    assert(files@.take(files@.len() as int) =~= files@);
    r
}

/// `--changed`: the test files (given with their absolute paths) that git reports changed.
pub open spec fn changed_spec(files: Seq<(String, String)>, changed: Seq<Seq<char>>) -> Seq<Seq<char>>
    decreases files.len(),
{
    if files.len() == 0 {
        Seq::empty()
    } else {
        let prev = changed_spec(files.drop_last(), changed);
        if changed.contains(files.last().1@) {
            prev.push(files.last().0@)
        } else {
            prev
        }
    }
}

pub fn keep_changed(files: &[(String, String)], changed: &[String]) -> (r: Vec<String>)
    ensures
        strs(r@) == changed_spec(files@, strs(changed@)),
{
    let mut r: Vec<String> = Vec::new();
    let mut i: usize = 0;
    assert(files@.take(0) =~= Seq::<(String, String)>::empty());
    while i < files.len()
        invariant
            i <= files@.len(),
            strs(r@) == changed_spec(files@.take(i as int), strs(changed@)),
        decreases files@.len() - i,
    {
        assert(files@.take(i + 1).drop_last() =~= files@.take(i as int));
        let mut found = false;
        let mut k: usize = 0;
        while k < changed.len()
            invariant
                k <= changed@.len(),
                i < files@.len(),
                found == (exists|j: int| 0 <= j < k && strs(changed@)[j] == files@[i as int].1@),
            decreases changed@.len() - k,
        {
            if changed[k] == files[i].1 {
                assert(strs(changed@)[k as int] == files@[i as int].1@);
                found = true;
            }
            k += 1;
        }
        if found {
            let ghost b = strs(r@);
            r.push(files[i].0.clone());
            assert(strs(r@) =~= b.push(files@[i as int].0@));
        }
        i += 1;
    }
    assert(files@.take(files@.len() as int) =~= files@);
    r
}

/// The environment switch an `--isolate`/`--no-isolate` option sets: `--no-isolate` turns
/// isolate reuse on (`TURBO_REUSE_ISOLATE`), `--isolate` forces it off (`TURBO_NO_REUSE`).
pub fn isolate_env(isolate: Option<bool>) -> (r: Option<String>)
    ensures
        match isolate {
            Some(false) => r matches Some(s) && s@ == "TURBO_REUSE_ISOLATE"@,
            Some(true) => r matches Some(s) && s@ == "TURBO_NO_REUSE"@,
            None => r is None,
        },
{
    match isolate {
        Some(false) => Some(string_of(chars_of("TURBO_REUSE_ISOLATE").as_slice())),
        Some(true) => Some(string_of(chars_of("TURBO_NO_REUSE").as_slice())),
        None => None,
    }
}

} // verus!


verus! {

/// Directories test discovery never enters.
pub open spec fn skipped_dirs() -> Seq<Seq<char>> {
    seq!["node_modules"@, ".git"@, "dist"@, "build"@, "coverage"@, ".next"@, ".turbo"@, "target"@]
}

/// Discovery passes over hidden entries and the skipped directories.
pub open spec fn walk_skips_spec(name: Seq<char>, is_dir: bool) -> bool {
    (name.len() > 0 && name[0] == '.') || (is_dir && skipped_dirs().contains(name))
}

pub fn walk_skips(name: &str, is_dir: bool) -> (b: bool)
    ensures
        b == walk_skips_spec(name@, is_dir),
{
    let n = chars_of(name);
    if n.len() > 0 && n[0] == '.' {
        return true;
    }
    if !is_dir {
        return false;
    }
    let dirs = ["node_modules", ".git", "dist", "build", "coverage", ".next", ".turbo", "target"];
    let ghost want = skipped_dirs();
    assert(dirs@.map_values(|x: &str| x@) =~= want);
    let mut i: usize = 0;
    while i < dirs.len()
        invariant
            i <= dirs@.len(),
            want == skipped_dirs(),
            dirs@.map_values(|x: &str| x@) == want,
            n@ == name@,
            is_dir,
            forall|j: int| 0 <= j < i ==> want[j] != name@,
        decreases dirs.len() - i,
    {
        if chars_eq(n.as_slice(), chars_of(dirs[i]).as_slice()) {
            assert(want[i as int] == name@);
            assert(want.contains(name@));
            return true;
        }
        i += 1;
    }
    assert(!want.contains(name@)) by {
        if want.contains(name@) {
            let j = choose|j: int| 0 <= j < want.len() && want[j] == name@;
            assert(want[j] != name@);
        }
    }
    false
}

/// vitest/vite config file names, in the order they are looked for in a directory.
pub open spec fn config_names_spec() -> Seq<Seq<char>> {
    seq![
        "vitest.config.ts"@,
        "vitest.config.mts"@,
        "vitest.config.js"@,
        "vitest.config.mjs"@,
        "vite.config.ts"@,
        "vite.config.mts"@,
        "vite.config.js"@,
        "vite.config.mjs"@,
    ]
}

pub fn config_names() -> (r: Vec<String>)
    ensures
        strs(r@) == config_names_spec(),
{
    let l = [
        "vitest.config.ts",
        "vitest.config.mts",
        "vitest.config.js",
        "vitest.config.mjs",
        "vite.config.ts",
        "vite.config.mts",
        "vite.config.js",
        "vite.config.mjs",
    ];
    assert(l@.map_values(|x: &str| x@) =~= config_names_spec());
    crate::text::owned_strings(&l)
}

} // verus!
