//! `vi.mock` support on transformed CommonJS modules: text scans that find mock calls and
//! their factories, and the rewrite that moves a module's `require`s below its mock setup
//! so a mock is registered before the mocked module loads.

use vstd::prelude::*;

use crate::text::{
    chars_of, find_at, find_from, is_ident, is_ident_exec, lemma_find_from, occurs_at,
    occurs_at_exec, slice_range, slice_skip, split_char, split_spec,
};

verus! {

/// `w` occurs at `at` as a whole word: no identifier character (`[A-Za-z0-9_$]`) just
/// before or just after it.
pub open spec fn word_at(t: Seq<char>, w: Seq<char>, at: int) -> bool {
    &&& occurs_at(t, w, at)
    &&& (at == 0 || !is_ident(t[at - 1]))
    &&& (at + w.len() >= t.len() || !is_ident(t[at + w.len()]))
}

/// `w` occurs in `t` as a whole word.
pub open spec fn contains_word_spec(t: Seq<char>, w: Seq<char>) -> bool {
    exists|at: int| word_at(t, w, at)
}

pub fn contains_word(t: &[char], w: &[char]) -> (b: bool)
    ensures
        b == contains_word_spec(t@, w@),
{
    if w.len() > t.len() {
        return false;
    }
    let last = t.len() - w.len();
    let mut i: usize = 0;
    loop
        invariant
            w.len() <= t.len(),
            last == t.len() - w.len(),
            i <= last,
            forall|j: int| 0 <= j < i ==> !word_at(t@, w@, j),
        decreases last - i,
    {
        if occurs_at_exec(t, w, i) && (i == 0 || !is_ident_exec(t[i - 1])) && (i + w.len()
            >= t.len() || !is_ident_exec(t[i + w.len()])) {
            assert(word_at(t@, w@, i as int));
            return true;
        }
        if i == last {
            assert forall|j: int| !word_at(t@, w@, j) by {
                if j > i {
                    assert(!occurs_at(t@, w@, j));
                }
            }
            return false;
        }
        i += 1;
    }
}

/// The first index at or after `k` holding `q`, or the end.
pub open spec fn index_of_from(s: Seq<char>, k: int, q: char) -> int
    decreases s.len() - k,
{
    if k < 0 || k >= s.len() {
        if k < 0 { 0 } else { k }
    } else if s[k] == q {
        k
    } else {
        index_of_from(s, k + 1, q)
    }
}

proof fn lemma_index_of_from(s: Seq<char>, k: int, q: char)
    requires
        0 <= k,
    ensures
        k <= index_of_from(s, k, q),
        k <= s.len() ==> index_of_from(s, k, q) <= s.len(),
        index_of_from(s, k, q) < s.len() ==> s[index_of_from(s, k, q)] == q,
        forall|j: int| k <= j < index_of_from(s, k, q) && j < s.len() ==> s[j] != q,
    decreases s.len() - k,
{
    if k < s.len() && s[k] != q {
        lemma_index_of_from(s, k + 1, q);
    }
}

fn index_of_from_exec(s: &[char], k: usize, q: char) -> (r: usize)
    requires
        k <= s.len(),
    ensures
        r == index_of_from(s@, k as int, q),
        k <= r <= s.len(),
{
    proof {
        lemma_index_of_from(s@, k as int, q);
    }
    let mut j = k;
    while j < s.len() && s[j] != q
        invariant
            k <= j <= s.len(),
            index_of_from(s@, k as int, q) == index_of_from(s@, j as int, q),
        decreases s.len() - j,
    {
        j += 1;
    }
    j
}

/// The first index at or after `k` holding `"` or `'`.
pub open spec fn first_dq_sq(s: Seq<char>, k: int) -> Option<int>
    decreases s.len() - k,
{
    if k < 0 || k >= s.len() {
        None
    } else if s[k] == '"' || s[k] == '\'' {
        Some(k)
    } else {
        first_dq_sq(s, k + 1)
    }
}

/// The first string literal of `s` (`"..."` or `'...'`, running to the end when unclosed).
pub open spec fn first_string_literal(s: Seq<char>) -> Option<Seq<char>> {
    match first_dq_sq(s, 0) {
        None => None,
        Some(i) => Some(s.subrange(i + 1, index_of_from(s, i + 1, s[i]))),
    }
}

proof fn lemma_first_dq_sq(s: Seq<char>, k: int)
    requires
        0 <= k,
    ensures
        first_dq_sq(s, k) matches Some(i) ==> k <= i < s.len() && (s[i] == '"' || s[i] == '\''),
    decreases s.len() - k,
{
    if k < s.len() && !(s[k] == '"' || s[k] == '\'') {
        lemma_first_dq_sq(s, k + 1);
    }
}

pub fn extract_first_string_literal(s: &[char]) -> (r: Option<Vec<char>>)
    ensures
        match r {
            Some(v) => first_string_literal(s@) == Some(v@),
            None => first_string_literal(s@) is None,
        },
{
    proof {
        lemma_first_dq_sq(s@, 0);
    }
    let mut i: usize = 0;
    while i < s.len()
        invariant
            i <= s.len(),
            first_dq_sq(s@, 0) == first_dq_sq(s@, i as int),
        decreases s.len() - i,
    {
        if s[i] == '"' || s[i] == '\'' {
            let j = index_of_from_exec(s, i + 1, s[i]);
            return Some(slice_range(s, i + 1, j));
        }
        i += 1;
    }
    None
}

/// The specifier of `require("SPEC")` in a line.
pub open spec fn require_spec_of(line: Seq<char>) -> Option<Seq<char>> {
    match find_from(line, "require("@, 0) {
        None => None,
        Some(p) => first_string_literal(line.skip(p + 8)),
    }
}

pub fn extract_require_spec(line: &[char]) -> (r: Option<Vec<char>>)
    ensures
        match r {
            Some(v) => require_spec_of(line@) == Some(v@),
            None => require_spec_of(line@) is None,
        },
{
    let needle = chars_of("require(");
    proof {
        lemma_find_from(line@, needle@, 0);
        reveal_strlit("require(");
    }
    match find_at(line, needle.as_slice(), 0) {
        None => None,
        Some(p) => extract_first_string_literal(slice_skip(line, p + 8)),
    }
}

/// A line without the carriage return of a `\r\n` ending.
pub open spec fn strip_cr(l: Seq<char>) -> Seq<char> {
    if l.len() > 0 && l.last() == '\r' {
        l.drop_last()
    } else {
        l
    }
}

/// The lines of `s` (as `str::lines`): split at `\n`, a `\r` before the `\n` dropped, and
/// no empty last line after a final `\n`.
pub open spec fn lines_spec(s: Seq<char>) -> Seq<Seq<char>> {
    let ps = split_spec(s, '\n');
    if ps.len() > 0 && ps.last().len() == 0 {
        ps.drop_last().map_values(|l: Seq<char>| strip_cr(l))
    } else if ps.len() > 0 {
        ps.drop_last().map_values(|l: Seq<char>| strip_cr(l)).push(ps.last())
    } else {
        Seq::empty()
    }
}

pub fn lines(s: &[char]) -> (r: Vec<Vec<char>>)
    ensures
        r@.map_values(|v: Vec<char>| v@) == lines_spec(s@),
{
    let ps = split_char(s, '\n');
    let ghost pv = split_spec(s@, '\n');
    let n = ps.len();
    let keep_last = n > 0 && ps[n - 1].len() > 0;
    let mut out: Vec<Vec<char>> = Vec::new();
    let mut i: usize = 0;
    let stop: usize = if n > 0 {
        n - 1
    } else {
        0
    };
    while i < stop
        invariant
            i <= stop,
            n == ps@.len() == pv.len(),
            stop == (if n > 0 { n - 1 } else { 0 }),
            forall|k: int| 0 <= k < ps@.len() ==> #[trigger] ps@[k]@ == pv[k],
            out@.map_values(|v: Vec<char>| v@) == pv.take(i as int).map_values(|l: Seq<char>| strip_cr(l)),
        decreases stop - i,
    {
        let l = &ps[i];
        let piece = if l.len() > 0 && l[l.len() - 1] == '\r' {
            slice_range(l.as_slice(), 0, l.len() - 1)
        } else {
            slice_range(l.as_slice(), 0, l.len())
        };
        assert(piece@ == strip_cr(pv[i as int]));
        let ghost before = out@;
        out.push(piece);
        assert(out@.map_values(|v: Vec<char>| v@) =~= before.map_values(|v: Vec<char>| v@).push(
            piece@,
        ));
        assert(pv.take(i + 1).map_values(|l: Seq<char>| strip_cr(l)) =~= pv.take(i as int).map_values(
            |l: Seq<char>| strip_cr(l),
        ).push(strip_cr(pv[i as int])));
        i += 1;
    }
    if n > 0 {
        assert(pv.take(stop as int) =~= pv.drop_last());
        if keep_last {
            let l = &ps[n - 1];
            let ghost before = out@;
            let piece = slice_range(l.as_slice(), 0, l.len());
            assert(piece@ =~= l@);
            assert(l@ == pv[n - 1]);
            out.push(piece);
            assert(out@.map_values(|v: Vec<char>| v@) =~= before.map_values(|v: Vec<char>| v@).push(
                pv.last(),
            ));
        }
    }
    out
}

/// Lines joined with `\n` between them.
pub open spec fn join_lines(ls: Seq<Seq<char>>) -> Seq<char>
    decreases ls.len(),
{
    if ls.len() == 0 {
        Seq::empty()
    } else if ls.len() == 1 {
        ls[0]
    } else {
        join_lines(ls.drop_last()) + seq!['\n'] + ls.last()
    }
}

pub fn join_line_vecs(ls: &Vec<Vec<char>>) -> (r: Vec<char>)
    ensures
        r@ == join_lines(ls@.map_values(|v: Vec<char>| v@)),
{
    let ghost lv = ls@.map_values(|v: Vec<char>| v@);
    let mut r: Vec<char> = Vec::new();
    let mut i: usize = 0;
    while i < ls.len()
        invariant
            i <= ls@.len(),
            lv == ls@.map_values(|v: Vec<char>| v@),
            r@ == join_lines(lv.take(i as int)),
        decreases ls@.len() - i,
    {
        assert(lv.take(i + 1).drop_last() =~= lv.take(i as int));
        if i > 0 {
            r.push('\n');
        }
        crate::text::extend_chars(&mut r, ls[i].as_slice());
        proof {
            if i == 0 {
                assert(lv.take(1) =~= seq![lv[0]]);
                assert(r@ =~= lv[0]);
            } else {
                assert(r@ =~= join_lines(lv.take(i as int)) + seq!['\n'] + lv[i as int]);
            }
        }
        i += 1;
    }
    assert(lv.take(ls@.len() as int) =~= lv);
    r
}

} // verus!

verus! {

/// The test and hook callees whose callbacks are stripped, in the order they are tried.
pub open spec fn test_kws() -> Seq<Seq<char>> {
    seq![
        "beforeEach"@,
        "beforeAll"@,
        "afterEach"@,
        "afterAll"@,
        "describe"@,
        "test"@,
        "it"@,
        "fit"@,
        "xit"@,
        "fdescribe"@,
        "xdescribe"@,
    ]
}

/// The end of the first keyword (from index `k` of `kws` on) that starts at `i` and is not
/// followed by an identifier character.
pub open spec fn kw_match_from(b: Seq<char>, i: int, kws: Seq<Seq<char>>, k: int) -> Option<int>
    decreases kws.len() - k,
{
    if k < 0 || k >= kws.len() {
        None
    } else {
        let after = i + kws[k].len();
        if occurs_at(b, kws[k], i) && (after >= b.len() || !is_ident(b[after])) {
            Some(after)
        } else {
            kw_match_from(b, i, kws, k + 1)
        }
    }
}

/// Past whitespace, `.`, `)` and identifier characters (chained `.only`, `.each(...)`, the
/// `(0, import_x.it)` callee form).
pub open spec fn skip_callee(b: Seq<char>, j: int) -> int
    decreases b.len() - j,
{
    if 0 <= j < b.len() && (crate::text::is_ascii_ws(b[j]) || b[j] == '.' || b[j] == ')' || is_ident(
        b[j],
    )) {
        skip_callee(b, j + 1)
    } else {
        j
    }
}

/// The closing quote `q` of a string starting at `k` (a backslash skips the next
/// character), or past the end.
pub open spec fn str_end(b: Seq<char>, k: int, q: char) -> int
    decreases b.len() + 2 - k,
{
    if k < 0 || k >= b.len() {
        k
    } else if b[k] == '\\' {
        str_end(b, k + 2, q)
    } else if b[k] == q {
        k
    } else {
        str_end(b, k + 1, q)
    }
}

/// The end of a `//` comment starting at `k`: its newline or the end.
pub open spec fn line_end(b: Seq<char>, k: int) -> int
    decreases b.len() - k,
{
    if k < 0 || k >= b.len() || b[k] == '\n' {
        k
    } else {
        line_end(b, k + 1)
    }
}

/// The `*` of a block comment's `*/` from `k` on (or the last index).
pub open spec fn block_close(b: Seq<char>, k: int) -> int
    decreases b.len() - k,
{
    if k < 0 || k + 1 >= b.len() || (b[k] == '*' && b[k + 1] == '/') {
        k
    } else {
        block_close(b, k + 1)
    }
}

proof fn lemma_str_end(b: Seq<char>, k: int, q: char)
    requires
        0 <= k,
    ensures
        k <= str_end(b, k, q),
        k <= b.len() ==> str_end(b, k, q) <= b.len() + 1,
        str_end(b, k, q) < b.len() ==> b[str_end(b, k, q)] == q,
    decreases b.len() + 2 - k,
{
    if k < b.len() {
        if b[k] == '\\' {
            lemma_str_end(b, k + 2, q);
        } else if b[k] != q {
            lemma_str_end(b, k + 1, q);
        }
    }
}

proof fn lemma_line_end(b: Seq<char>, k: int)
    requires
        0 <= k,
    ensures
        k <= line_end(b, k),
        k <= b.len() ==> line_end(b, k) <= b.len(),
    decreases b.len() - k,
{
    if k < b.len() && b[k] != '\n' {
        lemma_line_end(b, k + 1);
    }
}

proof fn lemma_block_close(b: Seq<char>, k: int)
    requires
        0 <= k,
    ensures
        k <= block_close(b, k),
        k <= b.len() ==> block_close(b, k) <= b.len(),
    decreases b.len() - k,
{
    if k + 1 < b.len() && !(b[k] == '*' && b[k + 1] == '/') {
        lemma_block_close(b, k + 1);
    }
}

/// Where the call whose `(` is at or after `k` closes (one past its `)`), skipping strings
/// and comments; `d` is the current paren depth.
pub open spec fn bal(b: Seq<char>, k: int, d: int) -> int
    decreases b.len() + 3 - k,
{
    if k < 0 || k >= b.len() {
        k
    } else if b[k] == '(' {
        bal(b, k + 1, d + 1)
    } else if b[k] == ')' {
        if d - 1 == 0 {
            k + 1
        } else {
            bal(b, k + 1, d - 1)
        }
    } else if b[k] == '\'' || b[k] == '"' || b[k] == '`' {
        let e = str_end(b, k + 1, b[k]);
        if e < k || e > b.len() + 1 {
            k + 1
        } else {
            bal(b, e + 1, d)
        }
    } else if b[k] == '/' && k + 1 < b.len() && b[k + 1] == '/' {
        let e = line_end(b, k);
        if e < k || e > b.len() {
            k + 1
        } else {
            bal(b, e + 1, d)
        }
    } else if b[k] == '/' && k + 1 < b.len() && b[k + 1] == '*' {
        let e = block_close(b, k + 2);
        if e < k || e > b.len() {
            k + 1
        } else {
            bal(b, e + 2, d)
        }
    } else {
        bal(b, k + 1, d)
    }
}

/// `b` from index `i` on with the callbacks of test and hook calls removed: at an
/// identifier boundary, a test keyword followed (past its callee chain) by `(` keeps the
/// text up to that `(` and drops the whole call; everything else is copied.
pub open spec fn stb_from(b: Seq<char>, i: int) -> Seq<char>
    decreases b.len() + 3 - i,
{
    if i < 0 || i >= b.len() {
        Seq::empty()
    } else {
        let m = if i == 0 || !is_ident(b[i - 1]) {
            kw_match_from(b, i, test_kws(), 0)
        } else {
            None
        };
        match m {
            Some(j0) => {
                let j = skip_callee(b, j0);
                if i < j < b.len() && b[j] == '(' {
                    let k = bal(b, j, 0);
                    if k <= i || k > b.len() + 3 {
                        seq![b[i]] + stb_from(b, i + 1)
                    } else {
                        b.subrange(i, j) + stb_from(b, k)
                    }
                } else {
                    seq![b[i]] + stb_from(b, i + 1)
                }
            },
            None => seq![b[i]] + stb_from(b, i + 1),
        }
    }
}

/// Top-level code of `text`: test and hook callbacks removed (see `stb_from`).
pub open spec fn strip_test_blocks_spec(text: Seq<char>) -> Seq<char> {
    stb_from(text, 0)
}

} // verus!

verus! {

fn kw_match_exec(b: &[char], i: usize) -> (r: Option<usize>)
    requires
        i < b.len(),
    ensures
        match r {
            Some(a) => i < a <= b.len() && kw_match_from(b@, i as int, test_kws(), 0) == Some(a as int),
            None => kw_match_from(b@, i as int, test_kws(), 0) is None,
        },
{
    let kws = [
        "beforeEach",
        "beforeAll",
        "afterEach",
        "afterAll",
        "describe",
        "test",
        "it",
        "fit",
        "xit",
        "fdescribe",
        "xdescribe",
    ];
    proof {
        reveal_strlit("beforeEach");
        reveal_strlit("beforeAll");
        reveal_strlit("afterEach");
        reveal_strlit("afterAll");
        reveal_strlit("describe");
        reveal_strlit("test");
        reveal_strlit("it");
        reveal_strlit("fit");
        reveal_strlit("xit");
        reveal_strlit("fdescribe");
        reveal_strlit("xdescribe");
    }
    assert(kws@.map_values(|s: &str| s@) =~= test_kws());
    let mut k: usize = 0;
    while k < kws.len()
        invariant
            k <= kws@.len(),
            i < b.len(),
            kws@.map_values(|s: &str| s@) == test_kws(),
            forall|x: int| 0 <= x < test_kws().len() ==> #[trigger] test_kws()[x].len() > 0,
            kw_match_from(b@, i as int, test_kws(), 0) == kw_match_from(b@, i as int, test_kws(), k as int),
        decreases kws@.len() - k,
    {
        let kw = chars_of(kws[k]);
        assert(kw@ == test_kws()[k as int]);
        if occurs_at_exec(b, kw.as_slice(), i) {
            let after = i + kw.len();
            if after >= b.len() || !is_ident_exec(b[after]) {
                return Some(after);
            }
        }
        k += 1;
    }
    None
}

fn skip_callee_exec(b: &[char], j: usize) -> (r: usize)
    requires
        j <= b.len(),
    ensures
        r == skip_callee(b@, j as int),
        j <= r <= b.len(),
{
    let mut k = j;
    while k < b.len() && (crate::text::is_ascii_ws_exec(b[k]) || b[k] == '.' || b[k] == ')'
        || is_ident_exec(b[k]))
        invariant
            j <= k <= b.len(),
            skip_callee(b@, j as int) == skip_callee(b@, k as int),
        decreases b.len() - k,
    {
        k += 1;
    }
    k
}

fn str_end_exec(b: &[char], k: usize, q: char) -> (r: usize)
    requires
        k <= b.len(),
        b.len() <= usize::MAX / 2,
    ensures
        r == str_end(b@, k as int, q),
        k <= r <= b.len() + 1,
{
    proof {
        lemma_str_end(b@, k as int, q);
    }
    let mut x = k;
    while x < b.len()
        invariant
            k <= x <= b.len() + 1,
            b.len() <= usize::MAX / 2,
            str_end(b@, k as int, q) == str_end(b@, x as int, q),
        decreases b.len() + 2 - x,
    {
        if b[x] == '\\' {
            x += 2;
        } else if b[x] == q {
            return x;
        } else {
            x += 1;
        }
    }
    x
}

fn line_end_exec(b: &[char], k: usize) -> (r: usize)
    requires
        k <= b.len(),
    ensures
        r == line_end(b@, k as int),
        k <= r <= b.len(),
{
    let mut x = k;
    while x < b.len() && b[x] != '\n'
        invariant
            k <= x <= b.len(),
            line_end(b@, k as int) == line_end(b@, x as int),
        decreases b.len() - x,
    {
        x += 1;
    }
    x
}

fn block_close_exec(b: &[char], k: usize) -> (r: usize)
    requires
        k <= b.len(),
    ensures
        r == block_close(b@, k as int),
        k <= r <= b.len(),
{
    let mut x = k;
    while b.len() > 0 && x < b.len() - 1 && !(b[x] == '*' && b[x + 1] == '/')
        invariant
            k <= x <= b.len(),
            block_close(b@, k as int) == block_close(b@, x as int),
        decreases b.len() - x,
    {
        x += 1;
    }
    x
}

fn bal_exec(b: &[char], j: usize) -> (r: usize)
    requires
        j < b.len(),
        b[j as int] == '(',
        b.len() <= usize::MAX / 2,
    ensures
        r == bal(b@, j as int, 0),
        j < r <= b.len() + 2,
{
    let mut k: usize = j + 1;
    let mut d: usize = 1;
    while k < b.len()
        invariant
            j < k <= b.len() + 2,
            1 <= d <= k,
            b.len() <= usize::MAX / 2,
            bal(b@, j as int, 0) == bal(b@, k as int, d as int),
        decreases b.len() + 3 - k,
    {
        let c = b[k];
        if c == '(' {
            d += 1;
            k += 1;
        } else if c == ')' {
            if d == 1 {
                return k + 1;
            }
            d -= 1;
            k += 1;
        } else if c == '\'' || c == '"' || c == '`' {
            let e = str_end_exec(b, k + 1, c);
            k = e + 1;
        } else if c == '/' && k + 1 < b.len() && b[k + 1] == '/' {
            proof {
                lemma_line_end(b@, k as int);
            }
            let e = line_end_exec(b, k);
            k = e + 1;
        } else if c == '/' && k + 1 < b.len() && b[k + 1] == '*' {
            proof {
                lemma_block_close(b@, k + 2);
            }
            let e = block_close_exec(b, k + 2);
            k = e + 2;
        } else {
            k += 1;
        }
    }
    k
}

/// Remove the callbacks of test and hook calls (see `stb_from`).
pub fn strip_test_blocks(text: &[char]) -> (r: Vec<char>)
    requires
        text.len() <= usize::MAX / 2,
    ensures
        r@ == strip_test_blocks_spec(text@),
{
    let b = text;
    let mut out: Vec<char> = Vec::new();
    let mut i: usize = 0;
    while i < b.len()
        invariant
            i <= b.len() + 2,
            b.len() <= usize::MAX / 2,
            stb_from(b@, 0) == out@ + stb_from(b@, i as int),
        decreases b.len() + 3 - i,
    {
        let m = if i == 0 || !is_ident_exec(b[i - 1]) {
            kw_match_exec(b, i)
        } else {
            None
        };
        let mut done = false;
        match m {
            Some(j0) => {
                let j = skip_callee_exec(b, j0);
                if j < b.len() && b[j] == '(' {
                    let k = bal_exec(b, j);
                    let ghost before = out@;
                    crate::text::extend_chars(&mut out, slice_range(b, i, j).as_slice());
                    assert(before + stb_from(b@, i as int) =~= out@ + stb_from(b@, k as int));
                    i = k;
                    done = true;
                }
            },
            None => {},
        }
        if !done {
            let ghost before = out@;
            out.push(b[i]);
            assert(before + stb_from(b@, i as int) =~= out@ + stb_from(b@, i + 1));
            i += 1;
        }
    }
    assert(stb_from(b@, i as int) =~= Seq::<char>::empty());
    assert(out@ + Seq::<char>::empty() =~= out@);
    out
}

} // verus!

verus! {

/// A line with a `.mock(` call.
pub open spec fn has_mock(l: Seq<char>) -> bool {
    crate::text::contains_seq(l, ".mock("@)
}

/// A line of the leading `require` block of bundler output: `var import_... require(...`.
pub open spec fn is_req(l: Seq<char>) -> bool {
    crate::launcher::starts_with(l, "var import_"@) && crate::text::contains_seq(l, "require("@)
}

/// The first index at or after `k` of a line satisfying `is_req`.
pub open spec fn first_req(ls: Seq<Seq<char>>, k: int) -> Option<int>
    decreases ls.len() - k,
{
    if k < 0 || k >= ls.len() {
        None
    } else if is_req(ls[k]) {
        Some(k)
    } else {
        first_req(ls, k + 1)
    }
}

/// The end of the run of `is_req` lines starting at `s`.
pub open spec fn req_block_end(ls: Seq<Seq<char>>, s: int) -> int
    decreases ls.len() - s,
{
    if 0 <= s && s + 1 < ls.len() && is_req(ls[s + 1]) {
        req_block_end(ls, s + 1)
    } else {
        s
    }
}

/// The last line (before index `n`) with a `.mock(` call.
pub open spec fn last_mock_before(ls: Seq<Seq<char>>, n: int) -> Option<int>
    decreases n,
{
    if n <= 0 || n > ls.len() {
        None
    } else if has_mock(ls[n - 1]) {
        Some(n - 1)
    } else {
        last_mock_before(ls, n - 1)
    }
}

/// How many times `c` occurs in `l`.
pub open spec fn count_char(l: Seq<char>, c: char) -> int
    decreases l.len(),
{
    if l.len() == 0 {
        0
    } else {
        count_char(l.drop_last(), c) + if l.last() == c {
            1int
        } else {
            0int
        }
    }
}

/// A depth kept within `i64`.
pub open spec fn clamp64(x: int) -> int {
    if x > i64::MAX {
        i64::MAX as int
    } else if x < i64::MIN {
        i64::MIN as int
    } else {
        x
    }
}

/// Paren depth after a line.
pub open spec fn depth_after(d: int, l: Seq<char>) -> int {
    clamp64(d + count_char(l, '(') - count_char(l, ')'))
}

/// The first line at or after `i` by whose end a call opened in these lines has closed
/// (parens counted line by line from depth `d`; `started` once a `(` was seen).
pub open spec fn close_line_from(ls: Seq<Seq<char>>, i: int, d: int, started: bool) -> Option<int>
    decreases ls.len() - i,
{
    if i < 0 || i >= ls.len() {
        None
    } else {
        let d2 = depth_after(d, ls[i]);
        let s2 = started || count_char(ls[i], '(') > 0;
        if s2 && d2 <= 0 {
            Some(i)
        } else {
            close_line_from(ls, i + 1, d2, s2)
        }
    }
}

/// One past the last line of the statement starting at line `k` (or the end).
pub open spec fn stmt_end(ls: Seq<Seq<char>>, k: int) -> int {
    match close_line_from(ls, k, 0, false) {
        Some(e) => e + 1,
        None => ls.len() as int,
    }
}

/// The tail of the setup region split into the `.mock(...)` statements (whole, however
/// many lines they span) and the other lines, each kept in order.
pub open spec fn split_mocks(tail: Seq<Seq<char>>, k: int) -> (Seq<Seq<char>>, Seq<Seq<char>>)
    decreases tail.len() - k,
{
    if k < 0 || k >= tail.len() {
        (Seq::empty(), Seq::empty())
    } else if has_mock(tail[k]) {
        let e = stmt_end(tail, k);
        if e <= k || e > tail.len() {
            (Seq::empty(), Seq::empty())
        } else {
            let rest = split_mocks(tail, e);
            (tail.subrange(k, e) + rest.0, rest.1)
        }
    } else {
        let rest = split_mocks(tail, k + 1);
        (rest.0, seq![tail[k]] + rest.1)
    }
}

proof fn lemma_close_line_from(ls: Seq<Seq<char>>, i: int, d: int, started: bool)
    requires
        0 <= i,
    ensures
        close_line_from(ls, i, d, started) matches Some(e) ==> i <= e < ls.len(),
    decreases ls.len() - i,
{
    if i < ls.len() {
        let d2 = depth_after(d, ls[i]);
        let s2 = started || count_char(ls[i], '(') > 0;
        if !(s2 && d2 <= 0) {
            lemma_close_line_from(ls, i + 1, d2, s2);
        }
    }
}

} // verus!

verus! {

/// What `char::is_alphanumeric` says of `c` (Unicode Alphabetic or Numeric).
pub uninterp spec fn unicode_alphanumeric(c: char) -> bool;

/// `char::is_alphanumeric`; the contract names its result.
#[verifier::external_body]
pub(crate) fn is_alphanumeric(c: char) -> (b: bool)
    ensures
        b == unicode_alphanumeric(c),
{
    c.is_alphanumeric()
}

/// A character of a binding name: alphanumeric, `_` or `$`.
pub open spec fn name_char(c: char) -> bool {
    unicode_alphanumeric(c) || c == '_' || c == '$'
}

pub open spec fn name_end(r: Seq<char>, k: int) -> int
    decreases r.len() - k,
{
    if 0 <= k < r.len() && name_char(r[k]) {
        name_end(r, k + 1)
    } else {
        k
    }
}

/// The binding a `var import_X = require(...)` line declares.
pub open spec fn req_name(l: Seq<char>) -> Seq<char> {
    let r = if crate::launcher::starts_with(l, "var "@) {
        l.skip(4)
    } else {
        l
    };
    r.take(name_end(r, 0))
}

/// A require is needed before the mocks when its binding is used in the setup text.
pub open spec fn req_needed(l: Seq<char>, st: Seq<char>) -> bool {
    req_name(l).len() > 0 && contains_word_spec(st, req_name(l))
}

pub open spec fn needed_reqs(rs: Seq<Seq<char>>, st: Seq<char>) -> Seq<Seq<char>>
    decreases rs.len(),
{
    if rs.len() == 0 {
        Seq::empty()
    } else if req_needed(rs.last(), st) {
        needed_reqs(rs.drop_last(), st).push(rs.last())
    } else {
        needed_reqs(rs.drop_last(), st)
    }
}

pub open spec fn consumer_reqs(rs: Seq<Seq<char>>, st: Seq<char>) -> Seq<Seq<char>>
    decreases rs.len(),
{
    if rs.len() == 0 {
        Seq::empty()
    } else if !req_needed(rs.last(), st) {
        consumer_reqs(rs.drop_last(), st).push(rs.last())
    } else {
        consumer_reqs(rs.drop_last(), st)
    }
}

/// The specifiers the setup lines mock: the first string literal after each `.mock(`.
pub open spec fn mocked_specs(setup: Seq<Seq<char>>) -> Seq<Seq<char>>
    decreases setup.len(),
{
    if setup.len() == 0 {
        Seq::empty()
    } else {
        let prev = mocked_specs(setup.drop_last());
        let l = setup.last();
        match find_from(l, ".mock("@, 0) {
            Some(p) => match first_string_literal(l.skip(p + 6)) {
                Some(s) => prev.push(s),
                None => prev,
            },
            None => prev,
        }
    }
}

/// `l` without its first `var `.
pub open spec fn remove_first_var(l: Seq<char>) -> Seq<char> {
    match find_from(l, "var "@, 0) {
        Some(p) => l.take(p) + l.skip(p + 4),
        None => l,
    }
}

/// Re-binding statements for the requires of mocked specifiers.
pub open spec fn rebinds(rs: Seq<Seq<char>>, specs: Seq<Seq<char>>) -> Seq<Seq<char>>
    decreases rs.len(),
{
    if rs.len() == 0 || specs.len() == 0 {
        Seq::empty()
    } else {
        let prev = rebinds(rs.drop_last(), specs);
        match require_spec_of(rs.last()) {
            Some(s) => if specs.contains(s) {
                prev.push(remove_first_var(rs.last()))
            } else {
                prev
            },
            None => prev,
        }
    }
}

/// The first setup line with a `.mock(` call (0 when none).
pub open spec fn first_mock_in(setup: Seq<Seq<char>>, k: int) -> int
    decreases setup.len() - k,
{
    if k < 0 || k >= setup.len() {
        0
    } else if has_mock(setup[k]) {
        k
    } else {
        first_mock_in(setup, k + 1)
    }
}

/// Bundler CJS output with the `require`s a module's mock setup does not use moved below
/// that setup, so each `vi.mock` is registered before the mocked module loads. The
/// leading require block, the setup region (from after it through the end of the last
/// `.mock(...)` statement) and the rest are rebuilt as: code before the requires, the
/// requires the setup (outside test callbacks) or a factory uses, declarations before
/// the first mock, the mock statements, re-binds of requires of mocked specifiers, the other
/// setup lines, the remaining requires, then the body. Code without a mock, without a
/// require block, or whose mocks all come before its requires is left as it is.
pub open spec fn hoist_spec(code: Seq<char>) -> Seq<char> {
    if !crate::text::contains_seq(code, ".mock("@) {
        code
    } else {
        let ls = lines_spec(code);
        match first_req(ls, 0) {
            None => code,
            Some(rs) => {
                let re = req_block_end(ls, rs);
                match last_mock_before(ls, ls.len() as int) {
                    None => code,
                    Some(lm) => if lm <= re {
                        code
                    } else {
                        let region_end = match close_line_from(ls, lm, 0, false) {
                            Some(r) => r,
                            None => lm,
                        };
                        let setup = ls.subrange(re + 1, region_end + 1);
                        if join_lines(setup).len() > usize::MAX / 2 {
                            code
                        } else {
                            let fm = first_mock_in(setup, 0);
                            let sp = split_mocks(setup.skip(fm), 0);
                            let st = strip_test_blocks_spec(join_lines(setup)) + seq!['\n']
                                + join_lines(sp.0);
                            let reqs = ls.subrange(rs, re + 1);
                            join_lines(
                                ls.take(rs) + needed_reqs(reqs, st) + setup.take(fm) + sp.0 + rebinds(
                                    reqs,
                                    mocked_specs(setup),
                                ) + sp.1 + consumer_reqs(reqs, st) + ls.skip(region_end + 1),
                            )
                        }
                    },
                }
            },
        }
    }
}

} // verus!

verus! {

/// The views of a list of lines.
pub open spec fn lv(v: Seq<Vec<char>>) -> Seq<Seq<char>> {
    v.map_values(|x: Vec<char>| x@)
}

fn has_mock_exec(l: &[char]) -> (b: bool)
    ensures
        b == has_mock(l@),
{
    crate::text::contains_chars(l, chars_of(".mock(").as_slice())
}

fn is_req_exec(l: &[char]) -> (b: bool)
    ensures
        b == is_req(l@),
{
    crate::launcher::starts_with_exec(l, chars_of("var import_").as_slice())
        && crate::text::contains_chars(l, chars_of("require(").as_slice())
}

fn first_req_exec(ls: &Vec<Vec<char>>) -> (r: Option<usize>)
    ensures
        match r {
            Some(i) => i < ls@.len() && first_req(lv(ls@), 0) == Some(i as int),
            None => first_req(lv(ls@), 0) is None,
        },
{
    let mut i: usize = 0;
    while i < ls.len()
        invariant
            i <= ls@.len(),
            first_req(lv(ls@), 0) == first_req(lv(ls@), i as int),
        decreases ls@.len() - i,
    {
        assert(lv(ls@)[i as int] == ls@[i as int]@);
        if is_req_exec(ls[i].as_slice()) {
            return Some(i);
        }
        i += 1;
    }
    None
}

fn req_block_end_exec(ls: &Vec<Vec<char>>, s: usize) -> (r: usize)
    requires
        s < ls@.len(),
    ensures
        r == req_block_end(lv(ls@), s as int),
        s <= r < ls@.len(),
{
    let mut e = s;
    while e < ls.len() - 1 && is_req_exec(ls[e + 1].as_slice())
        invariant
            s <= e < ls@.len(),
            req_block_end(lv(ls@), s as int) == req_block_end(lv(ls@), e as int),
        decreases ls@.len() - e,
    {
        assert(lv(ls@)[e + 1] == ls@[e + 1]@);
        e += 1;
    }
    proof {
        if e + 1 < ls@.len() {
            assert(lv(ls@)[e + 1] == ls@[e + 1]@);
        }
    }
    e
}

fn last_mock_exec(ls: &Vec<Vec<char>>) -> (r: Option<usize>)
    ensures
        match r {
            Some(i) => i < ls@.len() && last_mock_before(lv(ls@), ls@.len() as int) == Some(i as int),
            None => last_mock_before(lv(ls@), ls@.len() as int) is None,
        },
{
    let mut n: usize = ls.len();
    while n > 0
        invariant
            n <= ls@.len(),
            last_mock_before(lv(ls@), ls@.len() as int) == last_mock_before(lv(ls@), n as int),
        decreases n,
    {
        assert(lv(ls@)[n - 1] == ls@[n - 1]@);
        if has_mock_exec(ls[n - 1].as_slice()) {
            return Some(n - 1);
        }
        n -= 1;
    }
    None
}

fn count_char_exec(l: &[char], c: char) -> (r: u64)
    ensures
        r == count_char(l@, c),
{
    let mut n: u64 = 0;
    let mut i: usize = 0;
    assert(l@.take(0) =~= Seq::<char>::empty());
    while i < l.len()
        invariant
            i <= l.len(),
            n == count_char(l@.take(i as int), c),
            n <= i,
        decreases l.len() - i,
    {
        assert(l@.take(i + 1).drop_last() =~= l@.take(i as int));
        if l[i] == c {
            n += 1;
        }
        i += 1;
    }
    assert(l@.take(l.len() as int) =~= l@);
    n
}

fn depth_after_exec(d: i64, l: &[char]) -> (r: i64)
    ensures
        r == depth_after(d as int, l@),
{
    let o = count_char_exec(l, '(');
    let c = count_char_exec(l, ')');
    let x: i128 = d as i128 + o as i128 - c as i128;
    if x > i64::MAX as i128 {
        i64::MAX
    } else if x < i64::MIN as i128 {
        i64::MIN
    } else {
        x as i64
    }
}

fn close_line_exec(ls: &[Vec<char>], i: usize) -> (r: Option<usize>)
    ensures
        match r {
            Some(e) => i <= e < ls@.len() && close_line_from(lv(ls@), i as int, 0, false) == Some(
                e as int,
            ),
            None => close_line_from(lv(ls@), i as int, 0, false) is None,
        },
{
    proof {
        lemma_close_line_from(lv(ls@), i as int, 0, false);
    }
    let mut k = i;
    let mut d: i64 = 0;
    let mut started = false;
    while k < ls.len()
        invariant
            i <= k,
            close_line_from(lv(ls@), i as int, 0, false) == close_line_from(
                lv(ls@),
                k as int,
                d as int,
                started,
            ),
        decreases ls@.len() - k,
    {
        assert(lv(ls@)[k as int] == ls@[k as int]@);
        let d2 = depth_after_exec(d, ls[k].as_slice());
        let s2 = started || count_char_exec(ls[k].as_slice(), '(') > 0;
        if s2 && d2 <= 0 {
            return Some(k);
        }
        d = d2;
        started = s2;
        k += 1;
    }
    None
}

/// Copies of the lines `ls[a..b]`.
fn lines_range(ls: &[Vec<char>], a: usize, b: usize) -> (r: Vec<Vec<char>>)
    requires
        a <= b <= ls.len(),
    ensures
        lv(r@) == lv(ls@).subrange(a as int, b as int),
{
    let mut r: Vec<Vec<char>> = Vec::new();
    let mut i = a;
    while i < b
        invariant
            a <= i <= b <= ls.len(),
            lv(r@) == lv(ls@).subrange(a as int, i as int),
        decreases b - i,
    {
        let ghost before = r@;
        r.push(ls[i].clone());
        assert(lv(r@) =~= lv(before).push(ls@[i as int]@));
        assert(lv(ls@).subrange(a as int, i + 1) =~= lv(ls@).subrange(a as int, i as int).push(
            lv(ls@)[i as int],
        ));
        i += 1;
    }
    r
}

fn append_lines(out: &mut Vec<Vec<char>>, more: Vec<Vec<char>>)
    ensures
        lv(final(out)@) == lv(old(out)@) + lv(more@),
{
    let mut m = more;
    let ghost a = out@;
    let ghost b = m@;
    out.append(&mut m);
    assert(lv(out@) =~= lv(a) + lv(b));
}

fn split_mocks_exec(tail: &[Vec<char>]) -> (r: (Vec<Vec<char>>, Vec<Vec<char>>))
    ensures
        lv(r.0@) == split_mocks(lv(tail@), 0).0,
        lv(r.1@) == split_mocks(lv(tail@), 0).1,
{
    let ghost t = lv(tail@);
    let mut ms: Vec<Vec<char>> = Vec::new();
    let mut ps: Vec<Vec<char>> = Vec::new();
    let mut k: usize = 0;
    assert(lv(ms@) + split_mocks(t, 0).0 =~= split_mocks(t, 0).0);
    assert(lv(ps@) + split_mocks(t, 0).1 =~= split_mocks(t, 0).1);
    while k < tail.len()
        invariant
            k <= tail@.len(),
            t == lv(tail@),
            split_mocks(t, 0).0 == lv(ms@) + split_mocks(t, k as int).0,
            split_mocks(t, 0).1 == lv(ps@) + split_mocks(t, k as int).1,
        decreases tail@.len() - k,
    {
        assert(t[k as int] == tail@[k as int]@);
        if has_mock_exec(tail[k].as_slice()) {
            let e = match close_line_exec(tail, k) {
                Some(x) => x + 1,
                None => tail.len(),
            };
            let ghost m0 = lv(ms@);
            append_lines(&mut ms, lines_range(tail, k, e));
            assert(m0 + (t.subrange(k as int, e as int) + split_mocks(t, e as int).0) =~= lv(ms@)
                + split_mocks(t, e as int).0);
            k = e;
        } else {
            let ghost p0 = lv(ps@);
            ps.push(tail[k].clone());
            assert(lv(ps@) =~= p0.push(t[k as int]));
            assert(p0 + (seq![t[k as int]] + split_mocks(t, k + 1).1) =~= lv(ps@) + split_mocks(
                t,
                k + 1,
            ).1);
            k += 1;
        }
    }
    assert(lv(ms@) + Seq::<Seq<char>>::empty() =~= lv(ms@));
    assert(lv(ps@) + Seq::<Seq<char>>::empty() =~= lv(ps@));
    (ms, ps)
}

} // verus!

verus! {

fn req_name_exec(l: &[char]) -> (r: Vec<char>)
    ensures
        r@ == req_name(l@),
{
    let r = if crate::launcher::starts_with_exec(l, chars_of("var ").as_slice()) {
        proof {
            reveal_strlit("var ");
        }
        slice_skip(l, 4)
    } else {
        l
    };
    let mut k: usize = 0;
    while k < r.len() && (is_alphanumeric(r[k]) || r[k] == '_' || r[k] == '$')
        invariant
            k <= r.len(),
            name_end(r@, 0) == name_end(r@, k as int),
        decreases r.len() - k,
    {
        k += 1;
    }
    crate::text::slice_take(r, k)
}

fn partition_reqs(rs: &Vec<Vec<char>>, st: &[char]) -> (r: (Vec<Vec<char>>, Vec<Vec<char>>))
    ensures
        lv(r.0@) == needed_reqs(lv(rs@), st@),
        lv(r.1@) == consumer_reqs(lv(rs@), st@),
{
    let ghost rv = lv(rs@);
    let mut need: Vec<Vec<char>> = Vec::new();
    let mut cons: Vec<Vec<char>> = Vec::new();
    let mut i: usize = 0;
    assert(rv.take(0) =~= Seq::<Seq<char>>::empty());
    while i < rs.len()
        invariant
            i <= rs@.len(),
            rv == lv(rs@),
            lv(need@) == needed_reqs(rv.take(i as int), st@),
            lv(cons@) == consumer_reqs(rv.take(i as int), st@),
        decreases rs@.len() - i,
    {
        assert(rv.take(i + 1).drop_last() =~= rv.take(i as int));
        assert(rv.take(i + 1).last() == rs@[i as int]@);
        let name = req_name_exec(rs[i].as_slice());
        if name.len() > 0 && contains_word(st, name.as_slice()) {
            let ghost b = need@;
            need.push(rs[i].clone());
            assert(lv(need@) =~= lv(b).push(rs@[i as int]@));
        } else {
            let ghost b = cons@;
            cons.push(rs[i].clone());
            assert(lv(cons@) =~= lv(b).push(rs@[i as int]@));
        }
        i += 1;
    }
    assert(rv.take(rs@.len() as int) =~= rv);
    (need, cons)
}

fn mocked_specs_exec(setup: &Vec<Vec<char>>) -> (r: Vec<Vec<char>>)
    ensures
        lv(r@) == mocked_specs(lv(setup@)),
{
    let ghost sv = lv(setup@);
    let needle = chars_of(".mock(");
    proof {
        reveal_strlit(".mock(");
    }
    let mut out: Vec<Vec<char>> = Vec::new();
    let mut i: usize = 0;
    assert(sv.take(0) =~= Seq::<Seq<char>>::empty());
    while i < setup.len()
        invariant
            i <= setup@.len(),
            sv == lv(setup@),
            needle@ == ".mock("@,
            ".mock("@.len() == 6,
            lv(out@) == mocked_specs(sv.take(i as int)),
        decreases setup@.len() - i,
    {
        assert(sv.take(i + 1).drop_last() =~= sv.take(i as int));
        assert(sv.take(i + 1).last() == setup@[i as int]@);
        let l = setup[i].as_slice();
        proof {
            lemma_find_from(l@, needle@, 0);
        }
        match find_at(l, needle.as_slice(), 0) {
            Some(p) => {
                match extract_first_string_literal(slice_skip(l, p + 6)) {
                    Some(s) => {
                        let ghost b = out@;
                        out.push(s);
                        assert(lv(out@) =~= lv(b).push(out@.last()@));
                    },
                    None => {},
                }
            },
            None => {},
        }
        i += 1;
    }
    assert(sv.take(setup@.len() as int) =~= sv);
    out
}

fn contains_line(v: &Vec<Vec<char>>, s: &[char]) -> (b: bool)
    ensures
        b == lv(v@).contains(s@),
{
    let mut i: usize = 0;
    while i < v.len()
        invariant
            i <= v@.len(),
            forall|j: int| 0 <= j < i ==> lv(v@)[j] != s@,
        decreases v@.len() - i,
    {
        if crate::text::chars_eq(v[i].as_slice(), s) {
            assert(lv(v@)[i as int] == s@);
            return true;
        }
        i += 1;
    }
    false
}

fn remove_first_var_exec(l: &[char]) -> (r: Vec<char>)
    ensures
        r@ == remove_first_var(l@),
{
    let needle = chars_of("var ");
    proof {
        reveal_strlit("var ");
        lemma_find_from(l@, needle@, 0);
    }
    match find_at(l, needle.as_slice(), 0) {
        Some(p) => {
            let mut r = crate::text::slice_take(l, p);
            crate::text::extend_chars(&mut r, slice_skip(l, p + 4));
            r
        },
        None => crate::text::slice_take(l, l.len()),
    }
}

fn rebinds_exec(rs: &Vec<Vec<char>>, specs: &Vec<Vec<char>>) -> (r: Vec<Vec<char>>)
    ensures
        lv(r@) == rebinds(lv(rs@), lv(specs@)),
{
    let ghost rv = lv(rs@);
    let mut out: Vec<Vec<char>> = Vec::new();
    if specs.len() == 0 {
        assert(lv(out@) =~= Seq::<Seq<char>>::empty());
        return out;
    }
    let mut i: usize = 0;
    assert(rv.take(0) =~= Seq::<Seq<char>>::empty());
    while i < rs.len()
        invariant
            i <= rs@.len(),
            specs@.len() > 0,
            rv == lv(rs@),
            lv(out@) == rebinds(rv.take(i as int), lv(specs@)),
        decreases rs@.len() - i,
    {
        assert(rv.take(i + 1).drop_last() =~= rv.take(i as int));
        assert(rv.take(i + 1).last() == rs@[i as int]@);
        match extract_require_spec(rs[i].as_slice()) {
            Some(s) => {
                if contains_line(specs, s.as_slice()) {
                    let ghost b = out@;
                    out.push(remove_first_var_exec(rs[i].as_slice()));
                    assert(lv(out@) =~= lv(b).push(out@.last()@));
                }
            },
            None => {},
        }
        i += 1;
    }
    assert(rv.take(rs@.len() as int) =~= rv);
    out
}

fn first_mock_in_exec(setup: &Vec<Vec<char>>) -> (r: usize)
    ensures
        r == first_mock_in(lv(setup@), 0),
        r <= setup@.len(),
{
    let mut k: usize = 0;
    while k < setup.len()
        invariant
            k <= setup@.len(),
            first_mock_in(lv(setup@), 0) == first_mock_in(lv(setup@), k as int),
        decreases setup@.len() - k,
    {
        assert(lv(setup@)[k as int] == setup@[k as int]@);
        if has_mock_exec(setup[k].as_slice()) {
            return k;
        }
        k += 1;
    }
    0
}

} // verus!

verus! {

/// Move the `require`s that the mock setup does not use below it (see `hoist_spec`).
pub fn hoist_mock_setup(code: &str) -> (r: String)
    ensures
        r@ == hoist_spec(code@),
{
    let c = chars_of(code);
    if !crate::text::contains_chars(c.as_slice(), chars_of(".mock(").as_slice()) {
        return code.to_owned();
    }
    let ls = lines(c.as_slice());
    let ghost l = lv(ls@);
    assert(l == lines_spec(code@));
    let req_start = match first_req_exec(&ls) {
        Some(i) => i,
        None => {
            return code.to_owned();
        },
    };
    let req_end = req_block_end_exec(&ls, req_start);
    let last_mock = match last_mock_exec(&ls) {
        Some(i) => i,
        None => {
            return code.to_owned();
        },
    };
    if last_mock <= req_end {
        return code.to_owned();
    }
    let region_end = match close_line_exec(ls.as_slice(), last_mock) {
        Some(r) => r,
        None => last_mock,
    };
    let n_lines = ls.len();
    assert(region_end < n_lines);
    assert(region_end == (match close_line_from(l, last_mock as int, 0, false) {
        Some(r) => r,
        None => last_mock as int,
    }));
    let setup = lines_range(ls.as_slice(), req_end + 1, region_end + 1);
    let setup_full = join_line_vecs(&setup);
    if setup_full.len() > usize::MAX / 2 {
        return code.to_owned();
    }
    let fm = first_mock_in_exec(&setup);
    let tail = lines_range(setup.as_slice(), fm, setup.len());
    assert(lv(tail@) =~= lv(setup@).skip(fm as int));
    let (mock_stmts, post_decls) = split_mocks_exec(tail.as_slice());
    let mut st = strip_test_blocks(setup_full.as_slice());
    st.push('\n');
    crate::text::extend_chars(&mut st, join_line_vecs(&mock_stmts).as_slice());
    let reqs = lines_range(ls.as_slice(), req_start, req_end + 1);
    let (needed, consumers) = partition_reqs(&reqs, st.as_slice());
    let specs = mocked_specs_exec(&setup);
    let rb = rebinds_exec(&reqs, &specs);
    let mut out = lines_range(ls.as_slice(), 0, req_start);
    append_lines(&mut out, needed);
    append_lines(&mut out, lines_range(setup.as_slice(), 0, fm));
    append_lines(&mut out, mock_stmts);
    append_lines(&mut out, rb);
    append_lines(&mut out, post_decls);
    append_lines(&mut out, consumers);
    append_lines(&mut out, lines_range(ls.as_slice(), region_end + 1, ls.len()));
    proof {
        assert(lv(setup@).subrange(0, fm as int) =~= lv(setup@).take(fm as int));
        assert(l.subrange(0, req_start as int) =~= l.take(req_start as int));
        assert(l.subrange(region_end + 1, l.len() as int) =~= l.skip(region_end + 1));
        assert(first_req(l, 0) == Some(req_start as int));
        assert(last_mock_before(l, l.len() as int) == Some(last_mock as int));
        assert(lv(setup@) == l.subrange(req_end + 1, region_end + 1));
        let sp = split_mocks(lv(setup@).skip(fm as int), 0);
        assert(st@ == strip_test_blocks_spec(join_lines(lv(setup@))) + seq!['\n'] + join_lines(sp.0));
    }
    let j = join_line_vecs(&out);
    crate::text::string_of(j.as_slice())
}

} // verus!

verus! {

/// After spaces and tabs from `j`.
pub open spec fn skip_sp_tab(t: Seq<char>, j: int) -> int
    decreases t.len() - j,
{
    if 0 <= j < t.len() && (t[j] == ' ' || t[j] == '\t') {
        skip_sp_tab(t, j + 1)
    } else {
        j
    }
}

/// `w` is assigned at `at`: a whole-word occurrence followed (after spaces or tabs) by
/// an `=` that is not `==` or `=>`.
pub open spec fn assigns_at(t: Seq<char>, w: Seq<char>, at: int) -> bool {
    &&& occurs_at(t, w, at)
    &&& (at == 0 || !is_ident(t[at - 1]))
    &&& !(at + w.len() < t.len() && is_ident(t[at + w.len()]))
    &&& ({
        let j = skip_sp_tab(t, at + w.len());
        j < t.len() && t[j] == '=' && !(j + 1 < t.len() && (t[j + 1] == '=' || t[j + 1] == '>'))
    })
}

pub open spec fn assigns_word_spec(t: Seq<char>, w: Seq<char>) -> bool {
    exists|at: int| assigns_at(t, w, at)
}

fn skip_sp_tab_exec(t: &[char], j: usize) -> (r: usize)
    requires
        j <= t.len(),
    ensures
        r == skip_sp_tab(t@, j as int),
        j <= r <= t.len(),
{
    let mut k = j;
    while k < t.len() && (t[k] == ' ' || t[k] == '\t')
        invariant
            j <= k <= t.len(),
            skip_sp_tab(t@, j as int) == skip_sp_tab(t@, k as int),
        decreases t.len() - k,
    {
        k += 1;
    }
    k
}

/// Whether `t` assigns the word `w` somewhere.
pub fn assigns_word(t: &[char], w: &[char]) -> (b: bool)
    ensures
        b == assigns_word_spec(t@, w@),
{
    if w.len() > t.len() {
        assert forall|at: int| !assigns_at(t@, w@, at) by {}
        return false;
    }
    let last = t.len() - w.len();
    let mut i: usize = 0;
    loop
        invariant
            w.len() <= t.len(),
            last == t.len() - w.len(),
            i <= last,
            forall|j: int| 0 <= j < i ==> !assigns_at(t@, w@, j),
        decreases last - i,
    {
        if occurs_at_exec(t, w, i) && (i == 0 || !is_ident_exec(t[i - 1])) && !(i + w.len()
            < t.len() && is_ident_exec(t[i + w.len()])) {
            let j = skip_sp_tab_exec(t, i + w.len());
            if j < t.len() && t[j] == '=' && !(j + 1 < t.len() && (t[j + 1] == '=' || t[j + 1]
                == '>')) {
                assert(assigns_at(t@, w@, i as int));
                return true;
            }
        }
        if i == last {
            assert forall|j: int| !assigns_at(t@, w@, j) by {
                if j > i {
                    assert(!occurs_at(t@, w@, j));
                }
            }
            return false;
        }
        i += 1;
    }
}

/// Whitespace skipped around a shorthand candidate: space, tab, newline, carriage return.
pub open spec fn sh_ws(c: char) -> bool {
    c == ' ' || c == '\t' || c == '\n' || c == '\r'
}

/// The start of the whitespace run ending at `l`.
pub open spec fn back_ws(t: Seq<char>, l: int) -> int
    decreases l,
{
    if 0 < l <= t.len() && sh_ws(t[l - 1]) {
        back_ws(t, l - 1)
    } else {
        l
    }
}

/// The end of the whitespace run starting at `r`.
pub open spec fn fwd_ws(t: Seq<char>, r: int) -> int
    decreases t.len() - r,
{
    if 0 <= r < t.len() && sh_ws(t[r]) {
        fwd_ws(t, r + 1)
    } else {
        r
    }
}

/// `w` at `at` is object-literal shorthand: a whole word with `{` before and `}` or `,`
/// after, or `,` before and `}` after (whitespace between allowed).
pub open spec fn shorthand_at(t: Seq<char>, w: Seq<char>, at: int) -> bool {
    &&& occurs_at(t, w, at)
    &&& (at == 0 || !is_ident(t[at - 1]))
    &&& !(at + w.len() < t.len() && is_ident(t[at + w.len()]))
    &&& ({
        let l = back_ws(t, at);
        let r = fwd_ws(t, at + w.len());
        let left_brace = l > 0 && t[l - 1] == '{';
        let left_comma = l > 0 && t[l - 1] == ',';
        let right_brace = r < t.len() && t[r] == '}';
        let right_comma = r < t.len() && t[r] == ',';
        (left_brace && (right_brace || right_comma)) || (left_comma && right_brace)
    })
}

pub open spec fn used_in_shorthand_spec(t: Seq<char>, w: Seq<char>) -> bool {
    exists|at: int| shorthand_at(t, w, at)
}

/// Whether `w` is used as object-literal shorthand somewhere in `t`.
pub fn used_in_shorthand(t: &[char], w: &[char]) -> (b: bool)
    ensures
        b == used_in_shorthand_spec(t@, w@),
{
    if w.len() > t.len() {
        assert forall|at: int| !shorthand_at(t@, w@, at) by {}
        return false;
    }
    let last = t.len() - w.len();
    let mut i: usize = 0;
    loop
        invariant
            w.len() <= t.len(),
            last == t.len() - w.len(),
            i <= last,
            forall|j: int| 0 <= j < i ==> !shorthand_at(t@, w@, j),
        decreases last - i,
    {
        if occurs_at_exec(t, w, i) && (i == 0 || !is_ident_exec(t[i - 1])) && !(i + w.len()
            < t.len() && is_ident_exec(t[i + w.len()])) {
            let mut l = i;
            while l > 0 && (t[l - 1] == ' ' || t[l - 1] == '\t' || t[l - 1] == '\n' || t[l - 1]
                == '\r')
                invariant
                    l <= i <= t.len(),
                    back_ws(t@, i as int) == back_ws(t@, l as int),
                decreases l,
            {
                l -= 1;
            }
            let mut r = i + w.len();
            while r < t.len() && (t[r] == ' ' || t[r] == '\t' || t[r] == '\n' || t[r] == '\r')
                invariant
                    i + w.len() <= r <= t.len(),
                    fwd_ws(t@, i + w.len()) == fwd_ws(t@, r as int),
                decreases t.len() - r,
            {
                r += 1;
            }
            let lb = l > 0 && t[l - 1] == '{';
            let lc = l > 0 && t[l - 1] == ',';
            let rb = r < t.len() && t[r] == '}';
            let rc = r < t.len() && t[r] == ',';
            if (lb && (rb || rc)) || (lc && rb) {
                assert(shorthand_at(t@, w@, i as int));
                return true;
            }
        }
        if i == last {
            assert forall|j: int| !shorthand_at(t@, w@, j) by {
                if j > i {
                    assert(!occurs_at(t@, w@, j));
                }
            }
            return false;
        }
        i += 1;
    }
}

} // verus!

verus! {

/// Past Unicode whitespace from `k`.
pub open spec fn skip_uws(s: Seq<char>, k: int) -> int
    decreases s.len() - k,
{
    if 0 <= k < s.len() && crate::text::is_ws(s[k]) {
        skip_uws(s, k + 1)
    } else {
        k
    }
}

fn skip_uws_exec(s: &[char], k: usize) -> (r: usize)
    requires
        k <= s.len(),
    ensures
        r == skip_uws(s@, k as int),
        k <= r <= s.len(),
{
    let mut x = k;
    while x < s.len() && crate::text::is_ws_exec(s[x])
        invariant
            k <= x <= s.len(),
            skip_uws(s@, k as int) == skip_uws(s@, x as int),
        decreases s.len() - x,
    {
        x += 1;
    }
    x
}

/// The `)` that closes a call whose arguments start at `k` at depth `d` (or the end).
pub open spec fn paren_close(s: Seq<char>, k: int, d: int) -> int
    decreases s.len() - k,
{
    if k < 0 || k >= s.len() {
        if k < 0 { 0 } else { k }
    } else if s[k] == '(' {
        paren_close(s, k + 1, d + 1)
    } else if s[k] == ')' {
        if d - 1 == 0 {
            k
        } else {
            paren_close(s, k + 1, d - 1)
        }
    } else {
        paren_close(s, k + 1, d)
    }
}

pub(crate) proof fn lemma_paren_close(s: Seq<char>, k: int, d: int)
    requires
        0 <= k <= s.len(),
    ensures
        k <= paren_close(s, k, d) <= s.len(),
    decreases s.len() - k,
{
    if k < s.len() {
        if s[k] == '(' {
            lemma_paren_close(s, k + 1, d + 1);
        } else if s[k] == ')' {
            if d - 1 != 0 {
                lemma_paren_close(s, k + 1, d - 1);
            }
        } else {
            lemma_paren_close(s, k + 1, d);
        }
    }
}

/// The first `vi.mock(` or `jest.mock(` at or after `i` (the earlier one), as (position,
/// length of the needle).
pub open spec fn next_mock_call(s: Seq<char>, i: int) -> Option<(int, int)> {
    match find_from(s, "vi.mock("@, i) {
        Some(x) => match find_from(s, "jest.mock("@, i) {
            Some(y) => if x <= y {
                Some((x, 8int))
            } else {
                Some((y, 10int))
            },
            None => Some((x, 8int)),
        },
        None => match find_from(s, "jest.mock("@, i) {
            Some(y) => Some((y, 10int)),
            None => None,
        },
    }
}

/// The first comma after the specifier's closing quote `e`, at `c`, starts a factory only
/// when no `)` closes the call before it.
pub open spec fn factory_comma(s: Seq<char>, e: int, c: int) -> bool {
    match find_from(s, seq![')'], e + 1) {
        Some(p) => c < p,
        None => true,
    }
}

/// One mock call found from `i` on: the (specifier, factory) it yields (none when its first
/// argument is not a string literal) and where scanning resumes; `None` ends the scan (no
/// further call, nothing after it, or an unclosed specifier).
pub open spec fn mock_step(s: Seq<char>, i: int) -> Option<(Option<(Seq<char>, Seq<char>)>, int)> {
    match next_mock_call(s, i) {
        None => None,
        Some(hit) => {
            let start = hit.0 + hit.1;
            let t = skip_uws(s, start);
            if t >= s.len() {
                None
            } else if !(s[t] == '"' || s[t] == '\'' || s[t] == '`') {
                Some((None, start))
            } else {
                match find_from(s, seq![s[t]], t + 1) {
                    None => None,
                    Some(e) => {
                        let spec = s.subrange(t + 1, e);
                        match find_from(s, seq![','], e + 1) {
                            Some(c) => if factory_comma(s, e, c) {
                                let k = paren_close(s, c + 1, 1);
                                Some((Some((spec, crate::text::trim_spec(s.subrange(c + 1, k)))), k + 1))
                            } else {
                                Some((Some((spec, Seq::<char>::empty())), e + 1))
                            },
                            None => Some((Some((spec, Seq::<char>::empty())), e + 1)),
                        }
                    },
                }
            }
        },
    }
}

/// Each `vi.mock("spec", factory)` / `jest.mock(...)` from `i` on, as (specifier, factory
/// source trimmed; empty without a factory), in order (see `mock_step`).
pub open spec fn mocks_from(s: Seq<char>, i: int) -> Seq<(Seq<char>, Seq<char>)>
    decreases s.len() + 2 - i,
{
    if i < 0 || i > s.len() {
        Seq::empty()
    } else {
        match mock_step(s, i) {
            None => Seq::empty(),
            Some(st) => if st.1 <= i || st.1 > s.len() + 1 {
                Seq::empty()
            } else {
                match st.0 {
                    Some(p) => seq![p] + mocks_from(s, st.1),
                    None => mocks_from(s, st.1),
                }
            },
        }
    }
}

pub open spec fn pair_views(v: Seq<(Vec<char>, Vec<char>)>) -> Seq<(Seq<char>, Seq<char>)> {
    v.map_values(|p: (Vec<char>, Vec<char>)| (p.0@, p.1@))
}

pub(crate) fn paren_close_exec(s: &[char], k0: usize) -> (r: usize)
    requires
        k0 <= s.len(),
    ensures
        r == paren_close(s@, k0 as int, 1),
        k0 <= r <= s.len(),
{
    proof {
        lemma_paren_close(s@, k0 as int, 1);
    }
    let mut k = k0;
    let mut d: u128 = 1;
    while k < s.len()
        invariant
            k0 <= k <= s.len(),
            1 <= d <= k + 1,
            paren_close(s@, k0 as int, 1) == paren_close(s@, k as int, d as int),
        decreases s.len() - k,
    {
        if s[k] == '(' {
            d += 1;
        } else if s[k] == ')' {
            if d == 1 {
                return k;
            }
            d -= 1;
        }
        k += 1;
    }
    k
}

fn mock_step_exec(s: &[char], i: usize) -> (r: Option<(Option<(Vec<char>, Vec<char>)>, usize, bool)>)
    requires
        i <= s.len(),
    ensures
        match r {
            None => mock_step(s@, i as int) is None,
            Some(st) => mock_step(s@, i as int) matches Some(sp) && (if st.2 {
                sp.1 == s.len() + 1
            } else {
                sp.1 == st.1 && st.1 <= s.len()
            }) && match st.0 {
                Some(p) => sp.0 == Some((p.0@, p.1@)),
                None => sp.0 is None,
            },
        },
{
    let vi = chars_of("vi.mock(");
    let jest = chars_of("jest.mock(");
    proof {
        reveal_strlit("vi.mock(");
        reveal_strlit("jest.mock(");
        lemma_find_from(s@, vi@, i as int);
        lemma_find_from(s@, jest@, i as int);
    }
    let a = find_at(s, vi.as_slice(), i);
    let b = find_at(s, jest.as_slice(), i);
    let hit: (usize, usize) = match a {
        Some(x) => match b {
            Some(y) => if x <= y {
                (x, 8)
            } else {
                (y, 10)
            },
            None => (x, 8),
        },
        None => match b {
            Some(y) => (y, 10),
            None => {
                return None;
            },
        },
    };
    let start = hit.0 + hit.1;
    let t = skip_uws_exec(s, start);
    if t >= s.len() {
        return None;
    }
    let q = s[t];
    if !(q == '"' || q == '\'' || q == '`') {
        return Some((None, start, false));
    }
    let qv: Vec<char> = vec![q];
    assert(qv@ =~= seq![q]);
    proof {
        lemma_find_from(s@, qv@, t + 1);
    }
    match find_at(s, qv.as_slice(), t + 1) {
        None => None,
        Some(e) => {
            let spec = slice_range(s, t + 1, e);
            let comma: Vec<char> = vec![','];
            assert(comma@ =~= seq![',']);
            proof {
                lemma_find_from(s@, comma@, e + 1);
            }
            let close: Vec<char> = vec![')'];
            assert(close@ =~= seq![')']);
            proof {
                lemma_find_from(s@, close@, e + 1);
            }
            let closes_first = match find_at(s, close.as_slice(), e + 1) {
                Some(p) => match find_at(s, comma.as_slice(), e + 1) {
                    Some(c) => p < c,
                    None => true,
                },
                None => false,
            };
            if closes_first {
                return Some((Some((spec, Vec::new())), e + 1, false));
            }
            match find_at(s, comma.as_slice(), e + 1) {
                Some(c) => {
                    let k = paren_close_exec(s, c + 1);
                    let factory = crate::text::trim_chars(slice_range(s, c + 1, k).as_slice());
                    if k < s.len() {
                        Some((Some((spec, factory)), k + 1, false))
                    } else {
                        Some((Some((spec, factory)), k, true))
                    }
                },
                None => Some((Some((spec, Vec::new())), e + 1, false)),
            }
        },
    }
}

/// The mock calls of a source (see `mocks_from`).
pub fn extract_mocks(s: &[char]) -> (r: Vec<(Vec<char>, Vec<char>)>)
    ensures
        pair_views(r@) == mocks_from(s@, 0),
{
    let mut out: Vec<(Vec<char>, Vec<char>)> = Vec::new();
    let mut i: usize = 0;
    assert(pair_views(out@) + mocks_from(s@, 0) =~= mocks_from(s@, 0));
    while i <= s.len()
        invariant
            i <= s.len(),
            mocks_from(s@, 0) == pair_views(out@) + mocks_from(s@, i as int),
        decreases s.len() + 2 - i,
    {
        match mock_step_exec(s, i) {
            None => {
                assert(pair_views(out@) + Seq::<(Seq<char>, Seq<char>)>::empty() =~= pair_views(out@));
                return out;
            },
            Some((item, next, at_end)) => {
                if !at_end && next <= i {
                    assert(pair_views(out@) + Seq::<(Seq<char>, Seq<char>)>::empty() =~= pair_views(out@));
                    return out;
                }
                let ghost nx: int = if at_end { s.len() + 1 } else { next as int };
                match item {
                    Some(p) => {
                        let ghost before = pair_views(out@);
                        let ghost pv = (p.0@, p.1@);
                        out.push(p);
                        assert(pair_views(out@) =~= before.push(pv));
                        assert(before + (seq![pv] + mocks_from(s@, nx)) =~= pair_views(out@)
                            + mocks_from(s@, nx));
                    },
                    None => {},
                }
                if at_end {
                    assert(mocks_from(s@, nx) =~= Seq::<(Seq<char>, Seq<char>)>::empty());
                    assert(pair_views(out@) + Seq::<(Seq<char>, Seq<char>)>::empty() =~= pair_views(out@));
                    return out;
                }
                i = next;
            },
        }
    }
    assert(pair_views(out@) + Seq::<(Seq<char>, Seq<char>)>::empty() =~= pair_views(out@));
    out
}

} // verus!

verus! {

/// UTF-8 length of a character sequence.
pub open spec fn utf8_len_seq(s: Seq<char>) -> int
    decreases s.len(),
{
    if s.len() == 0 {
        0
    } else {
        utf8_len_seq(s.drop_last()) + crate::meta::utf8_len(s.last())
    }
}

fn utf8_len_exec(s: &[char]) -> (r: u128)
    ensures
        r == utf8_len_seq(s@),
{
    let mut n: u128 = 0;
    let mut i: usize = 0;
    assert(s@.take(0) =~= Seq::<char>::empty());
    while i < s.len()
        invariant
            i <= s.len(),
            n == utf8_len_seq(s@.take(i as int)),
            n <= 4 * i,
        decreases s.len() - i,
    {
        assert(s@.take(i + 1).drop_last() =~= s@.take(i as int));
        let c = s[i] as u32;
        n += if c < 0x80 {
            1
        } else if c < 0x800 {
            2
        } else if c < 0x10000 {
            3
        } else {
            4
        };
        i += 1;
    }
    assert(s@.take(s.len() as int) =~= s@);
    n
}

/// A `let`/`var`/`const` declaration line: what follows the keyword, and whether it is a
/// `const`.
pub open spec fn decl_of(line: Seq<char>) -> Option<(Seq<char>, bool)> {
    let t = crate::text::trim_start_spec(line);
    if crate::launcher::starts_with(t, "let "@) {
        Some((t.skip(4), false))
    } else if crate::launcher::starts_with(t, "var "@) {
        Some((t.skip(4), false))
    } else if crate::launcher::starts_with(t, "const "@) {
        Some((t.skip(6), true))
    } else {
        None
    }
}

/// An empty-array initializer: `= []`, `= [` then a newline, or ending in `= [`.
pub open spec fn is_array_init(rest: Seq<char>) -> bool {
    crate::text::contains_seq(rest, "= []"@) || crate::text::contains_seq(rest, "= [\n"@)
        || crate::launcher::ends_with(crate::text::trim_end_spec(rest), "= ["@)
}

/// Whether a declared binding must be shared with the mock factories: a `const` only when
/// it is an empty-array accumulator with a name of at least 12 bytes that a factory uses;
/// a `let`/`var` when its name has at least 6 bytes, a factory uses it and the source
/// assigns it.
pub open spec fn shareable(src: Seq<char>, factories: Seq<char>, rest: Seq<char>, name: Seq<char>, is_const: bool) -> bool {
    if is_const {
        utf8_len_seq(name) >= 12 && is_array_init(rest) && contains_word_spec(factories, name)
    } else {
        utf8_len_seq(name) >= 6 && contains_word_spec(factories, name) && assigns_word_spec(src, name)
    }
}

pub open spec fn shared_fold(src: Seq<char>, factories: Seq<char>, ls: Seq<Seq<char>>) -> Seq<Seq<char>>
    decreases ls.len(),
{
    if ls.len() == 0 {
        Seq::empty()
    } else {
        let out = shared_fold(src, factories, ls.drop_last());
        match decl_of(ls.last()) {
            None => out,
            Some(d) => {
                let name = d.0.take(name_end(d.0, 0));
                if name.len() == 0 || out.contains(name) {
                    out
                } else if shareable(src, factories, d.0, name, d.1) && !used_in_shorthand_spec(
                    src,
                    name,
                ) {
                    out.push(name)
                } else {
                    out
                }
            },
        }
    }
}

/// The module-level `let`/`var`/`const` bindings that this source's mock factories use and
/// that must be shared between the factory's scope and the module's (in declaration order,
/// each once). No mocks: none.
pub open spec fn shared_mock_lets_spec(src: Seq<char>) -> Seq<Seq<char>> {
    let ms = mocks_from(src, 0);
    if ms.len() == 0 {
        Seq::empty()
    } else {
        shared_fold(src, join_lines(ms.map_values(|p: (Seq<char>, Seq<char>)| p.1)), lines_spec(src))
    }
}

fn decl_of_exec(line: &[char]) -> (r: Option<(Vec<char>, bool)>)
    ensures
        match r {
            Some(d) => decl_of(line@) == Some((d.0@, d.1)),
            None => decl_of(line@) is None,
        },
{
    let mut a: usize = 0;
    assert(line@.skip(0) =~= line@);
    while a < line.len() && crate::text::is_ws_exec(line[a])
        invariant
            a <= line.len(),
            crate::text::trim_start_spec(line@) == crate::text::trim_start_spec(line@.skip(a as int)),
        decreases line.len() - a,
    {
        assert(line@.skip(a as int).drop_first() =~= line@.skip(a + 1));
        a += 1;
    }
    let t = slice_skip(line, a);
    assert(crate::text::trim_start_spec(line@) == t@);
    proof {
        reveal_strlit("let ");
        reveal_strlit("var ");
        reveal_strlit("const ");
    }
    if crate::launcher::starts_with_exec(t, chars_of("let ").as_slice()) {
        Some((crate::text::slice_take(slice_skip(t, 4), t.len() - 4), false))
    } else if crate::launcher::starts_with_exec(t, chars_of("var ").as_slice()) {
        Some((crate::text::slice_take(slice_skip(t, 4), t.len() - 4), false))
    } else if crate::launcher::starts_with_exec(t, chars_of("const ").as_slice()) {
        Some((crate::text::slice_take(slice_skip(t, 6), t.len() - 6), true))
    } else {
        None
    }
}

fn name_prefix(rest: &[char]) -> (r: Vec<char>)
    ensures
        r@ == rest@.take(name_end(rest@, 0)),
{
    let mut k: usize = 0;
    while k < rest.len() && (is_alphanumeric(rest[k]) || rest[k] == '_' || rest[k] == '$')
        invariant
            k <= rest.len(),
            name_end(rest@, 0) == name_end(rest@, k as int),
        decreases rest.len() - k,
    {
        k += 1;
    }
    crate::text::slice_take(rest, k)
}

fn is_array_init_exec(rest: &[char]) -> (b: bool)
    ensures
        b == is_array_init(rest@),
{
    let te = {
        let mut b: usize = rest.len();
        assert(rest@.take(b as int) =~= rest@);
        while b > 0 && crate::text::is_ws_exec(rest[b - 1])
            invariant
                b <= rest.len(),
                crate::text::trim_end_spec(rest@) == crate::text::trim_end_spec(rest@.take(b as int)),
            decreases b,
        {
            assert(rest@.take(b as int).drop_last() =~= rest@.take(b - 1));
            b -= 1;
        }
        crate::text::slice_take(rest, b)
    };
    proof {
        assert(rest@.take(rest@.len() as int) =~= rest@);
    }
    crate::text::contains_chars(rest, chars_of("= []").as_slice()) || crate::text::contains_chars(
        rest,
        chars_of("= [\n").as_slice(),
    ) || crate::launcher::ends_with_exec(te.as_slice(), chars_of("= [").as_slice())
}

/// The bindings the mock factories of `src` share with the module (see
/// `shared_mock_lets_spec`).
pub fn shared_mock_lets(src: &str) -> (r: Vec<String>)
    ensures
        crate::text::strs(r@) == shared_mock_lets_spec(src@),
{
    let s = chars_of(src);
    let mocks = extract_mocks(s.as_slice());
    if mocks.len() == 0 {
        let r: Vec<String> = Vec::new();
        assert(crate::text::strs(r@) =~= Seq::<Seq<char>>::empty());
        return r;
    }
    let mut fs: Vec<Vec<char>> = Vec::new();
    let mut m: usize = 0;
    while m < mocks.len()
        invariant
            m <= mocks@.len(),
            lv(fs@) == pair_views(mocks@).map_values(|p: (Seq<char>, Seq<char>)| p.1).take(m as int),
        decreases mocks@.len() - m,
    {
        let ghost b = fs@;
        fs.push(mocks[m].1.clone());
        assert(lv(fs@) =~= lv(b).push(mocks@[m as int].1@));
        assert(pair_views(mocks@).map_values(|p: (Seq<char>, Seq<char>)| p.1).take(m + 1)
            =~= pair_views(mocks@).map_values(|p: (Seq<char>, Seq<char>)| p.1).take(m as int).push(
            mocks@[m as int].1@,
        ));
        m += 1;
    }
    assert(pair_views(mocks@).map_values(|p: (Seq<char>, Seq<char>)| p.1).take(mocks@.len() as int)
        =~= pair_views(mocks@).map_values(|p: (Seq<char>, Seq<char>)| p.1));
    let factories = join_line_vecs(&fs);
    let ls = lines(s.as_slice());
    let ghost lsv = lv(ls@);
    let mut out: Vec<Vec<char>> = Vec::new();
    let mut i: usize = 0;
    assert(lsv.take(0) =~= Seq::<Seq<char>>::empty());
    while i < ls.len()
        invariant
            i <= ls@.len(),
            lsv == lv(ls@),
            lv(out@) == shared_fold(src@, factories@, lsv.take(i as int)),
            s@ == src@,
        decreases ls@.len() - i,
    {
        assert(lsv.take(i + 1).drop_last() =~= lsv.take(i as int));
        assert(lsv.take(i + 1).last() == ls@[i as int]@);
        match decl_of_exec(ls[i].as_slice()) {
            None => {},
            Some((rest, is_const)) => {
                let name = name_prefix(rest.as_slice());
                if name.len() > 0 && !contains_line(&out, name.as_slice()) {
                    let share = if is_const {
                        utf8_len_exec(name.as_slice()) >= 12 && is_array_init_exec(rest.as_slice())
                            && contains_word(factories.as_slice(), name.as_slice())
                    } else {
                        utf8_len_exec(name.as_slice()) >= 6 && contains_word(
                            factories.as_slice(),
                            name.as_slice(),
                        ) && assigns_word(s.as_slice(), name.as_slice())
                    };
                    if share && !used_in_shorthand(s.as_slice(), name.as_slice()) {
                        let ghost b = out@;
                        out.push(name);
                        assert(lv(out@) =~= lv(b).push(out@.last()@));
                    }
                }
            },
        }
        i += 1;
    }
    assert(lsv.take(ls@.len() as int) =~= lsv);
    let mut r: Vec<String> = Vec::new();
    let mut k: usize = 0;
    while k < out.len()
        invariant
            k <= out@.len(),
            crate::text::strs(r@) == lv(out@).take(k as int),
        decreases out@.len() - k,
    {
        let ghost b = r@;
        r.push(crate::text::string_of(out[k].as_slice()));
        assert(crate::text::strs(r@) =~= crate::text::strs(b).push(out@[k as int]@));
        assert(lv(out@).take(k + 1) =~= lv(out@).take(k as int).push(out@[k as int]@));
        k += 1;
    }
    assert(lv(out@).take(out@.len() as int) =~= lv(out@));
    r
}

} // verus!

verus! {

/// `s` from `i` on with every non-overlapping occurrence of `from` (leftmost first) replaced
/// by `to` (as `str::replace`, for a non-empty `from`).
pub open spec fn replace_from(s: Seq<char>, from: Seq<char>, to: Seq<char>, i: int) -> Seq<char>
    decreases s.len() + 1 - i,
{
    if i < 0 || i > s.len() {
        Seq::empty()
    } else {
        match find_from(s, from, i) {
            None => s.skip(i),
            Some(p) => if p + from.len() <= i || p + from.len() > s.len() {
                s.skip(i)
            } else {
                s.subrange(i, p) + to + replace_from(s, from, to, p + from.len())
            },
        }
    }
}

pub open spec fn replace_all_spec(s: Seq<char>, from: Seq<char>, to: Seq<char>) -> Seq<char> {
    replace_from(s, from, to, 0)
}

/// Replace every occurrence of a non-empty `from` by `to`.
pub fn replace_all(s: &[char], from: &[char], to: &[char]) -> (r: Vec<char>)
    requires
        from.len() > 0,
    ensures
        r@ == replace_all_spec(s@, from@, to@),
{
    let mut out: Vec<char> = Vec::new();
    let mut i: usize = 0;
    assert(out@ + replace_from(s@, from@, to@, 0) =~= replace_from(s@, from@, to@, 0));
    loop
        invariant
            i <= s.len(),
            from.len() > 0,
            replace_all_spec(s@, from@, to@) == out@ + replace_from(s@, from@, to@, i as int),
        decreases s.len() + 1 - i,
    {
        proof {
            lemma_find_from(s@, from@, i as int);
        }
        match find_at(s, from, i) {
            None => {
                let rest = slice_skip(s, i);
                let ghost b = out@;
                crate::text::extend_chars(&mut out, rest);
                return out;
            },
            Some(p) => {
                let ghost b = out@;
                crate::text::extend_chars(&mut out, slice_range(s, i, p).as_slice());
                crate::text::extend_chars(&mut out, to);
                assert(b + (s@.subrange(i as int, p as int) + to@ + replace_from(s@, from@, to@, p + from.len()))
                    =~= out@ + replace_from(s@, from@, to@, p + from.len()));
                i = p + from.len();
            },
        }
    }
}

/// The end of a string literal whose quote `q` opened before `j` (one past the closing
/// quote, or the end); a backslash with a character after it escapes that character.
pub open spec fn lit_end(b: Seq<char>, j: int, q: char) -> int
    decreases b.len() - j,
{
    if j < 0 || j >= b.len() {
        j
    } else if b[j] == '\\' && j + 1 < b.len() {
        lit_end(b, j + 2, q)
    } else if b[j] == q {
        j + 1
    } else {
        lit_end(b, j + 1, q)
    }
}

/// A string literal from `j` on escapes a non-ASCII character (which the byte-slicing
/// rewrite cannot copy).
pub open spec fn lit_bad(b: Seq<char>, j: int, q: char) -> bool
    decreases b.len() - j,
{
    if j < 0 || j >= b.len() {
        false
    } else if b[j] == '\\' && j + 1 < b.len() {
        (b[j + 1] as u32) >= 0x80 || lit_bad(b, j + 2, q)
    } else if b[j] == q {
        false
    } else {
        lit_bad(b, j + 1, q)
    }
}

/// The start of the spaces and tabs run ending at `j`.
pub open spec fn back_sp_tab(b: Seq<char>, j: int) -> int
    decreases j,
{
    if 0 < j <= b.len() && (b[j - 1] == ' ' || b[j - 1] == '\t') {
        back_sp_tab(b, j - 1)
    } else {
        j
    }
}

/// `word` at `i` may be rewritten: not after an identifier character, a property-access
/// `.` (a spread `...` is fine) or an accessor keyword (`get `/`set `), and not followed by
/// an identifier character or `:` (an object key).
pub open spec fn rewritable_at(b: Seq<char>, w: Seq<char>, i: int) -> bool {
    let prop_dot = i > 0 && b[i - 1] == '.' && !(i >= 2 && b[i - 2] == '.');
    let j = back_sp_tab(b, i);
    let accessor = j >= 3 && (b.subrange(j - 3, j) == "get"@ || b.subrange(j - 3, j) == "set"@) && (j
        == 3 || !is_ident(b[j - 4])) && j < i;
    let before_ok = i == 0 || (!is_ident(b[i - 1]) && !prop_dot && !accessor);
    let after = i + w.len();
    let after_ok = after >= b.len() || (!is_ident(b[after]) && b[after] != ':');
    occurs_at(b, w, i) && before_ok && after_ok
}

/// `b` from `i` on with each rewritable whole-word `w` replaced by `repl`; string literals
/// are copied as they are.
pub open spec fn rw_from(b: Seq<char>, w: Seq<char>, repl: Seq<char>, i: int) -> Seq<char>
    decreases b.len() - i,
{
    if i < 0 || i >= b.len() {
        Seq::empty()
    } else if b[i] == '"' || b[i] == '\'' || b[i] == '`' {
        let k = lit_end(b, i + 1, b[i]);
        if k <= i || k > b.len() {
            Seq::empty()
        } else {
            b.subrange(i, k) + rw_from(b, w, repl, k)
        }
    } else if w.len() > 0 && rewritable_at(b, w, i) {
        repl + rw_from(b, w, repl, i + w.len())
    } else {
        seq![b[i]] + rw_from(b, w, repl, i + 1)
    }
}

/// The rewrite meets an escaped non-ASCII character in a string literal.
pub open spec fn rw_bad(b: Seq<char>, w: Seq<char>, i: int) -> bool
    decreases b.len() - i,
{
    if i < 0 || i >= b.len() {
        false
    } else if b[i] == '"' || b[i] == '\'' || b[i] == '`' {
        let k = lit_end(b, i + 1, b[i]);
        if k <= i || k > b.len() {
            false
        } else {
            lit_bad(b, i + 1, b[i]) || rw_bad(b, w, k)
        }
    } else if w.len() > 0 && rewritable_at(b, w, i) {
        rw_bad(b, w, i + w.len())
    } else {
        rw_bad(b, w, i + 1)
    }
}

proof fn lemma_lit_end(b: Seq<char>, j: int, q: char)
    requires
        0 <= j <= b.len(),
    ensures
        j <= lit_end(b, j, q) <= b.len(),
    decreases b.len() - j,
{
    if j < b.len() {
        if b[j] == '\\' && j + 1 < b.len() {
            lemma_lit_end(b, j + 2, q);
        } else if b[j] != q {
            lemma_lit_end(b, j + 1, q);
        }
    }
}

fn lit_end_exec(b: &[char], j: usize, q: char) -> (r: usize)
    requires
        j <= b.len(),
    ensures
        r == lit_end(b@, j as int, q),
        j <= r <= b.len(),
{
    proof {
        lemma_lit_end(b@, j as int, q);
    }
    let mut x = j;
    while x < b.len()
        invariant
            j <= x <= b.len(),
            lit_end(b@, j as int, q) == lit_end(b@, x as int, q),
        decreases b.len() - x,
    {
        if b[x] == '\\' && x + 1 < b.len() {
            x += 2;
        } else if b[x] == q {
            return x + 1;
        } else {
            x += 1;
        }
    }
    x
}

fn rewritable_exec(b: &[char], w: &[char], i: usize) -> (r: bool)
    requires
        i < b.len(),
    ensures
        r == rewritable_at(b@, w@, i as int),
{
    if !occurs_at_exec(b, w, i) {
        return false;
    }
    let prop_dot = i > 0 && b[i - 1] == '.' && !(i >= 2 && b[i - 2] == '.');
    let mut j = i;
    while j > 0 && (b[j - 1] == ' ' || b[j - 1] == '\t')
        invariant
            j <= i < b.len(),
            back_sp_tab(b@, i as int) == back_sp_tab(b@, j as int),
        decreases j,
    {
        j -= 1;
    }
    let accessor = j >= 3 && ((b[j - 3] == 'g' && b[j - 2] == 'e' && b[j - 1] == 't') || (b[j - 3]
        == 's' && b[j - 2] == 'e' && b[j - 1] == 't')) && (j == 3 || !is_ident_exec(b[j - 4]))
        && j < i;
    proof {
        reveal_strlit("get");
        reveal_strlit("set");
        if j >= 3 {
            let sub = b@.subrange(j - 3, j as int);
            assert(sub[0] == b@[j - 3] && sub[1] == b@[j - 2] && sub[2] == b@[j - 1]);
            if b@[j - 3] == 'g' && b@[j - 2] == 'e' && b@[j - 1] == 't' {
                assert(sub =~= "get"@);
            }
            if b@[j - 3] == 's' && b@[j - 2] == 'e' && b@[j - 1] == 't' {
                assert(sub =~= "set"@);
            }
        }
    }
    let before_ok = i == 0 || (!is_ident_exec(b[i - 1]) && !prop_dot && !accessor);
    let after = i + w.len();
    let after_ok = after >= b.len() || (!is_ident_exec(b[after]) && b[after] != ':');
    before_ok && after_ok
}

fn lit_bad_exec(b: &[char], j: usize, q: char) -> (r: bool)
    requires
        j <= b.len(),
    ensures
        r == lit_bad(b@, j as int, q),
{
    let mut x = j;
    while x < b.len()
        invariant
            j <= x <= b.len(),
            lit_bad(b@, j as int, q) == lit_bad(b@, x as int, q),
        decreases b.len() - x,
    {
        if b[x] == '\\' && x + 1 < b.len() {
            if (b[x + 1] as u32) >= 0x80 {
                return true;
            }
            x += 2;
        } else if b[x] == q {
            return false;
        } else {
            x += 1;
        }
    }
    false
}

/// Whether rewriting `word` in `text` meets an escaped non-ASCII character in a string
/// literal (see `replace_word`).
pub fn replace_word_fails(b: &[char], w: &[char]) -> (r: bool)
    ensures
        r == rw_bad(b@, w@, 0),
{
    let mut i: usize = 0;
    while i < b.len()
        invariant
            i <= b.len(),
            rw_bad(b@, w@, 0) == rw_bad(b@, w@, i as int),
        decreases b.len() - i,
    {
        let c = b[i];
        if c == '"' || c == '\'' || c == '`' {
            let k = lit_end_exec(b, i + 1, c);
            if lit_bad_exec(b, i + 1, c) {
                return true;
            }
            i = k;
        } else if w.len() > 0 && rewritable_exec(b, w, i) {
            i = i + w.len();
        } else {
            i += 1;
        }
    }
    false
}

} // verus!

verus! {

/// Replace each rewritable whole-word `w` of `b` by `repl`, copying string literals as they
/// are (see `rw_from`).
pub fn replace_word(b: &[char], w: &[char], repl: &[char]) -> (r: Vec<char>)
    requires
        w.len() > 0,
        !rw_bad(b@, w@, 0),
    ensures
        r@ == rw_from(b@, w@, repl@, 0),
{
    let mut out: Vec<char> = Vec::new();
    let mut i: usize = 0;
    assert(out@ + rw_from(b@, w@, repl@, 0) =~= rw_from(b@, w@, repl@, 0));
    while i < b.len()
        invariant
            i <= b.len(),
            w.len() > 0,
            !rw_bad(b@, w@, i as int),
            rw_from(b@, w@, repl@, 0) == out@ + rw_from(b@, w@, repl@, i as int),
        decreases b.len() - i,
    {
        let c = b[i];
        let ghost before = out@;
        if c == '"' || c == '\'' || c == '`' {
            let k = lit_end_exec(b, i + 1, c);
            crate::text::extend_chars(&mut out, slice_range(b, i, k).as_slice());
            assert(before + (b@.subrange(i as int, k as int) + rw_from(b@, w@, repl@, k as int)) =~= out@
                + rw_from(b@, w@, repl@, k as int));
            i = k;
        } else if rewritable_exec(b, w, i) {
            crate::text::extend_chars(&mut out, repl);
            assert(before + (repl@ + rw_from(b@, w@, repl@, i + w.len())) =~= out@ + rw_from(
                b@,
                w@,
                repl@,
                i + w.len(),
            ));
            i = i + w.len();
        } else {
            out.push(c);
            assert(before + (seq![c] + rw_from(b@, w@, repl@, i + 1)) =~= out@ + rw_from(
                b@,
                w@,
                repl@,
                i + 1,
            ));
            i += 1;
        }
    }
    assert(out@ + Seq::<char>::empty() =~= out@);
    out
}

/// The shared-binding reference of `name`.
pub open spec fn ms_ref(name: Seq<char>) -> Seq<char> {
    "globalThis.__ms."@ + name
}

/// Route one shared binding through `globalThis.__ms`: its references rewritten, its
/// declaration turned into an assignment. `None` where a string literal escapes a non-ASCII
/// character.
pub open spec fn rewrite_one(code: Seq<char>, name: Seq<char>) -> Option<Seq<char>> {
    if rw_bad(code, name, 0) {
        None
    } else {
        let g = ms_ref(name);
        let o1 = rw_from(code, name, g, 0);
        let o2 = replace_all_spec(o1, "let "@ + g, g);
        let o3 = replace_all_spec(o2, "var "@ + g, g);
        Some(replace_all_spec(o3, "const "@ + g, g))
    }
}

pub open spec fn rewrite_fold(code: Seq<char>, names: Seq<Seq<char>>) -> Option<Seq<char>>
    decreases names.len(),
{
    if names.len() == 0 {
        Some(code)
    } else {
        match rewrite_fold(code, names.drop_last()) {
            None => None,
            Some(c) => rewrite_one(c, names.last()),
        }
    }
}

/// Shared bindings routed through `globalThis.__ms`, behind its initialization.
pub open spec fn rewrite_shared_spec(code: Seq<char>, names: Seq<Seq<char>>) -> Option<Seq<char>> {
    match rewrite_fold(code, names) {
        Some(o) => Some("globalThis.__ms = globalThis.__ms || {};\n"@ + o),
        None => None,
    }
}

fn rewrite_one_exec(code: &Vec<char>, name: &[char]) -> (r: Option<Vec<char>>)
    requires
        name.len() > 0,
    ensures
        match r {
            Some(v) => rewrite_one(code@, name@) == Some(v@),
            None => rewrite_one(code@, name@) is None,
        },
{
    if replace_word_fails(code.as_slice(), name) {
        return None;
    }
    let mut g = chars_of("globalThis.__ms.");
    crate::text::extend_chars(&mut g, name);
    let o1 = replace_word(code.as_slice(), name, g.as_slice());
    let mut lg = chars_of("let ");
    crate::text::extend_chars(&mut lg, g.as_slice());
    let mut vg = chars_of("var ");
    crate::text::extend_chars(&mut vg, g.as_slice());
    let mut cg = chars_of("const ");
    crate::text::extend_chars(&mut cg, g.as_slice());
    proof {
        reveal_strlit("let ");
        reveal_strlit("var ");
        reveal_strlit("const ");
    }
    let o2 = replace_all(o1.as_slice(), lg.as_slice(), g.as_slice());
    let o3 = replace_all(o2.as_slice(), vg.as_slice(), g.as_slice());
    Some(replace_all(o3.as_slice(), cg.as_slice(), g.as_slice()))
}

/// Route the shared mock bindings `names` through `globalThis.__ms` so a mock factory's
/// scope and the module share them (see `rewrite_shared_spec`); `None` where a rewrite
/// meets a string literal escaping a non-ASCII character.
pub fn rewrite_shared_lets(code: &str, names: &[String]) -> (r: Option<String>)
    requires
        forall|i: int| 0 <= i < names@.len() ==> (#[trigger] names@[i])@.len() > 0,
    ensures
        crate::coverage::opt_string(r) == rewrite_shared_spec(code@, crate::text::strs(names@)),
{
    let ghost ns = crate::text::strs(names@);
    let mut out = chars_of(code);
    let mut i: usize = 0;
    assert(ns.take(0) =~= Seq::<Seq<char>>::empty());
    while i < names.len()
        invariant
            i <= names@.len(),
            ns == crate::text::strs(names@),
            forall|k: int| 0 <= k < names@.len() ==> (#[trigger] names@[k])@.len() > 0,
            rewrite_fold(code@, ns.take(i as int)) == Some(out@),
        decreases names@.len() - i,
    {
        assert(ns.take(i + 1).drop_last() =~= ns.take(i as int));
        assert(ns.take(i + 1).last() == names@[i as int]@);
        let n = chars_of(names[i].as_str());
        match rewrite_one_exec(&out, n.as_slice()) {
            None => {
                proof {
                    lemma_rewrite_fold_none(code@, ns, i as int + 1);
                }
                return None;
            },
            Some(o) => {
                out = o;
            },
        }
        i += 1;
    }
    assert(ns.take(names@.len() as int) =~= ns);
    let mut r = chars_of("globalThis.__ms = globalThis.__ms || {};\n");
    crate::text::extend_chars(&mut r, out.as_slice());
    Some(crate::text::string_of(r.as_slice()))
}

proof fn lemma_rewrite_fold_none(code: Seq<char>, ns: Seq<Seq<char>>, j: int)
    requires
        0 <= j <= ns.len(),
        rewrite_fold(code, ns.take(j)) is None,
    ensures
        rewrite_fold(code, ns) is None,
    decreases ns.len() - j,
{
    if j < ns.len() {
        assert(ns.take(j + 1).drop_last() =~= ns.take(j));
        lemma_rewrite_fold_none(code, ns, j + 1);
    } else {
        assert(ns.take(j) =~= ns);
    }
}

/// Export getters made configurable and `__toESM` made to return the very exports object,
/// so `spyOn` and every importer see one shared, redefinable namespace.
pub open spec fn postprocess_spec(code: Seq<char>) -> Seq<char> {
    let c1 = replace_all_spec(
        code,
        "var __defProp = Object.defineProperty;"@,
        "var __defProp = (o, k, d) => Object.defineProperty(o, k, Object.assign({ configurable: true }, d));"@,
    );
    replace_all_spec(
        c1,
        "var __toESM = "@,
        "var __toESM = (m) => (m && m.__esModule ? m : (m && (typeof m === \"object\" || typeof m === \"function\") && !(\"default\" in m) && Object.defineProperty(m, \"default\", { value: m, configurable: true }), m)); var __toESM_unused = "@,
    )
}

pub fn postprocess_mr_cjs(code: &str) -> (r: String)
    ensures
        r@ == postprocess_spec(code@),
{
    let c = chars_of(code);
    let a1 = chars_of("var __defProp = Object.defineProperty;");
    let b1 = chars_of(
        "var __defProp = (o, k, d) => Object.defineProperty(o, k, Object.assign({ configurable: true }, d));",
    );
    let a2 = chars_of("var __toESM = ");
    let b2 = chars_of(
        "var __toESM = (m) => (m && m.__esModule ? m : (m && (typeof m === \"object\" || typeof m === \"function\") && !(\"default\" in m) && Object.defineProperty(m, \"default\", { value: m, configurable: true }), m)); var __toESM_unused = ",
    );
    proof {
        reveal_strlit("var __defProp = Object.defineProperty;");
        reveal_strlit("var __toESM = ");
    }
    let c1 = replace_all(c.as_slice(), a1.as_slice(), b1.as_slice());
    let c2 = replace_all(c1.as_slice(), a2.as_slice(), b2.as_slice());
    crate::text::string_of(c2.as_slice())
}

/// What the module runner does to bundler CJS output of a source `raw`: the runtime
/// post-processing, mock hoisting, then routing the shared mock bindings (see
/// `rewrite_shared_lets`; `None` exactly where that rewrite gives `None`).
pub open spec fn finish_spec(out: Seq<char>, raw: Seq<char>) -> Option<Seq<char>> {
    let code = hoist_spec(postprocess_spec(out));
    let shared = shared_mock_lets_spec(raw);
    if shared.len() == 0 {
        Some(code)
    } else {
        rewrite_shared_spec(code, shared)
    }
}

pub fn finish_mr_cjs(out: &str, raw: &str) -> (r: Option<String>)
    ensures
        crate::coverage::opt_string(r) == finish_spec(out@, raw@),
{
    let code = hoist_mock_setup(postprocess_mr_cjs(out).as_str());
    let shared = shared_mock_lets(raw);
    if shared.len() == 0 {
        return Some(code);
    }
    proof {
        assert forall|i: int| 0 <= i < shared@.len() implies (#[trigger] shared@[i])@.len() > 0 by {
            lemma_shared_nonempty(raw@, i);
        }
    }
    rewrite_shared_lets(code.as_str(), shared.as_slice())
}

proof fn lemma_shared_fold_nonempty(src: Seq<char>, f: Seq<char>, ls: Seq<Seq<char>>)
    ensures
        forall|i: int| 0 <= i < shared_fold(src, f, ls).len() ==> #[trigger] shared_fold(src, f, ls)[i].len() > 0,
    decreases ls.len(),
{
    if ls.len() > 0 {
        lemma_shared_fold_nonempty(src, f, ls.drop_last());
        let out = shared_fold(src, f, ls.drop_last());
        let r = shared_fold(src, f, ls);
        assert forall|i: int| 0 <= i < r.len() implies #[trigger] r[i].len() > 0 by {
            if i < out.len() {
                assert(r[i] == out[i]);
            }
        }
    }
}

proof fn lemma_shared_nonempty(raw: Seq<char>, i: int)
    requires
        0 <= i < shared_mock_lets_spec(raw).len(),
    ensures
        shared_mock_lets_spec(raw)[i].len() > 0,
{
    let ms = mocks_from(raw, 0);
    if ms.len() > 0 {
        lemma_shared_fold_nonempty(raw, join_lines(ms.map_values(|p: (Seq<char>, Seq<char>)| p.1)), lines_spec(raw));
    }
}

} // verus!

verus! {

/// What `format!("{:?}", s)` prints for a string: the string in double quotes with Rust's
/// `Debug` escapes. For the module specifiers it quotes here JavaScript reads it as the
/// same string; it is no general JavaScript literal (a NUL before a digit prints as `\0`
/// followed by that digit, a legacy octal escape that strict mode rejects).
pub uninterp spec fn debug_str(s: Seq<char>) -> Seq<char>;

/// `format!("{:?}", s)`; the contract names the result.
#[verifier::external_body]
fn debug_quote(s: &str) -> (r: String)
    ensures
        r@ == debug_str(s@),
{
    format!("{:?}", s)
}

/// Each declaration on a line of its own.
pub open spec fn decl_lines(ds: Seq<Seq<char>>) -> Seq<char>
    decreases ds.len(),
{
    if ds.len() == 0 {
        Seq::empty()
    } else {
        decl_lines(ds.drop_last()) + ds.last() + "\n"@
    }
}

/// One `vi.mock(spec, factory);` line per mock.
pub open spec fn mock_lines(ms: Seq<(Seq<char>, Seq<char>)>) -> Seq<char>
    decreases ms.len(),
{
    if ms.len() == 0 {
        Seq::empty()
    } else {
        mock_lines(ms.drop_last()) + "vi.mock("@ + debug_str(ms.last().0) + ", "@ + ms.last().1
            + ");\n"@
    }
}

/// The mock prepass module of a test source: `vi` and `React` imported, the source's
/// `vi.hoisted` declarations, then its mocks.
pub open spec fn prepass_body(src: Seq<char>) -> Seq<char> {
    "import { vi } from 'vitest';\nimport React from 'react';\n"@ + decl_lines(
        crate::modules::hoisted_from(src, 0),
    ) + mock_lines(mocks_from(src, 0))
}

/// The prepass of a test source.
pub enum Prepass {
    /// The source mocks nothing.
    NoMocks,
    /// The prepass source.
    Source(String),
    /// A shared binding could not be rewritten (see `rewrite_shared_lets`).
    Unrewritable,
}

/// The prepass: none without mocks; else its body with the shared mock bindings routed
/// through `globalThis.__ms`.
pub open spec fn prepass_ok(src: Seq<char>, r: Prepass) -> bool {
    if mocks_from(src, 0).len() == 0 {
        r is NoMocks
    } else {
        let shared = shared_mock_lets_spec(src);
        if shared.len() == 0 {
            r matches Prepass::Source(t) && t@ == prepass_body(src)
        } else {
            match rewrite_shared_spec(prepass_body(src), shared) {
                Some(t2) => r matches Prepass::Source(t) && t@ == t2,
                None => r is Unrewritable,
            }
        }
    }
}

pub fn prepass_source(src: &str) -> (r: Prepass)
    ensures
        prepass_ok(src@, r),
{
    let s = chars_of(src);
    let mocks = extract_mocks(s.as_slice());
    if mocks.len() == 0 {
        return Prepass::NoMocks;
    }
    let mut v = chars_of("import { vi } from 'vitest';\nimport React from 'react';\n");
    let ghost head = v@;
    let decls = crate::modules::extract_hoisted(src);
    let ghost dv = crate::text::strs(decls@);
    let mut i: usize = 0;
    assert(dv.take(0) =~= Seq::<Seq<char>>::empty());
    assert(v@ =~= head + decl_lines(dv.take(0)));
    while i < decls.len()
        invariant
            i <= decls@.len(),
            dv == crate::text::strs(decls@),
            v@ == head + decl_lines(dv.take(i as int)),
        decreases decls@.len() - i,
    {
        assert(dv.take(i + 1).drop_last() =~= dv.take(i as int));
        assert(dv.take(i + 1).last() == decls@[i as int]@);
        crate::text::extend_chars(&mut v, chars_of(decls[i].as_str()).as_slice());
        v.push('\n');
        proof {
            reveal_strlit("\n");
        }
        assert(v@ =~= head + decl_lines(dv.take(i + 1)));
        i += 1;
    }
    assert(dv.take(decls@.len() as int) =~= dv);
    let ghost mid = v@;
    let ghost mv = pair_views(mocks@);
    let mut k: usize = 0;
    assert(mv.take(0) =~= Seq::<(Seq<char>, Seq<char>)>::empty());
    assert(v@ =~= mid + mock_lines(mv.take(0)));
    while k < mocks.len()
        invariant
            k <= mocks@.len(),
            mv == pair_views(mocks@),
            v@ == mid + mock_lines(mv.take(k as int)),
        decreases mocks@.len() - k,
    {
        assert(mv.take(k + 1).drop_last() =~= mv.take(k as int));
        assert(mv.take(k + 1).last() == mv[k as int]);
        let spec = crate::text::string_of(mocks[k].0.as_slice());
        let q = debug_quote(spec.as_str());
        crate::text::extend_chars(&mut v, chars_of("vi.mock(").as_slice());
        crate::text::extend_chars(&mut v, chars_of(q.as_str()).as_slice());
        crate::text::extend_chars(&mut v, chars_of(", ").as_slice());
        crate::text::extend_chars(&mut v, mocks[k].1.as_slice());
        crate::text::extend_chars(&mut v, chars_of(");\n").as_slice());
        assert(v@ =~= mid + mock_lines(mv.take(k + 1)));
        k += 1;
    }
    assert(mv.take(mocks@.len() as int) =~= mv);
    let content = crate::text::string_of(v.as_slice());
    assert(content@ == prepass_body(src@));
    let shared = shared_mock_lets(src);
    if shared.len() == 0 {
        return Prepass::Source(content);
    }
    proof {
        assert forall|j: int| 0 <= j < shared@.len() implies (#[trigger] shared@[j])@.len() > 0 by {
            lemma_shared_nonempty(src@, j);
        }
    }
    match rewrite_shared_lets(content.as_str(), shared.as_slice()) {
        Some(t) => Prepass::Source(t),
        None => Prepass::Unrewritable,
    }
}

/// A transformed CommonJS module wrapped the way V8 compiles it.
pub open spec fn cjs_wrapper_spec(raw: Seq<char>) -> Seq<char> {
    "(function (exports, module, require, __filename, __dirname) {\n"@ + raw + "\n})"@
}

pub fn cjs_wrapper(raw: &str) -> (r: String)
    ensures
        r@ == cjs_wrapper_spec(raw@),
{
    let mut v = chars_of("(function (exports, module, require, __filename, __dirname) {\n");
    crate::text::extend_chars(&mut v, chars_of(raw).as_slice());
    crate::text::extend_chars(&mut v, chars_of("\n})").as_slice());
    crate::text::string_of(v.as_slice())
}

} // verus!

