//! Character-level text helpers shared by the scanners. Text is handled as a
//! sequence of `char`s; `&str` inputs are read into `Vec<char>` and results are
//! rebuilt into `String`s.

use vstd::prelude::*;

verus! {

/// `std::string::String::push`: appends one character.
#[verifier::external_body]
fn push_char(s: &mut String, c: char)
    ensures
        final(s)@ == old(s)@.push(c),
{
    s.push(c);
}

/// The characters of `s`, in order.
pub fn chars_of(s: &str) -> (v: Vec<char>)
    ensures
        v@ == s@,
{
    let mut v: Vec<char> = Vec::new();
    for c in it: s.chars()
        invariant
            v@ == it.seq().take(it.index() as int),
            it.seq() == s@,
    {
        v.push(c);
    }
    v
}

/// A `String` holding exactly the characters `v`.
pub fn string_of(v: &[char]) -> (s: String)
    ensures
        s@ == v@,
{
    let mut s = String::new();
    let mut i: usize = 0;
    while i < v.len()
        invariant
            i <= v.len(),
            s@ == v@.take(i as int),
        decreases v.len() - i,
    {
        push_char(&mut s, v[i]);
        assert(v@.take(i as int).push(v@[i as int]) =~= v@.take(i + 1));
        i += 1;
    }
    assert(v@.take(v.len() as int) =~= v@);
    s
}

} // verus!

verus! {

/// `n` occurs in `h` starting at index `i`.
pub open spec fn occurs_at(h: Seq<char>, n: Seq<char>, i: int) -> bool {
    0 <= i && i + n.len() <= h.len() && h.subrange(i, i + n.len()) == n
}

/// The least index `>= from` at which `n` occurs in `h` (like `h[from..].find(n)`, shifted
/// back to an absolute index).
pub open spec fn find_from(h: Seq<char>, n: Seq<char>, from: int) -> Option<int>
    decreases h.len() + 1 - from,
{
    if from < 0 || from > h.len() || from + n.len() > h.len() {
        None
    } else if occurs_at(h, n, from) {
        Some(from)
    } else {
        find_from(h, n, from + 1)
    }
}

/// What `find_from` returns: the result is an occurrence, no earlier one exists.
pub proof fn lemma_find_from(h: Seq<char>, n: Seq<char>, from: int)
    requires
        0 <= from,
    ensures
        match find_from(h, n, from) {
            Some(i) => from <= i && occurs_at(h, n, i) && forall|j: int|
                from <= j < i ==> !occurs_at(h, n, j),
            None => forall|j: int| from <= j ==> !occurs_at(h, n, j),
        },
    decreases h.len() + 1 - from,
{
    if from > h.len() || from + n.len() > h.len() {
    } else if occurs_at(h, n, from) {
    } else {
        lemma_find_from(h, n, from + 1);
    }
}

/// Whether `n` occurs at index `i` of `h`.
pub fn occurs_at_exec(h: &[char], n: &[char], i: usize) -> (b: bool)
    ensures
        b == occurs_at(h@, n@, i as int),
{
    if i > h.len() || n.len() > h.len() - i {
        return false;
    }
    let mut k: usize = 0;
    while k < n.len()
        invariant
            i + n.len() <= h.len(),
            k <= n.len(),
            forall|j: int| 0 <= j < k ==> h@[i + j] == n@[j],
        decreases n.len() - k,
    {
        if h[i + k] != n[k] {
            assert(h@.subrange(i as int, i + n.len())[k as int] != n@[k as int]);
            return false;
        }
        k += 1;
    }
    assert(h@.subrange(i as int, i + n.len()) =~= n@);
    true
}

/// First occurrence of `n` in `h` at or after `from`.
pub fn find_at(h: &[char], n: &[char], from: usize) -> (r: Option<usize>)
    ensures
        r == (match find_from(h@, n@, from as int) {
            Some(i) => Some(i as usize),
            None => None::<usize>,
        }),
        r matches Some(i) ==> i + n.len() <= h.len(),
{
    let mut i = from;
    while i <= h.len() && n.len() <= h.len() - i
        invariant
            from <= i,
            find_from(h@, n@, from as int) == find_from(h@, n@, i as int),
        decreases h.len() + 1 - i,
    {
        if occurs_at_exec(h, n, i) {
            return Some(i);
        }
        if i == h.len() {
            assert(find_from(h@, n@, i + 1) == None::<int>);
            assert(find_from(h@, n@, i as int) == find_from(h@, n@, i + 1));
            return None;
        }
        i += 1;
    }
    None
}

/// Split `s` on every `c` (like `str::split` with a char pattern).
pub open spec fn split_spec(s: Seq<char>, c: char) -> Seq<Seq<char>>
    decreases s.len(),
{
    match find_from(s, seq![c], 0) {
        Some(i) => {
            if 0 <= i < s.len() {
                seq![s.take(i)] + split_spec(s.skip(i + 1), c)
            } else {
                seq![s]
            }
        },
        None => seq![s],
    }
}

/// Every piece of a split is no longer than the whole.
pub proof fn lemma_split_pieces_shorter(s: Seq<char>, c: char)
    ensures
        forall|k: int| 0 <= k < split_spec(s, c).len() ==> #[trigger] split_spec(s, c)[k].len()
            <= s.len(),
    decreases s.len(),
{
    match find_from(s, seq![c], 0) {
        Some(i) => {
            if 0 <= i < s.len() {
                lemma_split_pieces_shorter(s.skip(i + 1), c);
                let rest = split_spec(s.skip(i + 1), c);
                assert(split_spec(s, c) == seq![s.take(i)] + rest);
                assert forall|k: int| 0 <= k < split_spec(s, c).len() implies #[trigger] split_spec(
                    s,
                    c,
                )[k].len() <= s.len() by {
                    if k > 0 {
                        assert(split_spec(s, c)[k] == rest[k - 1]);
                    }
                }
            }
        },
        None => {},
    }
}

/// `s.split(c)` into owned pieces.
pub fn split_char(s: &[char], c: char) -> (r: Vec<Vec<char>>)
    ensures
        r@.len() == split_spec(s@, c).len(),
        forall|k: int| 0 <= k < r@.len() ==> #[trigger] r@[k]@ == split_spec(s@, c)[k],
{
    let sep: Vec<char> = vec![c];
    assert(sep@ =~= seq![c]);
    let mut out: Vec<Vec<char>> = Vec::new();
    let mut start: usize = 0;
    let ghost mut done: Seq<Seq<char>> = Seq::empty();
    assert(s@.skip(0) =~= s@);
    assert(split_spec(s@, c) =~= done + split_spec(s@.skip(0), c));
    loop
        invariant
            start <= s.len(),
            sep@ == seq![c],
            out@.len() == done.len(),
            forall|k: int| 0 <= k < out@.len() ==> #[trigger] out@[k]@ == done[k],
            split_spec(s@, c) == done + split_spec(s@.skip(start as int), c),
        decreases s.len() - start,
    {
        let rest = slice_skip(s, start);
        match find_at(rest, sep.as_slice(), 0) {
            Some(i) => {
                proof {
                    lemma_find_from(rest@, seq![c], 0);
                }
                let piece = slice_take(rest, i);
                proof {
                    assert(s@.skip(start as int).skip(i + 1) =~= s@.skip(start + i + 1));
                    let tail = split_spec(s@.skip(start + i + 1), c);
                    assert(split_spec(rest@, c) == seq![piece@] + tail);
                    assert(done + (seq![piece@] + tail) =~= done.push(piece@) + tail);
                    done = done.push(piece@);
                }
                out.push(piece);
                start = start + i + 1;
            },
            None => {
                let piece = slice_take(rest, rest.len());
                proof {
                    assert(rest@.take(rest.len() as int) =~= rest@);
                    done = done.push(piece@);
                    assert(split_spec(s@, c) =~= done);
                }
                out.push(piece);
                return out;
            },
        }
    }
}

/// The elements of `s` from index `n` on.
pub fn slice_skip(s: &[char], n: usize) -> (r: &[char])
    requires
        n <= s.len(),
    ensures
        r@ == s@.skip(n as int),
{
    let (_, b) = s.split_at(n);
    b
}

/// The first `n` elements of `s`, copied.
pub fn slice_take(s: &[char], n: usize) -> (r: Vec<char>)
    requires
        n <= s.len(),
    ensures
        r@ == s@.take(n as int),
{
    let mut r: Vec<char> = Vec::new();
    let mut i: usize = 0;
    while i < n
        invariant
            i <= n <= s.len(),
            r@ == s@.take(i as int),
        decreases n - i,
    {
        r.push(s[i]);
        assert(s@.take(i as int).push(s@[i as int]) =~= s@.take(i + 1));
        i += 1;
    }
    r
}

/// Elements `lo..hi` of `s`, copied.
pub fn slice_range(s: &[char], lo: usize, hi: usize) -> (r: Vec<char>)
    requires
        lo <= hi <= s.len(),
    ensures
        r@ == s@.subrange(lo as int, hi as int),
{
    let mut r: Vec<char> = Vec::new();
    let mut i: usize = lo;
    while i < hi
        invariant
            lo <= i <= hi <= s.len(),
            r@ == s@.subrange(lo as int, i as int),
        decreases hi - i,
    {
        r.push(s[i]);
        assert(s@.subrange(lo as int, i as int).push(s@[i as int]) =~= s@.subrange(
            lo as int,
            i + 1,
        ));
        i += 1;
    }
    r
}

} // verus!

verus! {

/// Unicode `White_Space` (what `char::is_whitespace` tests).
pub open spec fn is_ws(c: char) -> bool {
    c == '\t' || c == '\n' || c == '\u{0B}' || c == '\u{0C}' || c == '\r' || c == ' ' || c
        == '\u{85}' || c == '\u{A0}' || c == '\u{1680}' || ('\u{2000}' <= c && c <= '\u{200A}')
        || c == '\u{2028}' || c == '\u{2029}' || c == '\u{202F}' || c == '\u{205F}' || c
        == '\u{3000}'
}

/// `char::is_whitespace`.
pub fn is_ws_exec(c: char) -> (b: bool)
    ensures
        b == is_ws(c),
{
    c == '\t' || c == '\n' || c == '\u{0B}' || c == '\u{0C}' || c == '\r' || c == ' ' || c
        == '\u{85}' || c == '\u{A0}' || c == '\u{1680}' || ('\u{2000}' <= c && c <= '\u{200A}')
        || c == '\u{2028}' || c == '\u{2029}' || c == '\u{202F}' || c == '\u{205F}' || c
        == '\u{3000}'
}

/// ASCII whitespace (what `u8::is_ascii_whitespace` tests; no vertical tab).
pub open spec fn is_ascii_ws(c: char) -> bool {
    c == ' ' || c == '\t' || c == '\n' || c == '\u{0C}' || c == '\r'
}

pub fn is_ascii_ws_exec(c: char) -> (b: bool)
    ensures
        b == is_ascii_ws(c),
{
    c == ' ' || c == '\t' || c == '\n' || c == '\u{0C}' || c == '\r'
}

pub open spec fn is_ascii_alpha(c: char) -> bool {
    ('a' <= c && c <= 'z') || ('A' <= c && c <= 'Z')
}

pub open spec fn is_ascii_digit(c: char) -> bool {
    '0' <= c && c <= '9'
}

pub open spec fn is_ascii_alnum(c: char) -> bool {
    is_ascii_alpha(c) || is_ascii_digit(c)
}

/// Identifier character of JavaScript-ish source scanning: `[A-Za-z0-9_$]`.
pub open spec fn is_ident(c: char) -> bool {
    is_ascii_alnum(c) || c == '_' || c == '$'
}

pub fn is_ascii_alnum_exec(c: char) -> (b: bool)
    ensures
        b == is_ascii_alnum(c),
{
    ('a' <= c && c <= 'z') || ('A' <= c && c <= 'Z') || ('0' <= c && c <= '9')
}

pub fn is_ident_exec(c: char) -> (b: bool)
    ensures
        b == is_ident(c),
{
    is_ascii_alnum_exec(c) || c == '_' || c == '$'
}

/// `s` without leading whitespace.
pub open spec fn trim_start_spec(s: Seq<char>) -> Seq<char>
    decreases s.len(),
{
    if s.len() > 0 && is_ws(s[0]) {
        trim_start_spec(s.drop_first())
    } else {
        s
    }
}

/// `s` without trailing whitespace.
pub open spec fn trim_end_spec(s: Seq<char>) -> Seq<char>
    decreases s.len(),
{
    if s.len() > 0 && is_ws(s.last()) {
        trim_end_spec(s.drop_last())
    } else {
        s
    }
}

/// `str::trim`.
pub open spec fn trim_spec(s: Seq<char>) -> Seq<char> {
    trim_end_spec(trim_start_spec(s))
}

/// `str::trim` on characters.
pub fn trim_chars(s: &[char]) -> (r: Vec<char>)
    ensures
        r@ == trim_spec(s@),
{
    let mut a: usize = 0;
    assert(s@.skip(0) =~= s@);
    while a < s.len() && is_ws_exec(s[a])
        invariant
            a <= s.len(),
            trim_start_spec(s@) == trim_start_spec(s@.skip(a as int)),
        decreases s.len() - a,
    {
        assert(s@.skip(a as int).drop_first() =~= s@.skip(a + 1));
        a += 1;
    }
    let mut b: usize = s.len();
    assert(s@.skip(a as int).take((b - a) as int) =~= s@.skip(a as int));
    while b > a && is_ws_exec(s[b - 1])
        invariant
            a <= b <= s.len(),
            trim_start_spec(s@) == s@.skip(a as int),
            trim_spec(s@) == trim_end_spec(s@.subrange(a as int, b as int)),
        decreases b,
    {
        assert(s@.subrange(a as int, b as int).drop_last() =~= s@.subrange(a as int, b - 1));
        b -= 1;
    }
    slice_range(s, a, b)
}

/// ASCII lowercasing of one character.
pub open spec fn lower_char(c: char) -> char {
    if 'A' <= c && c <= 'Z' {
        ((c as u32) + 32) as char
    } else {
        c
    }
}

pub fn lower_char_exec(c: char) -> (r: char)
    ensures
        r == lower_char(c),
{
    if 'A' <= c && c <= 'Z' {
        let v: u32 = (c as u32) + 32;
        let r = char_from_ascii(v);
        r
    } else {
        c
    }
}

/// An ASCII code point as a `char`.
fn char_from_ascii(v: u32) -> (c: char)
    requires
        v < 128,
    ensures
        c == v as char,
{
    (v as u8) as char
}

} // verus!

verus! {

/// Whether two character sequences are equal.
pub fn chars_eq(a: &[char], b: &[char]) -> (r: bool)
    ensures
        r == (a@ == b@),
{
    if a.len() != b.len() {
        return false;
    }
    let mut i: usize = 0;
    while i < a.len()
        invariant
            i <= a.len() == b.len(),
            forall|j: int| 0 <= j < i ==> a@[j] == b@[j],
        decreases a.len() - i,
    {
        if a[i] != b[i] {
            return false;
        }
        i += 1;
    }
    assert(a@ =~= b@);
    true
}

/// `n` occurs somewhere in `h` (like `str::contains`).
pub open spec fn contains_seq(h: Seq<char>, n: Seq<char>) -> bool {
    exists|j: int| occurs_at(h, n, j)
}

pub fn contains_chars(h: &[char], n: &[char]) -> (b: bool)
    ensures
        b == contains_seq(h@, n@),
{
    let r = find_at(h, n, 0);
    proof {
        lemma_find_from(h@, n@, 0);
    }
    r.is_some()
}

/// ASCII lowercasing (like `str::to_ascii_lowercase`).
pub fn lower_chars(s: &[char]) -> (r: Vec<char>)
    ensures
        r@ == s@.map_values(|c: char| lower_char(c)),
{
    let mut r: Vec<char> = Vec::new();
    let mut i: usize = 0;
    while i < s.len()
        invariant
            i <= s.len(),
            r@ == s@.take(i as int).map_values(|c: char| lower_char(c)),
        decreases s.len() - i,
    {
        r.push(lower_char_exec(s[i]));
        assert(s@.take(i + 1).map_values(|c: char| lower_char(c)) =~= s@.take(i as int).map_values(
            |c: char| lower_char(c),
        ).push(lower_char(s@[i as int])));
        i += 1;
    }
    assert(s@.take(s.len() as int) =~= s@);
    r
}

/// The views of a sequence of strings.
pub open spec fn strs(v: Seq<String>) -> Seq<Seq<char>> {
    v.map_values(|s: String| s@)
}

} // verus!

verus! {

/// Append `w` to `v`.
pub fn extend_chars(v: &mut Vec<char>, w: &[char])
    ensures
        final(v)@ == old(v)@ + w@,
{
    let mut i: usize = 0;
    while i < w.len()
        invariant
            i <= w.len(),
            v@ == old(v)@ + w@.take(i as int),
        decreases w.len() - i,
    {
        v.push(w[i]);
        assert(old(v)@ + w@.take(i + 1) =~= (old(v)@ + w@.take(i as int)).push(w@[i as int]));
        i += 1;
    }
    assert(w@.take(w.len() as int) =~= w@);
}

/// A copy of a list of strings.
pub fn clone_strings(v: &Vec<String>) -> (r: Vec<String>)
    ensures
        strs(r@) == strs(v@),
{
    let mut r: Vec<String> = Vec::new();
    let mut i: usize = 0;
    while i < v.len()
        invariant
            i <= v.len(),
            strs(r@) == strs(v@.take(i as int)),
        decreases v.len() - i,
    {
        r.push(v[i].clone());
        assert(strs(v@.take(i + 1)) =~= strs(v@.take(i as int)).push(v@[i as int]@));
        i += 1;
    }
    assert(v@.take(v.len() as int) =~= v@);
    r
}

} // verus!

verus! {

/// The greatest index `<= i` at which `n` occurs in `h`.
pub open spec fn rfind_from(h: Seq<char>, n: Seq<char>, i: int) -> Option<int>
    decreases i + 1,
{
    if i < 0 {
        None
    } else if occurs_at(h, n, i) {
        Some(i)
    } else {
        rfind_from(h, n, i - 1)
    }
}

proof fn lemma_rfind_from(h: Seq<char>, n: Seq<char>, i: int)
    ensures
        rfind_from(h, n, i) matches Some(j) ==> 0 <= j <= i && occurs_at(h, n, j),
    decreases i + 1,
{
    if i >= 0 && !occurs_at(h, n, i) {
        lemma_rfind_from(h, n, i - 1);
    }
}

/// What `rfind_from` returns: an occurrence at or before `i`.
pub proof fn lemma_rfind_from_pub(h: Seq<char>, n: Seq<char>, i: int)
    ensures
        rfind_from(h, n, i) matches Some(j) ==> 0 <= j <= i && occurs_at(h, n, j),
{
    lemma_rfind_from(h, n, i);
}

/// The last occurrence of `n` in `h` (like `str::rfind`).
pub open spec fn rfind_spec(h: Seq<char>, n: Seq<char>) -> Option<int> {
    rfind_from(h, n, h.len() - n.len())
}

pub fn rfind_chars(h: &[char], n: &[char]) -> (r: Option<usize>)
    ensures
        r == (match rfind_spec(h@, n@) {
            Some(i) => Some(i as usize),
            None => None::<usize>,
        }),
        r matches Some(i) ==> i + n.len() <= h.len() && rfind_spec(h@, n@) == Some(i as int),
{
    proof {
        lemma_rfind_from(h@, n@, h@.len() - n@.len());
    }
    if n.len() > h.len() {
        return None;
    }
    let mut i: usize = h.len() - n.len();
    loop
        invariant
            i + n.len() <= h.len(),
            rfind_spec(h@, n@) == rfind_from(h@, n@, i as int),
        decreases i,
    {
        if occurs_at_exec(h, n, i) {
            return Some(i);
        }
        if i == 0 {
            assert(rfind_from(h@, n@, -1) == None::<int>);
            return None;
        }
        i -= 1;
    }
}

} // verus!

verus! {

/// The index just past the whitespace that starts at `k`: what is left there is
/// `s[k..].trim_start()`.
pub fn trim_start_at(s: &[char], k: usize) -> (r: usize)
    requires
        k <= s.len(),
    ensures
        k <= r <= s.len(),
        s@.skip(r as int) == trim_start_spec(s@.skip(k as int)),
{
    let mut a: usize = k;
    while a < s.len() && is_ws_exec(s[a])
        invariant
            k <= a <= s.len(),
            trim_start_spec(s@.skip(k as int)) == trim_start_spec(s@.skip(a as int)),
        decreases s.len() - a,
    {
        assert(s@.skip(a as int).drop_first() =~= s@.skip(a + 1));
        a += 1;
    }
    a
}

} // verus!

verus! {

/// Whether any of `ns` occurs in `h`.
pub open spec fn contains_any_spec(h: Seq<char>, ns: Seq<Seq<char>>) -> bool {
    exists|i: int| 0 <= i < ns.len() && contains_seq(h, #[trigger] ns[i])
}

pub fn contains_any(h: &[char], ns: &[&str]) -> (b: bool)
    ensures
        b == contains_any_spec(h@, ns@.map_values(|x: &str| x@)),
{
    let ghost nv = ns@.map_values(|x: &str| x@);
    let mut i: usize = 0;
    while i < ns.len()
        invariant
            i <= ns@.len(),
            nv == ns@.map_values(|x: &str| x@),
            forall|j: int| 0 <= j < i ==> !contains_seq(h@, #[trigger] nv[j]),
        decreases ns@.len() - i,
    {
        if contains_chars(h, chars_of(ns[i]).as_slice()) {
            assert(contains_seq(h@, nv[i as int]));
            return true;
        }
        i += 1;
    }
    false
}

} // verus!

verus! {

/// The decimal digit character of `d` (`0 <= d < 10`).
pub open spec fn digit_char(d: int) -> char {
    (d + 48) as char
}

/// The decimal numeral of `n`, without leading zeros.
pub open spec fn dec_spec(n: nat) -> Seq<char>
    decreases n,
{
    if n < 10 {
        seq![digit_char(n as int)]
    } else {
        dec_spec(n / 10) + seq![digit_char((n % 10) as int)]
    }
}

/// `n` written in decimal (what `n.to_string()` gives).
pub fn u64_dec(n: u64) -> (r: Vec<char>)
    ensures
        r@ == dec_spec(n as nat),
{
    let mut m = n;
    let mut rev: Vec<char> = Vec::new();
    let ghost mut done: Seq<char> = Seq::empty();
    while m >= 10
        invariant
            dec_spec(n as nat) == dec_spec(m as nat) + done,
            rev@ == done.reverse(),
        decreases m,
    {
        let c = char_from_digit((m % 10) as u32);
        rev.push(c);
        proof {
            assert(dec_spec(m as nat) == dec_spec((m / 10) as nat) + seq![c]);
            assert(dec_spec(n as nat) =~= dec_spec((m / 10) as nat) + (seq![c] + done));
            assert(rev@ =~= (seq![c] + done).reverse());
            done = seq![c] + done;
        }
        m = m / 10;
    }
    let c = char_from_digit(m as u32);
    rev.push(c);
    proof {
        assert(dec_spec(m as nat) == seq![c]);
        assert(rev@ =~= (seq![c] + done).reverse());
        done = seq![c] + done;
    }
    let mut out: Vec<char> = Vec::new();
    let mut i: usize = rev.len();
    assert(done =~= dec_spec(n as nat));
    while i > 0
        invariant
            i <= rev@.len(),
            rev@ == done.reverse(),
            done == dec_spec(n as nat),
            out@ == done.take(rev@.len() - i),
        decreases i,
    {
        i -= 1;
        out.push(rev[i]);
        assert(done.take(rev@.len() - i) =~= done.take(rev@.len() - i - 1).push(rev@[i as int]));
    }
    assert(done.take(rev@.len() as int) =~= done);
    out
}

fn char_from_digit(d: u32) -> (c: char)
    requires
        d < 10,
    ensures
        c == digit_char(d as int),
{
    match d {
        0 => '0',
        1 => '1',
        2 => '2',
        3 => '3',
        4 => '4',
        5 => '5',
        6 => '6',
        7 => '7',
        8 => '8',
        _ => '9',
    }
}

} // verus!


verus! {

/// Owned copies of the string literals `lits`, in order.
pub fn owned_strings(lits: &[&str]) -> (r: Vec<String>)
    ensures
        strs(r@) == lits@.map_values(|x: &str| x@),
{
    let ghost want = lits@.map_values(|x: &str| x@);
    let mut r: Vec<String> = Vec::new();
    let mut i: usize = 0;
    while i < lits.len()
        invariant
            i <= lits@.len(),
            want == lits@.map_values(|x: &str| x@),
            strs(r@) == want.take(i as int),
        decreases lits.len() - i,
    {
        let ghost before = r@;
        r.push(lits[i].to_owned());
        assert(strs(r@) =~= strs(before).push(lits@[i as int]@));
        assert(want.take(i + 1) =~= want.take(i as int).push(want[i as int]));
        i += 1;
    }
    assert(want.take(lits@.len() as int) =~= want);
    r
}

} // verus!
