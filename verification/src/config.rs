//! Settings read out of config sources (vitest/vite/jest configs, `package.json`) as text:
//! where a key is really used, its quoted value, a bracketed list of files, `isolate: false`,
//! the module kind a package or a source declares, and lexical path handling.
//!
//! Offsets are character indices into the text.

use vstd::prelude::*;

use crate::launcher::starts_with;
use crate::text::{
    chars_of, find_at, find_from, lemma_find_from, rfind_chars, rfind_spec, slice_range,
    slice_skip, slice_take, string_of, extend_chars, trim_start_at, trim_start_spec,
};

verus! {

/// Where the line holding index `at` starts.
pub open spec fn line_start(s: Seq<char>, at: int) -> int {
    match rfind_spec(s.take(at), seq!['\n']) {
        Some(n) => n + 1,
        None => 0,
    }
}

/// Whether the occurrence of `key` at `at` is a key in use: followed (after whitespace) by
/// `:`, and not on a line that is a `//` comment.
pub open spec fn key_used_at(s: Seq<char>, key: Seq<char>, at: int) -> bool {
    &&& starts_with(trim_start_spec(s.skip(at + key.len())), seq![':'])
    &&& !starts_with(trim_start_spec(s.subrange(line_start(s, at), at)), seq!['/', '/'])
}

/// The first occurrence of `key` at or after `search` that is a key in use.
pub open spec fn config_key_from(s: Seq<char>, key: Seq<char>, search: int) -> Option<int>
    decreases s.len() + 1 - search,
{
    match find_from(s, key, search) {
        None => None,
        Some(at) => if key_used_at(s, key, at) {
            Some(at)
        } else if search < at + key.len() <= s.len() {
            config_key_from(s, key, at + key.len())
        } else {
            None
        },
    }
}

/// Where `key` is used as a key of a config object (see `key_used_at`).
pub open spec fn config_key_spec(s: Seq<char>, key: Seq<char>) -> Option<int> {
    config_key_from(s, key, 0)
}

/// A key found is an occurrence of it inside the text.
pub proof fn lemma_config_key_bound(s: Seq<char>, key: Seq<char>, search: int)
    requires
        0 <= search,
    ensures
        config_key_from(s, key, search) matches Some(i) ==> search <= i && i + key.len()
            <= s.len(),
    decreases s.len() + 1 - search,
{
    lemma_find_from(s, key, search);
    match find_from(s, key, search) {
        None => {},
        Some(at) => {
            if !key_used_at(s, key, at) && search < at + key.len() <= s.len() {
                lemma_config_key_bound(s, key, at + key.len());
            }
        },
    }
}

fn line_start_exec(s: &[char], at: usize) -> (r: usize)
    requires
        at <= s.len(),
    ensures
        r == line_start(s@, at as int),
        r <= at,
{
    let head = slice_take(s, at);
    let nl: Vec<char> = vec!['\n'];
    assert(nl@ =~= seq!['\n']);
    match rfind_chars(head.as_slice(), nl.as_slice()) {
        Some(n) => n + 1,
        None => 0,
    }
}

fn key_used_at_exec(s: &[char], key: &[char], at: usize) -> (b: bool)
    requires
        at + key.len() <= s.len(),
    ensures
        b == key_used_at(s@, key@, at as int),
{
    let after = trim_start_at(s, at + key.len());
    let colon = after < s.len() && s[after] == ':';
    assert(colon == starts_with(trim_start_spec(s@.skip(at + key.len())), seq![':'])) by {
        let t = s@.skip(after as int);
        if t.len() >= 1 {
            assert(t[0] == s@[after as int]);
            if t[0] == ':' {
                assert(t.take(1) =~= seq![':']);
            } else {
                assert(t.take(1)[0] == t[0]);
            }
        }
    }
    if !colon {
        return false;
    }
    let ls = line_start_exec(s, at);
    let seg = slice_range(s, ls, at);
    let j = trim_start_at(seg.as_slice(), 0);
    assert(seg@.skip(0) =~= seg@);
    let comment = j < seg.len() && seg.len() - j >= 2 && seg[j] == '/' && seg[j + 1] == '/';
    assert(comment == starts_with(trim_start_spec(seg@), seq!['/', '/'])) by {
        let t = seg@.skip(j as int);
        if t.len() >= 2 {
            assert(t[0] == seg@[j as int] && t[1] == seg@[j + 1]);
            if t[0] == '/' && t[1] == '/' {
                assert(t.take(2) =~= seq!['/', '/']);
            } else {
                assert(t.take(2)[0] == t[0] && t.take(2)[1] == t[1]);
            }
        }
    }
    !comment
}

/// Where `key` is used as a config key: the first occurrence followed (after whitespace) by
/// `:` that is not on a `//` comment line; mentions in comments or prose are skipped.
pub fn find_config_key(s: &str, key: &str) -> (r: Option<usize>)
    requires
        key@.len() > 0,
    ensures
        match r {
            Some(i) => config_key_spec(s@, key@) == Some(i as int),
            None => config_key_spec(s@, key@) is None,
        },
{
    let sc = chars_of(s);
    let kc = chars_of(key);
    let mut search: usize = 0;
    loop
        invariant
            search <= sc@.len(),
            sc@ == s@,
            kc@ == key@,
            key@.len() > 0,
            config_key_spec(s@, key@) == config_key_from(s@, key@, search as int),
        decreases sc@.len() - search,
    {
        match find_at(sc.as_slice(), kc.as_slice(), search) {
            None => return None,
            Some(at) => {
                proof {
                    lemma_find_from(sc@, kc@, search as int);
                }
                if key_used_at_exec(sc.as_slice(), kc.as_slice(), at) {
                    return Some(at);
                }
                search = at + kc.len();
            },
        }
    }
}

/// A quote that opens a string value: `'`, `"` or a backtick.
pub open spec fn is_quote3(c: char) -> bool {
    c == '\'' || c == '"' || c == '`'
}

/// The first string value of a config key (`key: 'value'`, `"value"` or a backtick string).
pub open spec fn config_string_spec(s: Seq<char>, key: Seq<char>) -> Option<Seq<char>> {
    match config_key_spec(s, key) {
        None => None,
        Some(start) => {
            let tail = trim_start_spec(s.skip(start));
            match find_from(tail, seq![':'], 0) {
                None => None,
                Some(c) => {
                    let ac = trim_start_spec(tail.skip(c + 1));
                    if ac.len() > 0 && is_quote3(ac[0]) {
                        match find_from(ac.skip(1), seq![ac[0]], 0) {
                            Some(e) => Some(ac.skip(1).take(e)),
                            None => None,
                        }
                    } else {
                        None
                    }
                },
            }
        },
    }
}

pub fn config_string_value(s: &str, key: &str) -> (r: Option<String>)
    requires
        key@.len() > 0,
    ensures
        match r {
            Some(v) => config_string_spec(s@, key@) == Some(v@),
            None => config_string_spec(s@, key@) is None,
        },
{
    let start = match find_config_key(s, key) {
        Some(i) => i,
        None => return None,
    };
    let sc = chars_of(s);
    proof {
        lemma_config_key_bound(s@, key@, 0);
    }
    let t0 = trim_start_at(sc.as_slice(), start);
    let tail = slice_skip(sc.as_slice(), t0);
    let colon: Vec<char> = vec![':'];
    assert(colon@ =~= seq![':']);
    let c = match find_at(tail, colon.as_slice(), 0) {
        Some(c) => c,
        None => return None,
    };
    let a = trim_start_at(tail, c + 1);
    let ac = slice_skip(tail, a);
    assert(ac@ =~= trim_start_spec(tail@.skip(c + 1)));
    proof {
        lemma_find_from(tail@, seq![':'], 0);
        let spec_tail = trim_start_spec(s@.skip(start as int));
        assert(tail@ == spec_tail);
        assert(find_from(spec_tail, seq![':'], 0) == Some(c as int));
        assert(ac@ == trim_start_spec(spec_tail.skip(c + 1)));
    }
    if ac.len() == 0 {
        return None;
    }
    let q = ac[0];
    if !(q == '\'' || q == '"' || q == '`') {
        return None;
    }
    let rest = slice_skip(ac, 1);
    let qv: Vec<char> = vec![q];
    assert(qv@ =~= seq![ac@[0]]);
    proof {
        lemma_find_from(rest@, qv@, 0);
    }
    match find_at(rest, qv.as_slice(), 0) {
        Some(e) => Some(string_of(slice_take(rest, e).as_slice())),
        None => None,
    }
}

} // verus!

verus! {

/// `t` without the quote characters (`'`, `"`, backtick) at its start.
pub open spec fn unquote_start(t: Seq<char>) -> Seq<char>
    decreases t.len(),
{
    if t.len() > 0 && is_quote3(t[0]) {
        unquote_start(t.drop_first())
    } else {
        t
    }
}

/// `t` without the quote characters at its end.
pub open spec fn unquote_end(t: Seq<char>) -> Seq<char>
    decreases t.len(),
{
    if t.len() > 0 && is_quote3(t.last()) {
        unquote_end(t.drop_last())
    } else {
        t
    }
}

/// One list entry: trimmed, then stripped of the quotes around it.
pub open spec fn list_entry(part: Seq<char>) -> Seq<char> {
    unquote_end(unquote_start(crate::text::trim_spec(part)))
}

/// The non-blank entries of a comma-split list.
pub open spec fn list_entries(parts: Seq<Seq<char>>) -> Seq<Seq<char>>
    decreases parts.len(),
{
    if parts.len() == 0 {
        Seq::empty()
    } else {
        let prev = list_entries(parts.drop_last());
        let e = list_entry(parts.last());
        if e.len() > 0 {
            prev.push(e)
        } else {
            prev
        }
    }
}

/// The entries of the `[ ... ]` list that follows where `key` is used (`None` where the key
/// is not used or no bracketed list follows it).
pub open spec fn config_list_spec(s: Seq<char>, key: Seq<char>) -> Option<Seq<Seq<char>>> {
    match config_key_spec(s, key) {
        None => None,
        Some(start) => {
            let tail = s.skip(start);
            match find_from(tail, seq!['['], 0) {
                None => None,
                Some(lb) => match find_from(tail.skip(lb), seq![']'], 0) {
                    None => None,
                    Some(rb) => Some(
                        list_entries(
                            crate::text::split_spec(tail.subrange(lb + 1, lb + rb), ','),
                        ),
                    ),
                },
            }
        },
    }
}

fn list_entry_exec(part: &[char]) -> (r: Vec<char>)
    ensures
        r@ == list_entry(part@),
{
    let t = crate::text::trim_chars(part);
    let mut a: usize = 0;
    assert(t@.skip(0) =~= t@);
    while a < t.len() && (t[a] == '\'' || t[a] == '"' || t[a] == '`')
        invariant
            a <= t@.len(),
            unquote_start(t@) == unquote_start(t@.skip(a as int)),
        decreases t@.len() - a,
    {
        assert(t@.skip(a as int).drop_first() =~= t@.skip(a + 1));
        a += 1;
    }
    let mut b: usize = t.len();
    assert(t@.skip(a as int) =~= t@.subrange(a as int, b as int));
    while b > a && (t[b - 1] == '\'' || t[b - 1] == '"' || t[b - 1] == '`')
        invariant
            a <= b <= t@.len(),
            unquote_start(t@) == t@.skip(a as int),
            list_entry(part@) == unquote_end(t@.subrange(a as int, b as int)),
        decreases b,
    {
        assert(t@.subrange(a as int, b as int).drop_last() =~= t@.subrange(a as int, b - 1));
        b -= 1;
    }
    slice_range(t.as_slice(), a, b)
}

/// The non-blank, unquoted entries of a comma-separated list.
pub fn list_entries_of(inner: &[char]) -> (r: Vec<String>)
    ensures
        crate::text::strs(r@) == list_entries(crate::text::split_spec(inner@, ',')),
{
    let parts = crate::text::split_char(inner, ',');
    let ghost ps = crate::text::split_spec(inner@, ',');
    let mut out: Vec<String> = Vec::new();
    let mut i: usize = 0;
    assert(ps.take(0) =~= Seq::<Seq<char>>::empty());
    while i < parts.len()
        invariant
            i <= parts@.len() == ps.len(),
            ps == crate::text::split_spec(inner@, ','),
            forall|k: int| 0 <= k < parts@.len() ==> #[trigger] parts@[k]@ == ps[k],
            crate::text::strs(out@) == list_entries(ps.take(i as int)),
        decreases parts@.len() - i,
    {
        assert(ps.take(i + 1).drop_last() =~= ps.take(i as int));
        let e = list_entry_exec(parts[i].as_slice());
        if e.len() > 0 {
            let ghost b = crate::text::strs(out@);
            out.push(string_of(e.as_slice()));
            assert(crate::text::strs(out@) =~= b.push(e@));
        }
        i += 1;
    }
    assert(ps.take(ps.len() as int) =~= ps);
    out
}

/// The entries of the bracketed list of a config key, such as the files of `setupFiles:
/// ['./a.ts', "./b.ts"]`.
pub fn config_list_value(s: &str, key: &str) -> (r: Option<Vec<String>>)
    requires
        key@.len() > 0,
    ensures
        match r {
            Some(v) => config_list_spec(s@, key@) == Some(crate::text::strs(v@)),
            None => config_list_spec(s@, key@) is None,
        },
{
    let start = match find_config_key(s, key) {
        Some(i) => i,
        None => return None,
    };
    let sc = chars_of(s);
    proof {
        lemma_config_key_bound(s@, key@, 0);
    }
    let tail = slice_skip(sc.as_slice(), start);
    let lbv: Vec<char> = vec!['['];
    let rbv: Vec<char> = vec![']'];
    assert(lbv@ =~= seq!['[']);
    assert(rbv@ =~= seq![']']);
    proof {
        lemma_find_from(tail@, seq!['['], 0);
    }
    let lb = match find_at(tail, lbv.as_slice(), 0) {
        Some(i) => i,
        None => return None,
    };
    let after = slice_skip(tail, lb);
    proof {
        lemma_find_from(after@, seq![']'], 0);
        assert(after@[0] == '[');
        assert(!crate::text::occurs_at(after@, seq![']'], 0)) by {
            assert(after@.subrange(0, 1)[0] == '[');
        }
    }
    let rb = match find_at(after, rbv.as_slice(), 0) {
        Some(i) => i,
        None => return None,
    };
    let inner = slice_range(tail, lb + 1, lb + rb);
    Some(list_entries_of(inner.as_slice()))
}

} // verus!

verus! {

/// `Path::join` on text paths: an absolute `p` replaces `base`; otherwise `p` is appended
/// after a `/` unless `base` is empty or already ends with one.
pub open spec fn path_join_spec(base: Seq<char>, p: Seq<char>) -> Seq<char> {
    if p.len() > 0 && p[0] == '/' {
        p
    } else if base.len() == 0 || base.last() == '/' {
        base + p
    } else {
        base + seq!['/'] + p
    }
}

pub fn path_join(base: &str, p: &str) -> (r: String)
    ensures
        r@ == path_join_spec(base@, p@),
{
    let b = chars_of(base);
    let q = chars_of(p);
    if q.len() > 0 && q[0] == '/' {
        return string_of(q.as_slice());
    }
    let mut v: Vec<char> = Vec::new();
    crate::text::extend_chars(&mut v, b.as_slice());
    if !(b.len() == 0 || b[b.len() - 1] == '/') {
        v.push('/');
    }
    crate::text::extend_chars(&mut v, q.as_slice());
    string_of(v.as_slice())
}

/// The components that remain of a path once `.` and empty pieces are dropped and each
/// `..` removes the component before it (if any).
pub open spec fn norm_components(cs: Seq<Seq<char>>) -> Seq<Seq<char>>
    decreases cs.len(),
{
    if cs.len() == 0 {
        Seq::empty()
    } else {
        let prev = norm_components(cs.drop_last());
        let c = cs.last();
        if c.len() == 0 || c == seq!['.'] {
            prev
        } else if c == seq!['.', '.'] {
            if prev.len() > 0 {
                prev.drop_last()
            } else {
                prev
            }
        } else {
            prev.push(c)
        }
    }
}

/// Components joined with `/`.
pub open spec fn join_slash(cs: Seq<Seq<char>>) -> Seq<char>
    decreases cs.len(),
{
    if cs.len() == 0 {
        Seq::empty()
    } else if cs.len() == 1 {
        cs[0]
    } else {
        join_slash(cs.drop_last()) + seq!['/'] + cs.last()
    }
}

/// A path resolved lexically (`..` and `.` worked out) without looking at the filesystem;
/// an absolute path stays absolute.
pub open spec fn normalize_spec(p: Seq<char>) -> Seq<char> {
    let root: Seq<char> = if p.len() > 0 && p[0] == '/' {
        seq!['/']
    } else {
        Seq::empty()
    };
    root + join_slash(norm_components(crate::text::split_spec(p, '/')))
}

pub fn normalize_path(p: &str) -> (r: String)
    ensures
        r@ == normalize_spec(p@),
{
    let pc = chars_of(p);
    let parts = crate::text::split_char(pc.as_slice(), '/');
    let ghost ps = crate::text::split_spec(p@, '/');
    let mut stack: Vec<Vec<char>> = Vec::new();
    let mut i: usize = 0;
    assert(ps.take(0) =~= Seq::<Seq<char>>::empty());
    while i < parts.len()
        invariant
            i <= parts@.len() == ps.len(),
            ps == crate::text::split_spec(p@, '/'),
            forall|k: int| 0 <= k < parts@.len() ==> #[trigger] parts@[k]@ == ps[k],
            crate::mocks::lv(stack@) == norm_components(ps.take(i as int)),
        decreases parts@.len() - i,
    {
        assert(ps.take(i + 1).drop_last() =~= ps.take(i as int));
        assert(ps.take(i + 1).last() == ps[i as int]);
        let c = parts[i].as_slice();
        let ghost before = crate::mocks::lv(stack@);
        if c.len() == 0 || (c.len() == 1 && c[0] == '.') {
            assert(c.len() == 1 ==> c@ =~= seq!['.']);
        } else if c.len() == 2 && c[0] == '.' && c[1] == '.' {
            assert(c@ =~= seq!['.', '.']);
            if stack.len() > 0 {
                stack.pop();
                assert(crate::mocks::lv(stack@) =~= before.drop_last());
            }
        } else {
            assert(c@ != seq!['.']) by {
                if c.len() == 1 {
                    assert(c@[0] != seq!['.'][0]);
                }
            }
            assert(c@ != seq!['.', '.']) by {
                if c.len() == 2 {
                    assert(c@[0] != '.' || c@[1] != '.');
                }
            }
            stack.push(parts[i].clone());
            assert(crate::mocks::lv(stack@) =~= before.push(c@));
        }
        i += 1;
    }
    assert(ps.take(ps.len() as int) =~= ps);
    let mut out: Vec<char> = Vec::new();
    if pc.len() > 0 && pc[0] == '/' {
        out.push('/');
    }
    let ghost root = out@;
    let ghost sv = crate::mocks::lv(stack@);
    let mut j: usize = 0;
    assert(sv.take(0) =~= Seq::<Seq<char>>::empty());
    assert(out@ =~= root + join_slash(sv.take(0)));
    while j < stack.len()
        invariant
            j <= stack@.len(),
            sv == crate::mocks::lv(stack@),
            out@ == root + join_slash(sv.take(j as int)),
        decreases stack@.len() - j,
    {
        assert(sv.take(j + 1).drop_last() =~= sv.take(j as int));
        if j > 0 {
            out.push('/');
        }
        crate::text::extend_chars(&mut out, stack[j].as_slice());
        proof {
            assert(sv[j as int] == stack@[j as int]@);
            if j == 0 {
                assert(sv.take(1) =~= seq![sv[0]]);
            }
        }
        assert(out@ =~= root + join_slash(sv.take(j + 1)));
        j += 1;
    }
    assert(sv.take(stack@.len() as int) =~= sv);
    string_of(out.as_slice())
}

} // verus!

verus! {

/// A `/`-separated path without what follows its last component: trailing `/`s and
/// trailing `.` components are dropped (as `Path::components` skips them).
pub open spec fn trim_tail(p: Seq<char>) -> Seq<char>
    decreases p.len(),
{
    if p.len() > 0 && (p.last() == '/' || (p.last() == '.' && (p.len() == 1 || p[p.len() - 2] == '/'))) {
        trim_tail(p.drop_last())
    } else {
        p
    }
}

/// Where the last component of a trimmed path starts.
pub open spec fn name_start(t: Seq<char>) -> int {
    match rfind_spec(t, seq!['/']) {
        Some(i) => i + 1,
        None => 0,
    }
}

/// The length of a file name's stem (as `Path::file_stem`): up to its last `.`, unless
/// that dot starts the name.
pub open spec fn stem_len(name: Seq<char>) -> int {
    match rfind_spec(name, seq!['.']) {
        Some(d) => if d > 0 {
            d
        } else {
            name.len() as int
        },
        None => name.len() as int,
    }
}

/// `Path::with_extension` (through `PathBuf::set_extension`) on a `/`-separated path: a
/// path with no file name (empty, ending in `..`, only `/`s and `.`s) comes back as it
/// was; otherwise the path up to the end of the file stem, then `.` and `ext` unless `ext`
/// is empty.
pub open spec fn path_with_extension(p: Seq<char>, ext: Seq<char>) -> Seq<char> {
    let t = trim_tail(p);
    let s = name_start(t);
    let name = t.skip(s);
    if name.len() == 0 || name == seq!['.', '.'] {
        p
    } else {
        t.take(s + stem_len(name)) + if ext.len() > 0 {
            seq!['.'] + ext
        } else {
            Seq::empty()
        }
    }
}

/// The path with its extension replaced (or added), as `Path::with_extension` does. An
/// extension holding a `/` is left out: std panics on it.
pub fn with_extension(p: &str, ext: &str) -> (r: String)
    requires
        !ext@.contains('/'),
    ensures
        r@ == path_with_extension(p@, ext@),
{
    let c = chars_of(p);
    let mut j: usize = c.len();
    assert(c@.take(j as int) =~= c@);
    while j > 0 && (c[j - 1] == '/' || (c[j - 1] == '.' && (j == 1 || c[j - 2] == '/')))
        invariant
            j <= c@.len(),
            c@ == p@,
            trim_tail(p@) == trim_tail(c@.take(j as int)),
        decreases j,
    {
        assert(c@.take(j as int).drop_last() =~= c@.take(j - 1));
        j -= 1;
    }
    let t = slice_take(c.as_slice(), j);
    assert(trim_tail(p@) == t@);
    let slash: Vec<char> = vec!['/'];
    assert(slash@ =~= seq!['/']);
    let s: usize = match rfind_chars(t.as_slice(), slash.as_slice()) {
        Some(i) => i + 1,
        None => 0,
    };
    let name = slice_skip(t.as_slice(), s);
    if name.len() == 0 || (name.len() == 2 && name[0] == '.' && name[1] == '.') {
        assert(name.len() == 2 ==> name@ =~= seq!['.', '.']);
        assert(name.len() != 2 ==> name@ != seq!['.', '.']);
        return string_of(c.as_slice());
    }
    assert(name@ != seq!['.', '.']);
    let dot: Vec<char> = vec!['.'];
    assert(dot@ =~= seq!['.']);
    let stem: usize = match rfind_chars(name, dot.as_slice()) {
        Some(d) => if d > 0 {
            d
        } else {
            name.len()
        },
        None => name.len(),
    };
    let mut out = slice_take(t.as_slice(), s + stem);
    let e = chars_of(ext);
    if e.len() > 0 {
        out.push('.');
        extend_chars(&mut out, e.as_slice());
        assert(out@ =~= t@.take(s + stem) + (seq!['.'] + ext@));
    } else {
        assert(out@ =~= t@.take(s + stem) + Seq::<char>::empty());
    }
    string_of(out.as_slice())
}

/// A specifier as handed to the resolver: a leading `node_modules/` is dropped (such an
/// import is really a bare specifier).
pub open spec fn request_spec(spec: Seq<char>) -> Seq<char> {
    if starts_with(spec, "node_modules/"@) {
        spec.skip(13)
    } else {
        spec
    }
}

pub fn resolve_request(spec: &str) -> (r: String)
    ensures
        r@ == request_spec(spec@),
{
    let c = chars_of(spec);
    proof {
        reveal_strlit("node_modules/");
    }
    if crate::launcher::starts_with_exec(c.as_slice(), chars_of("node_modules/").as_slice()) {
        string_of(slice_skip(c.as_slice(), 13))
    } else {
        string_of(c.as_slice())
    }
}

/// The extensions tried, in order, when a relative import is probed by hand.
pub open spec fn probe_exts() -> Seq<Seq<char>> {
    seq!["mjs"@, "js"@, "mts"@, "ts"@, "tsx"@, "cjs"@]
}

/// The index files tried, in order, when a relative import is probed by hand.
pub open spec fn probe_indexes() -> Seq<Seq<char>> {
    seq!["index.mjs"@, "index.js"@, "index.ts"@, "index.tsx"@, "index.jsx"@, "index.cjs"@]
}

/// The files probed, in order, for a relative or absolute specifier the resolver could not
/// place: the path itself, with each extension, then each index file inside it. Other
/// specifiers are not probed.
pub open spec fn probe_spec(spec: Seq<char>, from_dir: Seq<char>) -> Seq<Seq<char>> {
    let req = request_spec(spec);
    if req.len() > 0 && (req[0] == '.' || req[0] == '/') {
        let base = path_join_spec(from_dir, req);
        seq![base] + probe_exts().map_values(|e: Seq<char>| path_with_extension(base, e))
            + probe_indexes().map_values(|f: Seq<char>| path_join_spec(base, f))
    } else {
        Seq::empty()
    }
}

pub fn probe_candidates(spec: &str, from_dir: &str) -> (r: Vec<String>)
    ensures
        crate::text::strs(r@) == probe_spec(spec@, from_dir@),
{
    let req = resolve_request(spec);
    let rc = chars_of(req.as_str());
    let mut out: Vec<String> = Vec::new();
    if !(rc.len() > 0 && (rc[0] == '.' || rc[0] == '/')) {
        assert(crate::text::strs(out@) =~= probe_spec(spec@, from_dir@));
        return out;
    }
    let base = path_join(from_dir, req.as_str());
    let exts = ["mjs", "js", "mts", "ts", "tsx", "cjs"];
    let idx = ["index.mjs", "index.js", "index.ts", "index.tsx", "index.jsx", "index.cjs"];
    let ghost want = probe_spec(spec@, from_dir@);
    let ghost ev = exts@.map_values(|x: &str| x@);
    let ghost iv = idx@.map_values(|x: &str| x@);
    assert(ev =~= probe_exts());
    assert(iv =~= probe_indexes());
    proof {
        reveal_strlit("mjs");
        reveal_strlit("js");
        reveal_strlit("mts");
        reveal_strlit("ts");
        reveal_strlit("tsx");
        reveal_strlit("cjs");
        assert forall|k: int| 0 <= k < 6 implies !(#[trigger] ev[k]).contains('/') by {
            assert forall|j: int| 0 <= j < ev[k].len() implies ev[k][j] != '/' by {}
        }
    }
    out.push(base.clone());
    assert(crate::text::strs(out@) =~= want.take(1));
    let mut i: usize = 0;
    while i < 6
        invariant
            i <= 6,
            exts@.len() == 6,
            ev == exts@.map_values(|x: &str| x@),
            ev == probe_exts(),
            iv == probe_indexes(),
            want == probe_spec(spec@, from_dir@),
            want == seq![base@] + probe_exts().map_values(
                |e: Seq<char>| path_with_extension(base@, e),
            ) + probe_indexes().map_values(|f: Seq<char>| path_join_spec(base@, f)),
            crate::text::strs(out@) == want.take(1 + i),
            forall|k: int| 0 <= k < 6 ==> !(#[trigger] ev[k]).contains('/'),
        decreases 6 - i,
    {
        let w = with_extension(base.as_str(), exts[i]);
        let ghost b = crate::text::strs(out@);
        out.push(w);
        assert(want[1 + i] == path_with_extension(base@, ev[i as int]));
        assert(crate::text::strs(out@) =~= b.push(w@));
        assert(want.take(1 + i + 1) =~= want.take(1 + i).push(want[1 + i]));
        i += 1;
    }
    let mut j: usize = 0;
    while j < 6
        invariant
            j <= 6,
            idx@.len() == 6,
            iv == idx@.map_values(|x: &str| x@),
            iv == probe_indexes(),
            want == seq![base@] + probe_exts().map_values(
                |e: Seq<char>| path_with_extension(base@, e),
            ) + probe_indexes().map_values(|f: Seq<char>| path_join_spec(base@, f)),
            want == probe_spec(spec@, from_dir@),
            crate::text::strs(out@) == want.take(7 + j),
        decreases 6 - j,
    {
        let w = path_join(base.as_str(), idx[j]);
        let ghost b = crate::text::strs(out@);
        out.push(w);
        assert(want[7 + j] == path_join_spec(base@, iv[j as int]));
        assert(crate::text::strs(out@) =~= b.push(w@));
        assert(want.take(7 + j + 1) =~= want.take(7 + j).push(want[7 + j]));
        j += 1;
    }
    assert(want.take(13) =~= want);
    out
}

/// The first candidate whose probe found a file.
pub open spec fn first_found(cands: Seq<Seq<char>>, found: Seq<bool>) -> Option<Seq<char>>
    decreases cands.len(),
{
    if cands.len() == 0 || found.len() == 0 {
        None
    } else if found[0] {
        Some(cands[0])
    } else {
        first_found(cands.drop_first(), found.drop_first())
    }
}

/// Resolution of an import: what the Node resolver found (`resolved`) wins; failing that,
/// the first probed candidate (`probe_candidates`) that is a file, given as `found[i]` for
/// the `i`-th candidate.
pub fn resolve_spec(spec: &str, from_dir: &str, resolved: Option<String>, found: &[bool]) -> (r:
    Option<String>)
    requires
        found@.len() == probe_spec(spec@, from_dir@).len(),
    ensures
        match resolved {
            Some(p) => r == Some(p),
            None => crate::coverage::opt_string(r) == first_found(
                probe_spec(spec@, from_dir@),
                found@,
            ),
        },
{
    if resolved.is_some() {
        return resolved;
    }
    let mut cands = probe_candidates(spec, from_dir);
    let ghost cv = crate::text::strs(cands@);
    let mut i: usize = 0;
    assert(cv.skip(0) =~= cv);
    assert(found@.skip(0) =~= found@);
    while i < cands.len()
        invariant
            i <= cands@.len() == found@.len(),
            cv == crate::text::strs(cands@),
            cv == probe_spec(spec@, from_dir@),
            resolved is None,
            first_found(cv, found@) == first_found(cv.skip(i as int), found@.skip(i as int)),
        decreases cands@.len() - i,
    {
        assert(cv.skip(i as int).drop_first() =~= cv.skip(i + 1));
        assert(found@.skip(i as int).drop_first() =~= found@.skip(i + 1));
        if found[i] {
            assert(cv.skip(i as int)[0] == cv[i as int]);
            let c = cands.remove(i);
            return Some(c);
        }
        i += 1;
    }
    None
}

} // verus!

verus! {

/// A line without its `//` comment (everything from the first `//` on).
pub open spec fn before_comment(l: Seq<char>) -> Seq<char> {
    match find_from(l, seq!['/', '/'], 0) {
        Some(i) => l.take(i),
        None => l,
    }
}

/// `s` without its whitespace characters.
pub open spec fn without_ws(s: Seq<char>) -> Seq<char>
    decreases s.len(),
{
    if s.len() == 0 {
        s
    } else if crate::text::is_ws(s.last()) {
        without_ws(s.drop_last())
    } else {
        without_ws(s.drop_last()).push(s.last())
    }
}

/// A config's code with its `//` line comments dropped and its whitespace removed, so that
/// settings can be found however they are spaced and a comment mentioning one never counts.
pub open spec fn flat_code_spec(cfg: Seq<char>) -> Seq<char> {
    without_ws(
        crate::mocks::join_lines(
            crate::mocks::lines_spec(cfg).map_values(|l: Seq<char>| before_comment(l)),
        ),
    )
}

/// Whether a vitest config asks for `isolate: false`.
pub open spec fn isolate_false_spec(cfg: Seq<char>) -> bool {
    crate::text::contains_seq(flat_code_spec(cfg), "isolate:false"@)
}

pub fn isolate_false_in(cfg: &str) -> (b: bool)
    ensures
        b == isolate_false_spec(cfg@),
{
    let flat = flat_code(cfg);
    crate::text::contains_chars(flat.as_slice(), chars_of("isolate:false").as_slice())
}

/// Whether a tsconfig turns on `"emitDecoratorMetadata": true`.
pub open spec fn decorator_metadata_spec(tsconfig: Seq<char>) -> bool {
    crate::text::contains_seq(flat_code_spec(tsconfig), "\"emitDecoratorMetadata\":true"@)
}

pub fn decorator_metadata_in(tsconfig: &str) -> (b: bool)
    ensures
        b == decorator_metadata_spec(tsconfig@),
{
    let flat = flat_code(tsconfig);
    crate::text::contains_chars(flat.as_slice(), chars_of("\"emitDecoratorMetadata\":true").as_slice())
}

pub fn flat_code(cfg: &str) -> (flat: Vec<char>)
    ensures
        flat@ == flat_code_spec(cfg@),
{
    let c = chars_of(cfg);
    let ls = crate::mocks::lines(c.as_slice());
    let ghost lsv = crate::mocks::lv(ls@);
    let ghost want = lsv.map_values(|l: Seq<char>| before_comment(l));
    let mut code: Vec<Vec<char>> = Vec::new();
    let sl: Vec<char> = vec!['/', '/'];
    assert(sl@ =~= seq!['/', '/']);
    let mut i: usize = 0;
    while i < ls.len()
        invariant
            i <= ls@.len(),
            lsv == crate::mocks::lv(ls@),
            want == lsv.map_values(|l: Seq<char>| before_comment(l)),
            sl@ == seq!['/', '/'],
            crate::mocks::lv(code@) == want.take(i as int),
        decreases ls@.len() - i,
    {
        let l = ls[i].as_slice();
        proof {
            crate::text::lemma_find_from(l@, sl@, 0);
        }
        let piece = match find_at(l, sl.as_slice(), 0) {
            Some(k) => slice_take(l, k),
            None => slice_take(l, l.len()),
        };
        assert(l@.take(l@.len() as int) =~= l@);
        let ghost b = crate::mocks::lv(code@);
        code.push(piece);
        assert(crate::mocks::lv(code@) =~= b.push(want[i as int]));
        assert(want.take(i + 1) =~= want.take(i as int).push(want[i as int]));
        i += 1;
    }
    assert(want.take(ls@.len() as int) =~= want);
    assert(code@.map_values(|v: Vec<char>| v@) =~= crate::mocks::lv(code@));
    let joined = crate::mocks::join_line_vecs(&code);
    let mut flat: Vec<char> = Vec::new();
    let mut j: usize = 0;
    assert(joined@.take(0) =~= Seq::<char>::empty());
    while j < joined.len()
        invariant
            j <= joined@.len(),
            flat@ == without_ws(joined@.take(j as int)),
        decreases joined@.len() - j,
    {
        assert(joined@.take(j + 1).drop_last() =~= joined@.take(j as int));
        if !crate::text::is_ws_exec(joined[j]) {
            flat.push(joined[j]);
        }
        j += 1;
    }
    assert(joined@.take(joined@.len() as int) =~= joined@);
    flat
}

/// The test environments that make a jest project a DOM project.
pub open spec fn dom_envs() -> Seq<Seq<char>> {
    seq!["jsdom"@, "happy-dom"@, "jest-environment-jsdom"@]
}

/// Whether a jest config makes its project resolve CommonJS-first: a node test environment
/// (jest's default) unless `testEnvironment` names a DOM environment.
pub open spec fn cjs_first_spec(cfg: Seq<char>) -> bool {
    match config_string_spec(cfg, "testEnvironment"@) {
        Some(e) => !dom_envs().contains(e),
        None => true,
    }
}

pub fn cjs_first_config(cfg: &str) -> (b: bool)
    ensures
        b == cjs_first_spec(cfg@),
{
    proof {
        reveal_strlit("testEnvironment");
    }
    match config_string_value(cfg, "testEnvironment") {
        None => true,
        Some(e) => {
            let ec = chars_of(e.as_str());
            let envs = ["jsdom", "happy-dom", "jest-environment-jsdom"];
            let ghost ev = envs@.map_values(|x: &str| x@);
            assert(ev =~= dom_envs());
            let mut i: usize = 0;
            while i < 3
                invariant
                    i <= 3,
                    envs@.len() == 3,
                    ev == envs@.map_values(|x: &str| x@),
                    ev == dom_envs(),
                    ec@ == e@,
                    config_string_spec(cfg@, "testEnvironment"@) == Some(e@),
                    forall|j: int| 0 <= j < i ==> ev[j] != ec@,
                decreases 3 - i,
            {
                if crate::text::chars_eq(ec.as_slice(), chars_of(envs[i]).as_slice()) {
                    assert(ev[i as int] == e@);
                    return false;
                }
                i += 1;
            }
            assert(!ev.contains(e@));
            true
        },
    }
}

} // verus!

verus! {

/// A jest setup entry with each `<rootDir>` replaced by the project's root directory.
pub fn substitute_root_dir(entry: &str, root: &str) -> (r: String)
    ensures
        r@ == crate::mocks::replace_all_spec(entry@, "<rootDir>"@, root@),
{
    let pat = chars_of("<rootDir>");
    proof {
        reveal_strlit("<rootDir>");
    }
    let v = crate::mocks::replace_all(chars_of(entry).as_slice(), pat.as_slice(), chars_of(root).as_slice());
    string_of(v.as_slice())
}

/// Whether a `package.json` holds a `"jest"` config block.
pub open spec fn pkg_jest_spec(pkg: Seq<char>) -> bool {
    match config_key_spec(pkg, "jest"@) {
        Some(start) => starts_with(trim_start_spec(pkg.skip(start)), "jest"@)
            || crate::text::contains_seq(pkg.skip(start), seq!['{']),
        None => false,
    }
}

pub fn pkg_has_jest(pkg: &str) -> (b: bool)
    ensures
        b == pkg_jest_spec(pkg@),
{
    proof {
        reveal_strlit("jest");
    }
    match find_config_key(pkg, "jest") {
        None => false,
        Some(start) => {
            proof {
                lemma_config_key_bound(pkg@, "jest"@, 0);
            }
            let pc = chars_of(pkg);
            let a = trim_start_at(pc.as_slice(), start);
            let t = slice_skip(pc.as_slice(), a);
            let ob: Vec<char> = vec!['{'];
            assert(ob@ =~= seq!['{']);
            crate::launcher::starts_with_exec(t, chars_of("jest").as_slice())
                || crate::text::contains_chars(slice_skip(pc.as_slice(), start), ob.as_slice())
        },
    }
}

} // verus!


verus! {

/// The extensions the module resolver tries, in order.
pub open spec fn resolver_extensions_spec() -> Seq<Seq<char>> {
    seq![".ts"@, ".tsx"@, ".mjs"@, ".js"@, ".jsx"@, ".cjs"@, ".json"@, ".node"@]
}

pub fn resolver_extensions() -> (r: Vec<String>)
    ensures
        crate::text::strs(r@) == resolver_extensions_spec(),
{
    let l = [".ts", ".tsx", ".mjs", ".js", ".jsx", ".cjs", ".json", ".node"];
    assert(l@.map_values(|x: &str| x@) =~= resolver_extensions_spec());
    crate::text::owned_strings(&l)
}

/// The export conditions and package main fields the resolver honours: a CommonJS-first
/// project picks `require` builds, every other project the ESM (`import`) builds. No `node`
/// condition outside CommonJS-first projects: tests run in a browser-like engine.
pub open spec fn resolver_conditions_spec(cjs_first: bool) -> (Seq<Seq<char>>, Seq<Seq<char>>) {
    if cjs_first {
        (seq!["require"@, "node"@, "default"@], seq!["main"@, "module"@, "browser"@])
    } else {
        (seq!["import"@, "module"@, "browser"@, "default"@, "require"@], seq!["module"@, "browser"@, "main"@])
    }
}

pub fn resolver_conditions(cjs_first: bool) -> (r: (Vec<String>, Vec<String>))
    ensures
        (crate::text::strs(r.0@), crate::text::strs(r.1@)) == resolver_conditions_spec(cjs_first),
{
    if cjs_first {
        let c = ["require", "node", "default"];
        let m = ["main", "module", "browser"];
        assert(c@.map_values(|x: &str| x@) =~= seq!["require"@, "node"@, "default"@]);
        assert(m@.map_values(|x: &str| x@) =~= seq!["main"@, "module"@, "browser"@]);
        (crate::text::owned_strings(&c), crate::text::owned_strings(&m))
    } else {
        let c = ["import", "module", "browser", "default", "require"];
        let m = ["module", "browser", "main"];
        assert(c@.map_values(|x: &str| x@) =~= seq!["import"@, "module"@, "browser"@, "default"@, "require"@]);
        assert(m@.map_values(|x: &str| x@) =~= seq!["module"@, "browser"@, "main"@]);
        (crate::text::owned_strings(&c), crate::text::owned_strings(&m))
    }
}

} // verus!

verus! {

/// Files whose presence marks a vitest project (which always resolves ESM-first).
pub open spec fn vitest_markers_spec() -> Seq<Seq<char>> {
    seq![
        "vitest.config.ts"@,
        "vitest.config.mts"@,
        "vitest.config.js"@,
        "vitest.config.mjs"@,
        "vite.config.ts"@,
        "vite.config.js"@,
    ]
}

pub fn vitest_markers() -> (r: Vec<String>)
    ensures
        crate::text::strs(r@) == vitest_markers_spec(),
{
    let l = [
        "vitest.config.ts",
        "vitest.config.mts",
        "vitest.config.js",
        "vitest.config.mjs",
        "vite.config.ts",
        "vite.config.js",
    ];
    assert(l@.map_values(|x: &str| x@) =~= vitest_markers_spec());
    crate::text::owned_strings(&l)
}

/// jest config file names, in the order they are looked for.
pub open spec fn jest_config_names_spec() -> Seq<Seq<char>> {
    seq!["jest.config.js"@, "jest.config.cjs"@, "jest.config.mjs"@, "jest.config.ts"@, "jest.config.json"@]
}

pub fn jest_config_names() -> (r: Vec<String>)
    ensures
        crate::text::strs(r@) == jest_config_names_spec(),
{
    let l = ["jest.config.js", "jest.config.cjs", "jest.config.mjs", "jest.config.ts", "jest.config.json"];
    assert(l@.map_values(|x: &str| x@) =~= jest_config_names_spec());
    crate::text::owned_strings(&l)
}

/// One directory of the walk up from a test file that decides CommonJS-first resolution:
/// a vitest marker decides ESM-first; else a jest config (its first readable file, else a
/// `package.json` carrying a `jest` block) decides by its test environment; else the walk
/// goes on to the parent (`None`).
pub open spec fn cjs_first_dir_spec(vitest_marker: bool, jest_cfg: Option<Seq<char>>, pkg: Option<Seq<char>>) -> Option<bool> {
    if vitest_marker {
        Some(false)
    } else {
        match jest_cfg {
            Some(t) => Some(cjs_first_spec(t)),
            None => match pkg {
                Some(p) => if pkg_jest_spec(p) {
                    Some(cjs_first_spec(p))
                } else {
                    None
                },
                None => None,
            },
        }
    }
}

pub fn cjs_first_dir(vitest_marker: bool, jest_cfg: Option<&str>, pkg: Option<&str>) -> (r: Option<bool>)
    ensures
        r == cjs_first_dir_spec(
            vitest_marker,
            match jest_cfg { Some(t) => Some(t@), None => None },
            match pkg { Some(p) => Some(p@), None => None },
        ),
{
    if vitest_marker {
        return Some(false);
    }
    match jest_cfg {
        Some(t) => Some(cjs_first_config(t)),
        None => match pkg {
            Some(p) => if pkg_has_jest(p) {
                Some(cjs_first_config(p))
            } else {
                None
            },
            None => None,
        },
    }
}

} // verus!
