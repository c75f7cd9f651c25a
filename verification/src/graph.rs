//! The module dependency graph behind affected-test selection: import specifiers found in
//! a source, the files a file transitively imports (node_modules files are leaves), and the
//! test files a change affects.

use vstd::prelude::*;

use crate::assoc::{first_index, lemma_first_index};
use crate::covdata::{file_keys, find_file};
use crate::text::{
    chars_eq, chars_of, find_at, find_from, is_ascii_alnum, is_ascii_alnum_exec, is_ws,
    is_ws_exec, lemma_find_from, slice_range, split_char, split_spec, string_of, strs,
};

verus! {

/// A source character skipped between a keyword and its specifier: whitespace or `(`.
pub open spec fn ws_or_paren(c: char) -> bool {
    is_ws(c) || c == '('
}

pub open spec fn skip_ws_paren(s: Seq<char>, k: int) -> int
    decreases s.len() - k,
{
    if 0 <= k < s.len() && ws_or_paren(s[k]) {
        skip_ws_paren(s, k + 1)
    } else {
        k
    }
}

fn skip_ws_paren_exec(s: &[char], k: usize) -> (r: usize)
    requires
        k <= s.len(),
    ensures
        r == skip_ws_paren(s@, k as int),
        k <= r <= s.len(),
{
    let mut j = k;
    while j < s.len() && (is_ws_exec(s[j]) || s[j] == '(')
        invariant
            k <= j <= s.len(),
            skip_ws_paren(s@, k as int) == skip_ws_paren(s@, j as int),
        decreases s.len() - j,
    {
        j += 1;
    }
    j
}

/// The specifiers after each occurrence of `kw` at or after `from`: a keyword not preceded
/// by an ASCII letter or digit, then whitespace or `(`, then a quoted string (closed by the
/// same quote).
pub open spec fn specs_for(src: Seq<char>, kw: Seq<char>, from: int) -> Seq<Seq<char>>
    decreases src.len() + 1 - from,
{
    match find_from(src, kw, from) {
        None => Seq::empty(),
        Some(at) => {
            let after = at + kw.len();
            let found = if at > 0 && is_ascii_alnum(src[at - 1]) {
                Seq::empty()
            } else {
                let t = skip_ws_paren(src, after);
                if 0 <= t < src.len() && (src[t] == '\'' || src[t] == '"' || src[t] == '`') {
                    match find_from(src, seq![src[t]], t + 1) {
                        Some(e) => seq![src.subrange(t + 1, e)],
                        None => Seq::empty(),
                    }
                } else {
                    Seq::empty()
                }
            };
            if after <= from || after > src.len() {
                found
            } else {
                found + specs_for(src, kw, after)
            }
        },
    }
}

/// Every module specifier of a source, generously: those after `from`, then `import`, then
/// `require`.
pub open spec fn extract_specifiers_spec(src: Seq<char>) -> Seq<Seq<char>> {
    specs_for(src, "from"@, 0) + specs_for(src, "import"@, 0) + specs_for(src, "require"@, 0)
}

fn specs_for_exec(src: &[char], kw: &[char], out: &mut Vec<String>)
    ensures
        strs(final(out)@) == strs(old(out)@) + specs_for(src@, kw@, 0),
{
    let mut from: usize = 0;
    assert(strs(out@) + specs_for(src@, kw@, 0) =~= strs(old(out)@) + specs_for(src@, kw@, 0));
    loop
        invariant
            from <= src.len(),
            strs(old(out)@) + specs_for(src@, kw@, 0) == strs(out@) + specs_for(src@, kw@, from as int),
        decreases src.len() + 1 - from,
    {
        proof {
            lemma_find_from(src@, kw@, from as int);
        }
        match find_at(src, kw, from) {
            None => {
                assert(strs(out@) + Seq::<Seq<char>>::empty() =~= strs(out@));
                return;
            },
            Some(at) => {
                let after = at + kw.len();
                let ghost before = strs(out@);
                let ghost found: Seq<Seq<char>> = Seq::empty();
                if !(at > 0 && is_ascii_alnum_exec(src[at - 1])) {
                    let t = skip_ws_paren_exec(src, after);
                    if t < src.len() && (src[t] == '\'' || src[t] == '"' || src[t] == '`') {
                        let q: Vec<char> = vec![src[t]];
                        assert(q@ =~= seq![src@[t as int]]);
                        proof {
                            lemma_find_from(src@, q@, t + 1);
                        }
                        match find_at(src, q.as_slice(), t + 1) {
                            Some(e) => {
                                let piece = slice_range(src, t + 1, e);
                                out.push(string_of(piece.as_slice()));
                                proof {
                                    found = seq![piece@];
                                }
                                assert(strs(out@) =~= before + found);
                            },
                            None => {},
                        }
                    }
                }
                if after <= from || after > src.len() {
                    assert(strs(out@) + Seq::<Seq<char>>::empty() =~= strs(out@));
                    return;
                }
                assert(before + (found + specs_for(src@, kw@, after as int)) =~= (before + found)
                    + specs_for(src@, kw@, after as int));
                from = after;
            },
        }
    }
}

/// Module specifiers of a source (see `extract_specifiers_spec`).
pub fn extract_specifiers(src: &str) -> (r: Vec<String>)
    ensures
        strs(r@) == extract_specifiers_spec(src@),
{
    let s = chars_of(src);
    let mut out: Vec<String> = Vec::new();
    assert(strs(out@) =~= Seq::<Seq<char>>::empty());
    specs_for_exec(s.as_slice(), chars_of("from").as_slice(), &mut out);
    specs_for_exec(s.as_slice(), chars_of("import").as_slice(), &mut out);
    specs_for_exec(s.as_slice(), chars_of("require").as_slice(), &mut out);
    assert(Seq::<Seq<char>>::empty() + specs_for(src@, "from"@, 0) =~= specs_for(src@, "from"@, 0));
    out
}

/// A path inside `node_modules` (one of its components is `node_modules`).
pub open spec fn is_node_modules_spec(p: Seq<char>) -> bool {
    split_spec(p, '/').contains("node_modules"@)
}

pub fn is_node_modules(p: &str) -> (b: bool)
    ensures
        b == is_node_modules_spec(p@),
{
    let c = chars_of(p);
    let pieces = split_char(c.as_slice(), '/');
    let ghost ps = split_spec(p@, '/');
    let nm = chars_of("node_modules");
    let mut i: usize = 0;
    while i < pieces.len()
        invariant
            i <= pieces@.len() == ps.len(),
            ps == split_spec(p@, '/'),
            nm@ == "node_modules"@,
            forall|j: int| 0 <= j < pieces@.len() ==> #[trigger] pieces@[j]@ == ps[j],
            forall|j: int| 0 <= j < i ==> ps[j] != "node_modules"@,
        decreases pieces@.len() - i,
    {
        if chars_eq(pieces[i].as_slice(), nm.as_slice()) {
            assert(ps[i as int] == "node_modules"@);
            return true;
        }
        i += 1;
    }
    false
}

} // verus!

verus! {

/// For each file, the files its specifiers resolve to.
pub struct DepGraph {
    pub edges: Vec<(String, Vec<String>)>,
}

/// The resolved imports of `n` (its first entry), none if it has no entry.
pub open spec fn deps_of(g: &DepGraph, n: Seq<char>) -> Seq<Seq<char>> {
    let i = first_index(file_keys(g.edges@), n);
    if i >= 0 {
        strs(g.edges@[i].1@)
    } else {
        Seq::empty()
    }
}

/// Files reached from `s` in at most `k + 1` import steps, never stepping out of a
/// node_modules file (its imports are not followed).
pub open spec fn reach_within(g: &DepGraph, s: Seq<char>, k: nat) -> Set<Seq<char>>
    decreases k,
{
    if k == 0 {
        Set::new(|d: Seq<char>| deps_of(g, s).contains(d))
    } else {
        let prev = reach_within(g, s, (k - 1) as nat);
        Set::new(
            |d: Seq<char>|
                prev.contains(d) || exists|m: Seq<char>|
                    #![trigger prev.contains(m), deps_of(g, m)]
                    prev.contains(m) && !is_node_modules_spec(m) && deps_of(g, m).contains(d),
        )
    }
}

/// `d` is transitively imported by `s`.
pub open spec fn reachable(g: &DepGraph, s: Seq<char>, d: Seq<char>) -> bool {
    exists|k: nat| #[trigger] reach_within(g, s, k).contains(d)
}

/// Every resolved import in the graph, entry by entry.
pub open spec fn all_deps(e: Seq<(String, Vec<String>)>) -> Seq<Seq<char>>
    decreases e.len(),
{
    if e.len() == 0 {
        Seq::empty()
    } else {
        all_deps(e.drop_last()) + strs(e.last().1@)
    }
}

pub(crate) proof fn lemma_all_deps(e: Seq<(String, Vec<String>)>, i: int, d: Seq<char>)
    requires
        0 <= i < e.len(),
        strs(e[i].1@).contains(d),
    ensures
        all_deps(e).contains(d),
    decreases e.len(),
{
    let a = all_deps(e.drop_last());
    let b = strs(e.last().1@);
    if i == e.len() - 1 {
        let j = choose|j: int| 0 <= j < b.len() && b[j] == d;
        assert((a + b)[a.len() + j] == d);
    } else {
        lemma_all_deps(e.drop_last(), i, d);
        let j = choose|j: int| 0 <= j < a.len() && a[j] == d;
        assert((a + b)[j] == d);
    }
}

proof fn lemma_deps_in_all(g: &DepGraph, n: Seq<char>, d: Seq<char>)
    requires
        deps_of(g, n).contains(d),
    ensures
        all_deps(g.edges@).contains(d),
{
    lemma_first_index(file_keys(g.edges@), n);
    lemma_all_deps(g.edges@, first_index(file_keys(g.edges@), n), d);
}

/// A duplicate-free list drawn from `z` is no longer than `z`.
pub(crate) proof fn lemma_len_bound(v: Seq<Seq<char>>, z: Seq<Seq<char>>)
    requires
        v.no_duplicates(),
        forall|j: int| 0 <= j < v.len() ==> z.contains(#[trigger] v[j]),
    ensures
        v.len() <= z.len(),
{
    v.unique_seq_to_set();
    z.lemma_cardinality_of_set();
    assert(v.to_set().subset_of(z.to_set())) by {
        assert forall|x: Seq<char>| v.to_set().contains(x) implies z.to_set().contains(x) by {
            let j = choose|j: int| 0 <= j < v.len() && v[j] == x;
            assert(z.contains(v[j]));
        }
    }
    vstd::set_lib::lemma_len_subset(v.to_set(), z.to_set());
}

fn contains_string(v: &[String], s: &String) -> (b: bool)
    ensures
        b == strs(v@).contains(s@),
{
    let mut i: usize = 0;
    while i < v.len()
        invariant
            i <= v@.len(),
            forall|j: int| 0 <= j < i ==> strs(v@)[j] != s@,
        decreases v@.len() - i,
    {
        if v[i] == *s {
            assert(strs(v@)[i as int] == s@);
            return true;
        }
        i += 1;
    }
    false
}

/// The entry of `n`, where it has one.
fn deps_index(g: &DepGraph, n: &String) -> (r: Option<usize>)
    ensures
        match r {
            Some(i) => i < g.edges@.len() && deps_of(g, n@) == strs(g.edges@[i as int].1@),
            None => deps_of(g, n@) == Seq::<Seq<char>>::empty(),
        },
{
    let r = find_file(&g.edges, n);
    proof {
        lemma_first_index(file_keys(g.edges@), n@);
    }
    r
}

/// Append the members of `ds` that `v` lacks.
fn add_new(v: &mut Vec<String>, ds: &Vec<String>, Ghost(z): Ghost<Seq<Seq<char>>>)
    requires
        strs(old(v)@).no_duplicates(),
        forall|j: int| 0 <= j < old(v)@.len() ==> z.contains(#[trigger] strs(old(v)@)[j]),
        forall|j: int| 0 <= j < ds@.len() ==> z.contains(#[trigger] strs(ds@)[j]),
    ensures
        strs(final(v)@).no_duplicates(),
        strs(old(v)@).is_prefix_of(strs(final(v)@)),
        forall|j: int| 0 <= j < final(v)@.len() ==> z.contains(#[trigger] strs(final(v)@)[j]),
        forall|d: Seq<char>| strs(ds@).contains(d) ==> strs(final(v)@).contains(d),
        forall|j: int|
            old(v)@.len() <= j < final(v)@.len() ==> strs(ds@).contains(#[trigger] strs(final(v)@)[j]),
        final(v)@.len() <= z.len(),
{
    let mut k: usize = 0;
    while k < ds.len()
        invariant
            k <= ds@.len(),
            strs(v@).no_duplicates(),
            strs(old(v)@).is_prefix_of(strs(v@)),
            forall|j: int| 0 <= j < v@.len() ==> z.contains(#[trigger] strs(v@)[j]),
            forall|j: int| 0 <= j < ds@.len() ==> z.contains(#[trigger] strs(ds@)[j]),
            forall|j: int| 0 <= j < k ==> strs(v@).contains(#[trigger] strs(ds@)[j]),
            forall|j: int|
                old(v)@.len() <= j < v@.len() ==> strs(ds@).contains(#[trigger] strs(v@)[j]),
        decreases ds@.len() - k,
    {
        if !contains_string(v.as_slice(), &ds[k]) {
            let ghost before = strs(v@);
            v.push(ds[k].clone());
            assert(strs(v@) =~= before.push(ds@[k as int]@));
            assert(strs(ds@)[k as int] == ds@[k as int]@);
            assert(strs(v@).no_duplicates()) by {
                assert forall|a: int, b: int|
                    0 <= a < strs(v@).len() && 0 <= b < strs(v@).len() && a != b implies strs(v@)[a]
                    != strs(v@)[b] by {
                    if a < before.len() && b < before.len() {
                        assert(strs(v@)[a] == before[a] && strs(v@)[b] == before[b]);
                    } else if a == before.len() {
                        assert(strs(v@)[b] == before[b]);
                    } else {
                        assert(strs(v@)[a] == before[a]);
                    }
                }
            }
            assert forall|j: int| 0 <= j < k + 1 implies strs(v@).contains(#[trigger] strs(ds@)[j]) by {
                if j < k {
                    let w = choose|w: int| 0 <= w < before.len() && before[w] == strs(ds@)[j];
                    assert(strs(v@)[w] == before[w]);
                } else {
                    assert(strs(v@)[before.len() as int] == strs(ds@)[j]);
                }
            }
            assert forall|j: int| old(v)@.len() <= j < v@.len() implies strs(ds@).contains(
                #[trigger] strs(v@)[j],
            ) by {
                if j < before.len() {
                    assert(strs(v@)[j] == before[j]);
                } else {
                    assert(strs(ds@)[k as int] == strs(v@)[j]);
                }
            }
            assert(strs(old(v)@).is_prefix_of(strs(v@))) by {
                assert forall|j: int| 0 <= j < strs(old(v)@).len() implies strs(old(v)@)[j] == strs(v@)[j] by {
                    assert(strs(v@)[j] == before[j]);
                }
            }
        }
        k += 1;
    }
    assert forall|d: Seq<char>| strs(ds@).contains(d) implies strs(v@).contains(d) by {
        let j = choose|j: int| 0 <= j < ds@.len() && strs(ds@)[j] == d;
    }
    proof {
        lemma_len_bound(strs(v@), z);
    }
}

/// Every file `file` transitively imports, each once: its resolved imports, and theirs in
/// turn, except that a node_modules file's imports are not followed.
pub fn transitive_imports(g: &DepGraph, file: &str) -> (r: Vec<String>)
    ensures
        strs(r@).no_duplicates(),
        forall|d: Seq<char>| strs(r@).contains(d) <==> reachable(g, file@, d),
{
    let ghost z = all_deps(g.edges@);
    let f = file.to_owned();
    let mut v: Vec<String> = Vec::new();
    assert(strs(v@) =~= Seq::<Seq<char>>::empty());
    match deps_index(g, &f) {
        Some(i) => {
            proof {
                assert forall|j: int| 0 <= j < g.edges@[i as int].1@.len() implies z.contains(
                    #[trigger] strs(g.edges@[i as int].1@)[j],
                ) by {
                    lemma_deps_in_all(g, file@, strs(g.edges@[i as int].1@)[j]);
                }
            }
            add_new(&mut v, &g.edges[i].1, Ghost(z));
        },
        None => {},
    }
    proof {
        assert forall|j: int| 0 <= j < v@.len() implies reach_within(g, file@, 0).contains(
            #[trigger] strs(v@)[j],
        ) by {}
    }
    let mut next: usize = 0;
    while next < v.len()
        invariant
            next <= v@.len() <= z.len(),
            z == all_deps(g.edges@),
            strs(v@).no_duplicates(),
            forall|j: int| 0 <= j < v@.len() ==> z.contains(#[trigger] strs(v@)[j]),
            forall|j: int| 0 <= j < v@.len() ==> reachable(g, file@, #[trigger] strs(v@)[j]),
            forall|d: Seq<char>| deps_of(g, file@).contains(d) ==> strs(v@).contains(d),
            forall|j: int, d: Seq<char>|
                0 <= j < next && !is_node_modules_spec(strs(v@)[j]) && #[trigger] deps_of(
                    g,
                    #[trigger] strs(v@)[j],
                ).contains(d) ==> strs(v@).contains(d),
        decreases z.len() - v@.len(), v@.len() - next,
    {
        let m = v[next].clone();
        assert(m@ == strs(v@)[next as int]);
        if !is_node_modules(m.as_str()) {
            match deps_index(g, &m) {
                Some(i) => {
                    let ghost before = strs(v@);
                    assert(forall|d: Seq<char>| deps_of(g, file@).contains(d) ==> before.contains(d));
                    proof {
                        assert forall|j: int| 0 <= j < g.edges@[i as int].1@.len() implies z.contains(
                            #[trigger] strs(g.edges@[i as int].1@)[j],
                        ) by {
                            lemma_deps_in_all(g, m@, strs(g.edges@[i as int].1@)[j]);
                        }
                    }
                    add_new(&mut v, &g.edges[i].1, Ghost(z));
                    proof {
                        assert forall|j: int| 0 <= j < v@.len() implies reachable(
                            g,
                            file@,
                            #[trigger] strs(v@)[j],
                        ) by {
                            if j < before.len() {
                                assert(strs(v@)[j] == before[j]);
                            } else {
                                let k = choose|k: nat| #[trigger] reach_within(g, file@, k).contains(m@);
                                assert(deps_of(g, m@).contains(strs(v@)[j]));
                                assert(reach_within(g, file@, k + 1).contains(strs(v@)[j]));
                            }
                        }
                        assert forall|d: Seq<char>| deps_of(g, file@).contains(d) implies strs(v@).contains(d) by {
                            lemma_prefix_contains(before, strs(v@), d);
                        }
                        assert forall|j: int, d: Seq<char>|
                            0 <= j < next + 1 && !is_node_modules_spec(strs(v@)[j]) && #[trigger] deps_of(
                                g,
                                #[trigger] strs(v@)[j],
                            ).contains(d) implies strs(v@).contains(d) by {
                            assert(strs(v@)[j] == before[j]);
                            if j < next {
                                let w = choose|w: int| 0 <= w < before.len() && before[w] == d;
                                assert(strs(v@)[w] == before[w]);
                            }
                        }
                    }
                },
                None => {},
            }
        }
        next += 1;
    }
    proof {
        assert forall|d: Seq<char>| reachable(g, file@, d) implies strs(v@).contains(d) by {
            let k = choose|k: nat| #[trigger] reach_within(g, file@, k).contains(d);
            lemma_reach_in(g, file@, k, v@);
        }
        assert forall|d: Seq<char>| strs(v@).contains(d) implies reachable(g, file@, d) by {
            let j = choose|j: int| 0 <= j < strs(v@).len() && strs(v@)[j] == d;
        }
    }
    v
}

pub(crate) proof fn lemma_prefix_contains(a: Seq<Seq<char>>, b: Seq<Seq<char>>, d: Seq<char>)
    requires
        a.is_prefix_of(b),
        a.contains(d),
    ensures
        b.contains(d),
{
    let w = choose|w: int| 0 <= w < a.len() && a[w] == d;
    assert(b.subrange(0, a.len() as int)[w] == b[w]);
}

/// A list closed under following imports holds everything reachable.
proof fn lemma_reach_in(g: &DepGraph, s: Seq<char>, k: nat, v: Seq<String>)
    requires
        forall|d: Seq<char>| deps_of(g, s).contains(d) ==> strs(v).contains(d),
        forall|j: int, d: Seq<char>|
            0 <= j < v.len() && !is_node_modules_spec(strs(v)[j]) && #[trigger] deps_of(
                g,
                #[trigger] strs(v)[j],
            ).contains(d) ==> strs(v).contains(d),
    ensures
        forall|d: Seq<char>| #[trigger] reach_within(g, s, k).contains(d) ==> strs(v).contains(d),
    decreases k,
{
    if k > 0 {
        lemma_reach_in(g, s, (k - 1) as nat, v);
        assert forall|d: Seq<char>| #[trigger] reach_within(g, s, k).contains(d) implies strs(v).contains(d) by {
            let prev = reach_within(g, s, (k - 1) as nat);
            if !prev.contains(d) {
                let m = choose|m: Seq<char>|
                    #![trigger prev.contains(m), deps_of(g, m)]
                    prev.contains(m) && !is_node_modules_spec(m) && deps_of(g, m).contains(d);
                assert(strs(v).contains(m));
                let j = choose|j: int| 0 <= j < strs(v).len() && strs(v)[j] == m;
                assert(deps_of(g, strs(v)[j]).contains(d));
            }
        }
    }
}

} // verus!

verus! {

/// A test is affected when it changed itself or transitively imports a changed file.
pub open spec fn is_affected(g: &DepGraph, changed: Seq<Seq<char>>, t: Seq<char>) -> bool {
    changed.contains(t) || exists|d: Seq<char>| #[trigger] reachable(g, t, d) && changed.contains(d)
}

/// The affected tests, in the order given.
pub open spec fn affected_spec(g: &DepGraph, changed: Seq<Seq<char>>, tests: Seq<Seq<char>>) -> Seq<
    Seq<char>,
>
    decreases tests.len(),
{
    if tests.len() == 0 {
        Seq::empty()
    } else {
        let prev = affected_spec(g, changed, tests.drop_last());
        if is_affected(g, changed, tests.last()) {
            prev.push(tests.last())
        } else {
            prev
        }
    }
}

fn any_in(v: &Vec<String>, changed: &[String]) -> (b: bool)
    ensures
        b == exists|j: int| 0 <= j < v@.len() && strs(changed@).contains(#[trigger] strs(v@)[j]),
{
    let mut i: usize = 0;
    while i < v.len()
        invariant
            i <= v@.len(),
            forall|j: int| 0 <= j < i ==> !strs(changed@).contains(#[trigger] strs(v@)[j]),
        decreases v@.len() - i,
    {
        if contains_string(changed, &v[i]) {
            assert(strs(changed@).contains(strs(v@)[i as int]));
            return true;
        }
        i += 1;
    }
    false
}

/// The test files a change affects: those changed themselves or transitively importing a
/// changed file, in the order given.
pub fn affected_tests(g: &DepGraph, changed: &[String], tests: &[String]) -> (r: Vec<String>)
    ensures
        strs(r@) == affected_spec(g, strs(changed@), strs(tests@)),
{
    let ghost cs = strs(changed@);
    let ghost ts = strs(tests@);
    let mut out: Vec<String> = Vec::new();
    let mut i: usize = 0;
    assert(ts.take(0) =~= Seq::<Seq<char>>::empty());
    assert(strs(out@) =~= Seq::<Seq<char>>::empty());
    while i < tests.len()
        invariant
            i <= tests@.len(),
            cs == strs(changed@),
            ts == strs(tests@),
            strs(out@) == affected_spec(g, cs, ts.take(i as int)),
        decreases tests@.len() - i,
    {
        assert(ts.take(i + 1).drop_last() =~= ts.take(i as int));
        assert(ts.take(i + 1).last() == tests@[i as int]@);
        let t = &tests[i];
        let keep = if contains_string(changed, t) {
            true
        } else {
            let deps = transitive_imports(g, t.as_str());
            let hit = any_in(&deps, changed);
            proof {
                if hit {
                    let j = choose|j: int| 0 <= j < deps@.len() && cs.contains(#[trigger] strs(deps@)[j]);
                    assert(strs(deps@).contains(strs(deps@)[j]));
                    assert(reachable(g, t@, strs(deps@)[j]));
                } else {
                    assert forall|d: Seq<char>| #[trigger] reachable(g, t@, d) implies !cs.contains(d) by {
                        assert(strs(deps@).contains(d));
                        let j = choose|j: int| 0 <= j < deps@.len() && strs(deps@)[j] == d;
                    }
                }
            }
            hit
        };
        assert(keep == is_affected(g, cs, t@));
        if keep {
            let ghost before = strs(out@);
            out.push(t.clone());
            assert(strs(out@) =~= before.push(t@));
        }
        i += 1;
    }
    assert(ts.take(tests@.len() as int) =~= ts);
    out
}

proof fn lemma_affected_member(g: &DepGraph, changed: Seq<Seq<char>>, tests: Seq<Seq<char>>, t: Seq<char>)
    ensures
        affected_spec(g, changed, tests).contains(t) <==> (tests.contains(t) && is_affected(g, changed, t)),
    decreases tests.len(),
{
    if tests.len() > 0 {
        let rest = tests.drop_last();
        lemma_affected_member(g, changed, rest, t);
        let prev = affected_spec(g, changed, rest);
        assert(tests =~= rest.push(tests.last()));
        if tests.contains(t) && !rest.contains(t) {
            let j = choose|j: int| 0 <= j < tests.len() && tests[j] == t;
            if j < rest.len() {
                assert(rest[j] == t);
            }
        }
        if rest.contains(t) {
            let j = choose|j: int| 0 <= j < rest.len() && rest[j] == t;
            assert(tests[j] == t);
        }
        if is_affected(g, changed, tests.last()) {
            if prev.push(tests.last()).contains(t) && !prev.contains(t) {
                let j = choose|j: int| 0 <= j < prev.len() + 1 && prev.push(tests.last())[j] == t;
                if j < prev.len() {
                    assert(prev[j] == t);
                }
            }
            if prev.contains(t) {
                let j = choose|j: int| 0 <= j < prev.len() && prev[j] == t;
                assert(prev.push(tests.last())[j] == t);
            }
            if t == tests.last() {
                assert(prev.push(tests.last())[prev.len() as int] == t);
            }
        }
    }
}

/// Affected-test selection never misses a test: every given test that transitively imports
/// a changed file, or changed itself, is selected — and only those are.
pub proof fn law_affected_exact(
    g: &DepGraph,
    changed: Seq<Seq<char>>,
    tests: Seq<Seq<char>>,
    t: Seq<char>,
    d: Seq<char>,
)
    requires
        tests.contains(t),
        changed.contains(d),
        d == t || reachable(g, t, d),
    ensures
        affected_spec(g, changed, tests).contains(t),
{
    lemma_affected_member(g, changed, tests, t);
}

/// Only affected tests are selected.
pub proof fn law_affected_only(
    g: &DepGraph,
    changed: Seq<Seq<char>>,
    tests: Seq<Seq<char>>,
    t: Seq<char>,
)
    requires
        affected_spec(g, changed, tests).contains(t),
    ensures
        tests.contains(t),
        is_affected(g, changed, t),
{
    lemma_affected_member(g, changed, tests, t);
}

} // verus!
