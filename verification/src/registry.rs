//! The worker's module registry and isolate-reuse state. The tables are keyed by resolved
//! path; what they hold for a path (compiled modules `M`, export values `V`, in-progress
//! module objects `O`) belongs to the JavaScript engine and is carried through untouched.
//! The decisions made here are which paths leave the tables: all of them, the importers of
//! a re-mocked module, or what a test file mocked once it has run.

use vstd::prelude::*;

use crate::assoc::{first_index, lemma_first_index};
use crate::covdata::{file_keys, find_file};
use crate::text::{chars_of, contains_chars, contains_seq, strs};

verus! {

/// One worker's module tables.
pub struct Registry<M, V, O> {
    pub esm_by_path: Vec<(String, M)>,
    pub cjs_synth_by_path: Vec<(String, M)>,
    pub cjs_exports: Vec<(String, V)>,
    /// Genuine (unmocked) exports of each loaded module, kept when a mock replaces them.
    pub real_exports: Vec<(String, V)>,
    pub cjs_export_names: Vec<(String, Vec<String>)>,
    pub path_by_hash: Vec<(i32, String)>,
    /// Mocked path and the source of its factory.
    pub mocks: Vec<(String, String)>,
    /// Modules whose evaluation is in progress (for circular requires).
    pub loading: Vec<(String, O)>,
    /// Names a bundle imports from a mocked path beyond what the factory gives.
    pub extra_exports: Vec<(String, Vec<String>)>,
    /// Lazily stubbed barrels by specifier.
    pub lazy_stub_ns: Vec<(String, V)>,
    /// Imported path and the paths that required it.
    pub import_edges: Vec<(String, Vec<String>)>,
    /// Generated bundle and the source directory it was built from.
    pub bundle_src_dir: Vec<(String, String)>,
}

/// The entries of `t` whose key is not in `ps` (`keep_listed` false), or whose key is in
/// `ps` (`keep_listed` true), in order.
pub open spec fn filter_keys<T>(t: Seq<(String, T)>, ps: Seq<Seq<char>>, keep_listed: bool) -> Seq<
    (String, T),
>
    decreases t.len(),
{
    if t.len() == 0 {
        t
    } else {
        let rest = filter_keys(t.drop_first(), ps, keep_listed);
        if ps.contains(t[0].0@) == keep_listed {
            seq![t[0]] + rest
        } else {
            rest
        }
    }
}

/// Whether the registry holds no module, mock or edge (the bundle directories aside).
pub open spec fn is_cleared<M, V, O>(r: &Registry<M, V, O>) -> bool {
    &&& r.esm_by_path@.len() == 0
    &&& r.cjs_synth_by_path@.len() == 0
    &&& r.cjs_exports@.len() == 0
    &&& r.real_exports@.len() == 0
    &&& r.cjs_export_names@.len() == 0
    &&& r.path_by_hash@.len() == 0
    &&& r.mocks@.len() == 0
    &&& r.loading@.len() == 0
    &&& r.extra_exports@.len() == 0
    &&& r.lazy_stub_ns@.len() == 0
    &&& r.import_edges@.len() == 0
}

impl<M, V, O> Registry<M, V, O> {
    pub fn new() -> (r: Self)
        ensures
            is_cleared(&r),
            r.bundle_src_dir@.len() == 0,
    {
        Registry {
            esm_by_path: Vec::new(),
            cjs_synth_by_path: Vec::new(),
            cjs_exports: Vec::new(),
            real_exports: Vec::new(),
            cjs_export_names: Vec::new(),
            path_by_hash: Vec::new(),
            mocks: Vec::new(),
            loading: Vec::new(),
            extra_exports: Vec::new(),
            lazy_stub_ns: Vec::new(),
            import_edges: Vec::new(),
            bundle_src_dir: Vec::new(),
        }
    }
}

/// Empty every table but the bundle directories.
pub fn clear_registry<M, V, O>(reg: &mut Registry<M, V, O>)
    ensures
        is_cleared(&*final(reg)),
        final(reg).bundle_src_dir@ == old(reg).bundle_src_dir@,
{
    reg.esm_by_path.clear();
    reg.cjs_synth_by_path.clear();
    reg.cjs_exports.clear();
    reg.real_exports.clear();
    reg.cjs_export_names.clear();
    reg.path_by_hash.clear();
    reg.mocks.clear();
    reg.extra_exports.clear();
    reg.loading.clear();
    reg.lazy_stub_ns.clear();
    reg.import_edges.clear();
}

fn contains_str(v: &[String], s: &String) -> (b: bool)
    ensures
        b == strs(v@).contains(s@),
{
    let mut i: usize = 0;
    while i < v.len()
        invariant
            i <= v@.len(),
            forall|j: int| 0 <= j < i ==> strs(v@)[j] != s@,
        decreases v@.len() - i,
    {
        if v[i] == *s {
            assert(strs(v@)[i as int] == s@);
            return true;
        }
        i += 1;
    }
    false
}

/// Keep the entries `filter_keys` keeps.
pub fn filter_table<T>(t: &mut Vec<(String, T)>, ps: &[String], keep_listed: bool)
    ensures
        final(t)@ == filter_keys(old(t)@, strs(ps@), keep_listed),
{
    let ghost o = t@;
    let ghost pv = strs(ps@);
    let mut i: usize = t.len();
    assert(o.skip(o.len() as int) =~= Seq::<(String, T)>::empty());
    assert(o.take(o.len() as int) =~= o);
    assert(t@ =~= o.take(i as int) + filter_keys(o.skip(i as int), pv, keep_listed));
    while i > 0
        invariant
            i <= o.len(),
            pv == strs(ps@),
            t@ == o.take(i as int) + filter_keys(o.skip(i as int), pv, keep_listed),
        decreases i,
    {
        i -= 1;
        assert(o.skip(i as int).drop_first() =~= o.skip(i + 1));
        assert(o.skip(i as int)[0] == o[i as int]);
        assert(t@[i as int] == o[i as int]);
        let hit = contains_str(ps, &t[i].0);
        if hit != keep_listed {
            t.remove(i);
            assert(t@ =~= o.take(i as int) + filter_keys(o.skip(i as int), pv, keep_listed));
        } else {
            assert(o.take(i + 1) =~= o.take(i as int).push(o[i as int]));
            assert(t@ =~= o.take(i as int) + filter_keys(o.skip(i as int), pv, keep_listed));
        }
    }
    assert(o.take(0) + filter_keys(o.skip(0), pv, keep_listed) =~= filter_keys(o, pv, keep_listed));
}

/// Drop the modules at `paths` from the five tables that hold loaded modules.
pub fn evict_modules<M, V, O>(reg: &mut Registry<M, V, O>, paths: &[String])
    ensures
        final(reg).cjs_exports@ == filter_keys(old(reg).cjs_exports@, strs(paths@), false),
        final(reg).cjs_synth_by_path@ == filter_keys(
            old(reg).cjs_synth_by_path@,
            strs(paths@),
            false,
        ),
        final(reg).cjs_export_names@ == filter_keys(
            old(reg).cjs_export_names@,
            strs(paths@),
            false,
        ),
        final(reg).real_exports@ == filter_keys(old(reg).real_exports@, strs(paths@), false),
        final(reg).esm_by_path@ == filter_keys(old(reg).esm_by_path@, strs(paths@), false),
        final(reg).path_by_hash@ == old(reg).path_by_hash@,
        final(reg).mocks@ == old(reg).mocks@,
        final(reg).loading@ == old(reg).loading@,
        final(reg).extra_exports@ == old(reg).extra_exports@,
        final(reg).lazy_stub_ns@ == old(reg).lazy_stub_ns@,
        final(reg).import_edges@ == old(reg).import_edges@,
        final(reg).bundle_src_dir@ == old(reg).bundle_src_dir@,
{
    filter_table(&mut reg.cjs_exports, paths, false);
    filter_table(&mut reg.cjs_synth_by_path, paths, false);
    filter_table(&mut reg.cjs_export_names, paths, false);
    filter_table(&mut reg.real_exports, paths, false);
    filter_table(&mut reg.esm_by_path, paths, false);
}

} // verus!

verus! {

/// A path inside a `/node_modules/` directory.
pub open spec fn in_node_modules(p: Seq<char>) -> bool {
    contains_seq(p, "/node_modules/"@)
}

/// The paths recorded as requiring `m` (those of its first entry).
pub open spec fn importers_of(e: Seq<(String, Vec<String>)>, m: Seq<char>) -> Seq<Seq<char>> {
    let i = first_index(file_keys(e), m);
    if i >= 0 {
        strs(e[i].1@)
    } else {
        Seq::empty()
    }
}

/// The app importers of `t` reached in at most `k + 1` steps from an imported module to
/// a module that required it; node_modules importers are not entered.
pub open spec fn importers_within(e: Seq<(String, Vec<String>)>, t: Seq<char>, k: nat) -> Set<
    Seq<char>,
>
    decreases k,
{
    if k == 0 {
        Set::new(|d: Seq<char>| importers_of(e, t).contains(d) && !in_node_modules(d))
    } else {
        let prev = importers_within(e, t, (k - 1) as nat);
        Set::new(
            |d: Seq<char>|
                prev.contains(d) || (!in_node_modules(d) && exists|m: Seq<char>|
                    #![trigger prev.contains(m), importers_of(e, m)]
                    prev.contains(m) && importers_of(e, m).contains(d)),
        )
    }
}

/// `d` (transitively) required `t` through app modules only: re-mocking `t` evicts `d`.
pub open spec fn evicted_by(e: Seq<(String, Vec<String>)>, t: Seq<char>, d: Seq<char>) -> bool {
    exists|k: nat| #[trigger] importers_within(e, t, k).contains(d)
}

fn importers_index(e: &Vec<(String, Vec<String>)>, n: &String) -> (r: Option<usize>)
    ensures
        match r {
            Some(i) => i < e@.len() && importers_of(e@, n@) == strs(e@[i as int].1@),
            None => importers_of(e@, n@) == Seq::<Seq<char>>::empty(),
        },
{
    let r = find_file(e, n);
    proof {
        lemma_first_index(file_keys(e@), n@);
    }
    r
}

fn in_node_modules_exec(p: &String) -> (b: bool)
    ensures
        b == in_node_modules(p@),
{
    proof {
        reveal_strlit("/node_modules/");
    }
    contains_chars(chars_of(p.as_str()).as_slice(), chars_of("/node_modules/").as_slice())
}

/// Append the app paths of `ds` that `v` lacks.
fn add_app_new(v: &mut Vec<String>, ds: &Vec<String>, Ghost(z): Ghost<Seq<Seq<char>>>)
    requires
        strs(old(v)@).no_duplicates(),
        forall|j: int| 0 <= j < old(v)@.len() ==> z.contains(#[trigger] strs(old(v)@)[j]),
        forall|j: int| 0 <= j < ds@.len() ==> z.contains(#[trigger] strs(ds@)[j]),
    ensures
        strs(final(v)@).no_duplicates(),
        strs(old(v)@).is_prefix_of(strs(final(v)@)),
        forall|j: int| 0 <= j < final(v)@.len() ==> z.contains(#[trigger] strs(final(v)@)[j]),
        forall|d: Seq<char>|
            strs(ds@).contains(d) && !in_node_modules(d) ==> strs(final(v)@).contains(d),
        forall|j: int|
            old(v)@.len() <= j < final(v)@.len() ==> strs(ds@).contains(#[trigger] strs(final(v)@)[j])
                && !in_node_modules(strs(final(v)@)[j]),
        final(v)@.len() <= z.len(),
{
    let mut k: usize = 0;
    while k < ds.len()
        invariant
            k <= ds@.len(),
            strs(v@).no_duplicates(),
            strs(old(v)@).is_prefix_of(strs(v@)),
            forall|j: int| 0 <= j < v@.len() ==> z.contains(#[trigger] strs(v@)[j]),
            forall|j: int| 0 <= j < ds@.len() ==> z.contains(#[trigger] strs(ds@)[j]),
            forall|j: int|
                0 <= j < k && !in_node_modules(strs(ds@)[j]) ==> strs(v@).contains(
                    #[trigger] strs(ds@)[j],
                ),
            forall|j: int|
                old(v)@.len() <= j < v@.len() ==> strs(ds@).contains(#[trigger] strs(v@)[j])
                    && !in_node_modules(strs(v@)[j]),
        decreases ds@.len() - k,
    {
        assert(strs(ds@)[k as int] == ds@[k as int]@);
        if !in_node_modules_exec(&ds[k]) && !contains_str(v.as_slice(), &ds[k]) {
            let ghost before = strs(v@);
            v.push(ds[k].clone());
            assert(strs(v@) =~= before.push(ds@[k as int]@));
            assert(strs(v@).no_duplicates()) by {
                assert forall|a: int, b: int|
                    0 <= a < strs(v@).len() && 0 <= b < strs(v@).len() && a != b implies strs(v@)[a]
                    != strs(v@)[b] by {
                    if a < before.len() && b < before.len() {
                        assert(strs(v@)[a] == before[a] && strs(v@)[b] == before[b]);
                    } else if a == before.len() {
                        assert(strs(v@)[b] == before[b]);
                    } else {
                        assert(strs(v@)[a] == before[a]);
                    }
                }
            }
            assert forall|j: int|
                0 <= j < k + 1 && !in_node_modules(strs(ds@)[j]) implies strs(v@).contains(
                #[trigger] strs(ds@)[j],
            ) by {
                if j < k {
                    let w = choose|w: int| 0 <= w < before.len() && before[w] == strs(ds@)[j];
                    assert(strs(v@)[w] == before[w]);
                } else {
                    assert(strs(v@)[before.len() as int] == strs(ds@)[j]);
                }
            }
            assert forall|j: int| old(v)@.len() <= j < v@.len() implies strs(ds@).contains(
                #[trigger] strs(v@)[j],
            ) && !in_node_modules(strs(v@)[j]) by {
                if j < before.len() {
                    assert(strs(v@)[j] == before[j]);
                } else {
                    assert(strs(ds@)[k as int] == strs(v@)[j]);
                }
            }
            assert(strs(old(v)@).is_prefix_of(strs(v@))) by {
                assert forall|j: int| 0 <= j < strs(old(v)@).len() implies strs(old(v)@)[j] == strs(
                    v@,
                )[j] by {
                    assert(strs(v@)[j] == before[j]);
                }
            }
        } else {
            assert forall|j: int|
                0 <= j < k + 1 && !in_node_modules(strs(ds@)[j]) implies strs(v@).contains(
                #[trigger] strs(ds@)[j],
            ) by {}
        }
        k += 1;
    }
    assert forall|d: Seq<char>| strs(ds@).contains(d) && !in_node_modules(d) implies strs(
        v@,
    ).contains(d) by {
        let j = choose|j: int| 0 <= j < ds@.len() && strs(ds@)[j] == d;
    }
    proof {
        crate::graph::lemma_len_bound(strs(v@), z);
    }
}

proof fn lemma_importers_in_all(e: Seq<(String, Vec<String>)>, n: Seq<char>, d: Seq<char>)
    requires
        importers_of(e, n).contains(d),
    ensures
        crate::graph::all_deps(e).contains(d),
{
    lemma_first_index(file_keys(e), n);
    crate::graph::lemma_all_deps(e, first_index(file_keys(e), n), d);
}

/// A list closed under stepping to app importers holds every evicted path.
proof fn lemma_evicted_in(e: Seq<(String, Vec<String>)>, t: Seq<char>, k: nat, v: Seq<String>)
    requires
        forall|d: Seq<char>|
            importers_of(e, t).contains(d) && !in_node_modules(d) ==> strs(v).contains(d),
        forall|j: int, d: Seq<char>|
            0 <= j < v.len() && #[trigger] importers_of(e, #[trigger] strs(v)[j]).contains(d)
                && !in_node_modules(d) ==> strs(v).contains(d),
    ensures
        forall|d: Seq<char>| #[trigger] importers_within(e, t, k).contains(d) ==> strs(v).contains(d),
    decreases k,
{
    if k > 0 {
        lemma_evicted_in(e, t, (k - 1) as nat, v);
        assert forall|d: Seq<char>| #[trigger] importers_within(e, t, k).contains(d) implies strs(
            v,
        ).contains(d) by {
            let prev = importers_within(e, t, (k - 1) as nat);
            if !prev.contains(d) {
                let m = choose|m: Seq<char>|
                    #![trigger prev.contains(m), importers_of(e, m)]
                    prev.contains(m) && importers_of(e, m).contains(d);
                assert(strs(v).contains(m));
                let j = choose|j: int| 0 <= j < strs(v).len() && strs(v)[j] == m;
                assert(importers_of(e, strs(v)[j]).contains(d));
            }
        }
    }
}

/// Every app module that (transitively) required `target`, each once.
pub fn importer_closure(e: &Vec<(String, Vec<String>)>, target: &str) -> (r: Vec<String>)
    ensures
        strs(r@).no_duplicates(),
        forall|d: Seq<char>| strs(r@).contains(d) <==> evicted_by(e@, target@, d),
{
    let ghost z = crate::graph::all_deps(e@);
    let f = target.to_owned();
    let mut v: Vec<String> = Vec::new();
    assert(strs(v@) =~= Seq::<Seq<char>>::empty());
    match importers_index(e, &f) {
        Some(i) => {
            proof {
                assert forall|j: int| 0 <= j < e@[i as int].1@.len() implies z.contains(
                    #[trigger] strs(e@[i as int].1@)[j],
                ) by {
                    lemma_importers_in_all(e@, target@, strs(e@[i as int].1@)[j]);
                }
            }
            add_app_new(&mut v, &e[i].1, Ghost(z));
        },
        None => {},
    }
    proof {
        assert forall|j: int| 0 <= j < v@.len() implies importers_within(e@, target@, 0).contains(
            #[trigger] strs(v@)[j],
        ) by {}
    }
    let mut next: usize = 0;
    while next < v.len()
        invariant
            next <= v@.len() <= z.len(),
            z == crate::graph::all_deps(e@),
            strs(v@).no_duplicates(),
            forall|j: int| 0 <= j < v@.len() ==> z.contains(#[trigger] strs(v@)[j]),
            forall|j: int| 0 <= j < v@.len() ==> evicted_by(e@, target@, #[trigger] strs(v@)[j]),
            forall|d: Seq<char>|
                importers_of(e@, target@).contains(d) && !in_node_modules(d) ==> strs(v@).contains(d),
            forall|j: int, d: Seq<char>|
                0 <= j < next && #[trigger] importers_of(e@, #[trigger] strs(v@)[j]).contains(d)
                    && !in_node_modules(d) ==> strs(v@).contains(d),
        decreases z.len() - v@.len(), v@.len() - next,
    {
        let m = v[next].clone();
        assert(m@ == strs(v@)[next as int]);
        match importers_index(e, &m) {
            Some(i) => {
                let ghost before = strs(v@);
                assert(forall|d: Seq<char>|
                    importers_of(e@, target@).contains(d) && !in_node_modules(d) ==> before.contains(
                        d,
                    ));
                proof {
                    assert forall|j: int| 0 <= j < e@[i as int].1@.len() implies z.contains(
                        #[trigger] strs(e@[i as int].1@)[j],
                    ) by {
                        lemma_importers_in_all(e@, m@, strs(e@[i as int].1@)[j]);
                    }
                }
                add_app_new(&mut v, &e[i].1, Ghost(z));
                proof {
                    assert forall|j: int| 0 <= j < v@.len() implies evicted_by(
                        e@,
                        target@,
                        #[trigger] strs(v@)[j],
                    ) by {
                        if j < before.len() {
                            assert(strs(v@)[j] == before[j]);
                        } else {
                            let k = choose|k: nat| #[trigger] importers_within(e@, target@, k).contains(m@);
                            assert(importers_of(e@, m@).contains(strs(v@)[j]));
                            assert(importers_within(e@, target@, k + 1).contains(strs(v@)[j]));
                        }
                    }
                    assert forall|d: Seq<char>|
                        importers_of(e@, target@).contains(d) && !in_node_modules(d) implies strs(
                        v@,
                    ).contains(d) by {
                        crate::graph::lemma_prefix_contains(before, strs(v@), d);
                    }
                    assert forall|j: int, d: Seq<char>|
                        0 <= j < next + 1 && #[trigger] importers_of(e@, #[trigger] strs(v@)[j]).contains(
                            d,
                        ) && !in_node_modules(d) implies strs(v@).contains(d) by {
                        assert(strs(v@)[j] == before[j]);
                        if j < next {
                            let w = choose|w: int| 0 <= w < before.len() && before[w] == d;
                            assert(strs(v@)[w] == before[w]);
                        }
                    }
                }
            },
            None => {},
        }
        next += 1;
    }
    proof {
        assert forall|d: Seq<char>| evicted_by(e@, target@, d) implies strs(v@).contains(d) by {
            let k = choose|k: nat| #[trigger] importers_within(e@, target@, k).contains(d);
            lemma_evicted_in(e@, target@, k, v@);
        }
        assert forall|d: Seq<char>| strs(v@).contains(d) implies evicted_by(e@, target@, d) by {
            let j = choose|j: int| 0 <= j < strs(v@).len() && strs(v@)[j] == d;
        }
    }
    v
}

/// Re-mocking `target`: every app module that (transitively) required it leaves the module
/// tables, so it re-imports the new mock; node_modules importers stay loaded.
pub fn invalidate_importers<M, V, O>(reg: &mut Registry<M, V, O>, target: &str)
    ensures
        exists|ev: Seq<Seq<char>>|
            (forall|d: Seq<char>| #[trigger] ev.contains(d) <==> evicted_by(
                old(reg).import_edges@,
                target@,
                d,
            )) && final(reg).cjs_exports@ == filter_keys(old(reg).cjs_exports@, ev, false)
                && final(reg).cjs_synth_by_path@ == filter_keys(
                old(reg).cjs_synth_by_path@,
                ev,
                false,
            ) && final(reg).cjs_export_names@ == filter_keys(
                old(reg).cjs_export_names@,
                ev,
                false,
            ) && final(reg).real_exports@ == filter_keys(old(reg).real_exports@, ev, false)
                && final(reg).esm_by_path@ == filter_keys(old(reg).esm_by_path@, ev, false),
        final(reg).path_by_hash@ == old(reg).path_by_hash@,
        final(reg).mocks@ == old(reg).mocks@,
        final(reg).loading@ == old(reg).loading@,
        final(reg).extra_exports@ == old(reg).extra_exports@,
        final(reg).lazy_stub_ns@ == old(reg).lazy_stub_ns@,
        final(reg).import_edges@ == old(reg).import_edges@,
        final(reg).bundle_src_dir@ == old(reg).bundle_src_dir@,
{
    let ev = importer_closure(&reg.import_edges, target);
    evict_modules(reg, ev.as_slice());
    assert(forall|d: Seq<char>| #[trigger] strs(ev@).contains(d) <==> evicted_by(
        old(reg).import_edges@,
        target@,
        d,
    ));
}

} // verus!

verus! {

/// The paths of `t` (its keys), in order.
pub open spec fn paths_of<T>(t: Seq<(String, T)>) -> Seq<Seq<char>> {
    file_keys(t)
}

/// The entries of `t` whose path (the value) is in `live`, in order.
pub open spec fn live_hashes(t: Seq<(i32, String)>, live: Seq<Seq<char>>) -> Seq<(i32, String)>
    decreases t.len(),
{
    if t.len() == 0 {
        t
    } else {
        let rest = live_hashes(t.drop_first(), live);
        if live.contains(t[0].1@) {
            seq![t[0]] + rest
        } else {
            rest
        }
    }
}

/// Filtering a table with one more entry at the end.
pub proof fn lemma_filter_push<T>(s: Seq<(String, T)>, x: (String, T), ps: Seq<Seq<char>>, keep: bool)
    ensures
        filter_keys(s.push(x), ps, keep) == filter_keys(s, ps, keep) + if ps.contains(x.0@) == keep {
            seq![x]
        } else {
            Seq::empty()
        },
    decreases s.len(),
{
    if s.len() == 0 {
        assert(s.push(x).drop_first() =~= Seq::<(String, T)>::empty());
        assert(filter_keys(Seq::<(String, T)>::empty(), ps, keep) =~= Seq::<(String, T)>::empty());
        if ps.contains(x.0@) == keep {
            assert(filter_keys(s.push(x), ps, keep) =~= seq![x]);
        } else {
            assert(filter_keys(s.push(x), ps, keep) =~= Seq::<(String, T)>::empty());
        }
        assert(filter_keys(s, ps, keep) =~= Seq::<(String, T)>::empty());
    } else {
        assert(s.push(x).drop_first() =~= s.drop_first().push(x));
        assert(s.push(x)[0] == s[0]);
        lemma_filter_push(s.drop_first(), x, ps, keep);
        let tail = if ps.contains(x.0@) == keep {
            seq![x]
        } else {
            Seq::<(String, T)>::empty()
        };
        if ps.contains(s[0].0@) == keep {
            assert(seq![s[0]] + (filter_keys(s.drop_first(), ps, keep) + tail) =~= (seq![s[0]]
                + filter_keys(s.drop_first(), ps, keep)) + tail);
        }
    }
}

fn keys_vec<T>(t: &Vec<(String, T)>) -> (r: Vec<String>)
    ensures
        strs(r@) == paths_of(t@),
{
    let mut r: Vec<String> = Vec::new();
    let mut i: usize = 0;
    while i < t.len()
        invariant
            i <= t@.len(),
            strs(r@) == paths_of(t@).take(i as int),
        decreases t@.len() - i,
    {
        let ghost b = strs(r@);
        let k = t[i].0.clone();
        r.push(k);
        assert(strs(r@) =~= b.push(t@[i as int].0@));
        assert(paths_of(t@).take(i + 1) =~= paths_of(t@).take(i as int).push(t@[i as int].0@));
        i += 1;
    }
    assert(paths_of(t@).take(t@.len() as int) =~= paths_of(t@));
    r
}

fn keep_live_hashes(t: &mut Vec<(i32, String)>, live: &[String])
    ensures
        final(t)@ == live_hashes(old(t)@, strs(live@)),
{
    let ghost o = t@;
    let ghost lv = strs(live@);
    let mut i: usize = t.len();
    assert(o.skip(o.len() as int) =~= Seq::<(i32, String)>::empty());
    assert(o.take(o.len() as int) =~= o);
    assert(t@ =~= o.take(i as int) + live_hashes(o.skip(i as int), lv));
    while i > 0
        invariant
            i <= o.len(),
            lv == strs(live@),
            t@ == o.take(i as int) + live_hashes(o.skip(i as int), lv),
        decreases i,
    {
        i -= 1;
        assert(o.skip(i as int).drop_first() =~= o.skip(i + 1));
        assert(o.skip(i as int)[0] == o[i as int]);
        assert(t@[i as int] == o[i as int]);
        if !contains_str(live, &t[i].1) {
            t.remove(i);
            assert(t@ =~= o.take(i as int) + live_hashes(o.skip(i as int), lv));
        } else {
            assert(o.take(i + 1) =~= o.take(i as int).push(o[i as int]));
            assert(t@ =~= o.take(i as int) + live_hashes(o.skip(i as int), lv));
        }
    }
    assert(o.take(0) + live_hashes(o.skip(0), lv) =~= live_hashes(o, lv));
}

/// Between files on a reused isolate: the modules a test file mocked (its mocks that are not
/// setup mocks) leave the module tables so the next file gets the real module or its own
/// mock; every other module stays loaded. Hash entries of paths no longer loaded go, mocks
/// other than setup mocks go, and the per-file tables are emptied.
pub fn reset_app_registry<M, V, O>(reg: &mut Registry<M, V, O>, setup_mocks: &[String])
    ensures
        ({
            let tm = paths_of(filter_keys(old(reg).mocks@, strs(setup_mocks@), false));
            &&& final(reg).cjs_exports@ == filter_keys(old(reg).cjs_exports@, tm, false)
            &&& final(reg).cjs_synth_by_path@ == filter_keys(old(reg).cjs_synth_by_path@, tm, false)
            &&& final(reg).cjs_export_names@ == filter_keys(old(reg).cjs_export_names@, tm, false)
            &&& final(reg).real_exports@ == filter_keys(old(reg).real_exports@, tm, false)
            &&& final(reg).esm_by_path@ == filter_keys(old(reg).esm_by_path@, tm, false)
            &&& final(reg).path_by_hash@ == live_hashes(
                old(reg).path_by_hash@,
                paths_of(final(reg).cjs_exports@) + paths_of(final(reg).esm_by_path@),
            )
        }),
        final(reg).mocks@ == filter_keys(old(reg).mocks@, strs(setup_mocks@), true),
        final(reg).extra_exports@.len() == 0,
        final(reg).loading@.len() == 0,
        final(reg).lazy_stub_ns@.len() == 0,
        final(reg).import_edges@ == old(reg).import_edges@,
        final(reg).bundle_src_dir@ == old(reg).bundle_src_dir@,
{
    let ghost om = reg.mocks@;
    let ghost sp = strs(setup_mocks@);
    let mut test_mocked: Vec<String> = Vec::new();
    let mut i: usize = 0;
    assert(om.take(0) =~= Seq::<(String, String)>::empty());
    assert(strs(test_mocked@) =~= paths_of(filter_keys(om.take(0), sp, false)));
    while i < reg.mocks.len()
        invariant
            i <= om.len(),
            om == reg.mocks@,
            sp == strs(setup_mocks@),
            strs(test_mocked@) == paths_of(filter_keys(om.take(i as int), sp, false)),
        decreases om.len() - i,
    {
        proof {
            lemma_filter_push(om.take(i as int), om[i as int], sp, false);
            assert(om.take(i + 1) =~= om.take(i as int).push(om[i as int]));
        }
        let ghost before = strs(test_mocked@);
        if !contains_str(setup_mocks, &reg.mocks[i].0) {
            test_mocked.push(reg.mocks[i].0.clone());
            assert(strs(test_mocked@) =~= before.push(om[i as int].0@));
            assert(paths_of(filter_keys(om.take(i as int), sp, false) + seq![om[i as int]])
                =~= before.push(om[i as int].0@));
        } else {
            assert(filter_keys(om.take(i as int), sp, false) + Seq::<(String, String)>::empty()
                =~= filter_keys(om.take(i as int), sp, false));
        }
        i += 1;
    }
    assert(om.take(om.len() as int) =~= om);
    evict_modules(reg, test_mocked.as_slice());
    let a = keys_vec(&reg.cjs_exports);
    let b = keys_vec(&reg.esm_by_path);
    let mut live = a;
    let mut j: usize = 0;
    let ghost av = strs(live@);
    while j < b.len()
        invariant
            j <= b@.len(),
            strs(live@) == av + strs(b@).take(j as int),
        decreases b@.len() - j,
    {
        let ghost before = strs(live@);
        live.push(b[j].clone());
        assert(strs(live@) =~= before.push(b@[j as int]@));
        assert(strs(b@).take(j + 1) =~= strs(b@).take(j as int).push(b@[j as int]@));
        j += 1;
    }
    assert(strs(b@).take(b@.len() as int) =~= strs(b@));
    keep_live_hashes(&mut reg.path_by_hash, live.as_slice());
    filter_table(&mut reg.mocks, setup_mocks, true);
    reg.extra_exports.clear();
    reg.loading.clear();
    reg.lazy_stub_ns.clear();
}

} // verus!

verus! {

/// Record that `importer` required `imported`.
pub fn add_import_edge<M, V, O>(reg: &mut Registry<M, V, O>, imported: &str, importer: &str)
    ensures
        importers_of(final(reg).import_edges@, imported@) == crate::modules::push_unique(
            importers_of(old(reg).import_edges@, imported@),
            importer@,
        ),
        forall|m: Seq<char>|
            m != imported@ ==> #[trigger] importers_of(final(reg).import_edges@, m)
                == importers_of(old(reg).import_edges@, m),
{
    let key = imported.to_owned();
    let who = importer.to_owned();
    let ghost o = reg.import_edges@;
    match find_file(&reg.import_edges, &key) {
        None => {
            let mut v: Vec<String> = Vec::new();
            v.push(who);
            reg.import_edges.push((key, v));
            proof {
                assert(file_keys(reg.import_edges@) =~= file_keys(o).push(imported@));
                crate::assoc::lemma_first_index_push(file_keys(o), imported@, imported@);
                assert(strs(reg.import_edges@[o.len() as int].1@) =~= seq![importer@]);
                assert(Seq::<Seq<char>>::empty().push(importer@) =~= seq![importer@]);
                assert forall|m: Seq<char>| m != imported@ implies #[trigger] importers_of(
                    reg.import_edges@,
                    m,
                ) == importers_of(o, m) by {
                    crate::assoc::lemma_first_index_push(file_keys(o), imported@, m);
                    lemma_first_index(file_keys(o), m);
                }
            }
        },
        Some(i) => {
            proof {
                lemma_first_index(file_keys(o), imported@);
            }
            let present = contains_str(reg.import_edges[i].1.as_slice(), &who);
            if !present {
                let mut entry = reg.import_edges.remove(i);
                entry.1.push(who);
                reg.import_edges.insert(i, entry);
                proof {
                    assert(file_keys(reg.import_edges@) =~= file_keys(o));
                    assert(strs(reg.import_edges@[i as int].1@) =~= strs(o[i as int].1@).push(
                        importer@,
                    ));
                    assert forall|m: Seq<char>| m != imported@ implies #[trigger] importers_of(
                        reg.import_edges@,
                        m,
                    ) == importers_of(o, m) by {
                        lemma_first_index(file_keys(o), m);
                        let j = first_index(file_keys(o), m);
                        if j >= 0 {
                            assert(file_keys(o)[j] == m);
                            assert(j != i);
                            assert(reg.import_edges@[j] == o[j]);
                        }
                    }
                }
            }
        },
    }
}

/// One worker's state across test files: its registry, the isolate and context kept for
/// reuse (`I`, `C`), whether the DOM is installed, the setup files' mocks and their export
/// snapshots, and the reuse decision once made.
pub struct Worker<M, V, O, I, C> {
    pub registry: Registry<M, V, O>,
    pub reuse_iso: Option<I>,
    pub reuse_ctx: Option<C>,
    pub dom_installed: bool,
    pub setup_mocks: Vec<String>,
    pub setup_mock_snapshot: Vec<(String, V)>,
    pub reuse_decision: Option<bool>,
}

impl<M, V, O, I, C> Worker<M, V, O, I, C> {
    pub fn new() -> (w: Self)
        ensures
            is_cleared(&w.registry),
            w.registry.bundle_src_dir@.len() == 0,
            w.reuse_iso is None,
            w.reuse_ctx is None,
            !w.dom_installed,
            w.setup_mocks@.len() == 0,
            w.setup_mock_snapshot@.len() == 0,
            w.reuse_decision is None,
    {
        Worker {
            registry: Registry::new(),
            reuse_iso: None,
            reuse_ctx: None,
            dom_installed: false,
            setup_mocks: Vec::new(),
            setup_mock_snapshot: Vec::new(),
            reuse_decision: None,
        }
    }
}

/// Whether to reuse one isolate across files: never when `TURBO_NO_REUSE` is set, else when
/// `TURBO_REUSE_ISOLATE` is set or the project's vitest config asks for `isolate: false`.
pub open spec fn decide_reuse_spec(no_reuse: bool, force_reuse: bool, isolate_false: bool) -> bool {
    !no_reuse && (force_reuse || isolate_false)
}

/// The reuse decision of the run: made once, from the first call's inputs, and kept.
pub fn reuse_decision<M, V, O, I, C>(
    w: &mut Worker<M, V, O, I, C>,
    no_reuse: bool,
    force_reuse: bool,
    isolate_false: bool,
) -> (b: bool)
    ensures
        b == match old(w).reuse_decision {
            Some(d) => d,
            None => decide_reuse_spec(no_reuse, force_reuse, isolate_false),
        },
        final(w).reuse_decision == Some(b),
        final(w).registry == old(w).registry,
        final(w).reuse_iso == old(w).reuse_iso,
        final(w).reuse_ctx == old(w).reuse_ctx,
        final(w).dom_installed == old(w).dom_installed,
        final(w).setup_mocks@ == old(w).setup_mocks@,
        final(w).setup_mock_snapshot@ == old(w).setup_mock_snapshot@,
{
    match w.reuse_decision {
        Some(d) => d,
        None => {
            let d = !no_reuse && (force_reuse || isolate_false);
            w.reuse_decision = Some(d);
            d
        },
    }
}

/// Whether isolate reuse was chosen for this run (false until decided).
pub fn is_reuse_enabled<M, V, O, I, C>(w: &Worker<M, V, O, I, C>) -> (b: bool)
    ensures
        b == (w.reuse_decision == Some(true)),
{
    match w.reuse_decision {
        Some(d) => d,
        None => false,
    }
}

/// End-of-worker cleanup on the reuse path: the registry's handles go first, then the
/// context, then the isolate; the DOM and setup-mock state are reset. Nothing happens when
/// no isolate was kept.
pub fn end_worker_reuse<M, V, O, I, C>(w: &mut Worker<M, V, O, I, C>)
    ensures
        old(w).reuse_iso is None ==> *final(w) == *old(w),
        old(w).reuse_iso is Some ==> {
            &&& is_cleared(&final(w).registry)
            &&& final(w).registry.bundle_src_dir@ == old(w).registry.bundle_src_dir@
            &&& final(w).reuse_iso is None
            &&& final(w).reuse_ctx is None
            &&& !final(w).dom_installed
            &&& final(w).setup_mocks@.len() == 0
            &&& final(w).setup_mock_snapshot@.len() == 0
            &&& final(w).reuse_decision == old(w).reuse_decision
        },
{
    if w.reuse_iso.is_none() {
        return;
    }
    clear_registry(&mut w.registry);
    w.reuse_ctx = None;
    w.reuse_iso = None;
    w.dom_installed = false;
    w.setup_mocks.clear();
    w.setup_mock_snapshot.clear();
}

/// What a worker gives up after a panic: handles that must not be dropped (their isolate
/// is gone), for the caller to leak.
pub struct Forgotten<M, V, O, I, C> {
    pub registry: Registry<M, V, O>,
    pub reuse_ctx: Option<C>,
    pub reuse_iso: Option<I>,
}

/// Panic recovery: the worker starts over with a fresh registry and no kept isolate or
/// context; the old ones are handed back (to be leaked, not dropped).
pub fn forget_registry<M, V, O, I, C>(w: &mut Worker<M, V, O, I, C>) -> (f: Forgotten<M, V, O, I, C>)
    ensures
        f.registry == old(w).registry,
        f.reuse_ctx == old(w).reuse_ctx,
        f.reuse_iso == old(w).reuse_iso,
        is_cleared(&final(w).registry),
        final(w).registry.bundle_src_dir@.len() == 0,
        final(w).reuse_iso is None,
        final(w).reuse_ctx is None,
        !final(w).dom_installed,
        final(w).setup_mocks@.len() == 0,
        final(w).setup_mock_snapshot@.len() == 0,
        final(w).reuse_decision == old(w).reuse_decision,
{
    let mut fresh = Registry::new();
    std::mem::swap(&mut fresh, &mut w.registry);
    let mut ctx = None;
    std::mem::swap(&mut ctx, &mut w.reuse_ctx);
    let mut iso = None;
    std::mem::swap(&mut iso, &mut w.reuse_iso);
    w.dom_installed = false;
    w.setup_mocks.clear();
    w.setup_mock_snapshot.clear();
    Forgotten { registry: fresh, reuse_ctx: ctx, reuse_iso: iso }
}

} // verus!

verus! {

/// A file runs on the reused isolate unless it is a fresh retry, reuse is off, or coverage
/// is on (coverage always runs one isolate per file).
pub open spec fn use_reuse_spec(force_fresh: bool, reuse: bool, coverage: bool) -> bool {
    !force_fresh && reuse && !coverage
}

pub fn use_reuse_path(force_fresh: bool, reuse: bool, coverage: bool) -> (b: bool)
    ensures
        b == use_reuse_spec(force_fresh, reuse, coverage),
{
    !force_fresh && reuse && !coverage
}

/// What a file on the reused isolate must do first.
#[derive(Clone, Copy, PartialEq, Eq, Structural, Debug)]
pub struct ReuseSteps {
    /// No context is kept yet: this is the worker's first file (create the context, install
    /// the natives, run the setup files); otherwise the previous file is reset away.
    pub first_file: bool,
    /// The file needs a DOM and none is installed yet.
    pub install_dom: bool,
}

pub fn plan_reused_file<M, V, O, I, C>(w: &Worker<M, V, O, I, C>, needs_dom: bool) -> (s: ReuseSteps)
    ensures
        s.first_file == (w.reuse_ctx is None),
        s.install_dom == (needs_dom && !w.dom_installed),
{
    ReuseSteps { first_file: w.reuse_ctx.is_none(), install_dom: needs_dom && !w.dom_installed }
}

/// After the setup files ran once: the mocks registered so far are the setup mocks, kept
/// across files.
pub fn record_setup_mocks<M, V, O, I, C>(w: &mut Worker<M, V, O, I, C>)
    ensures
        strs(final(w).setup_mocks@) == paths_of(old(w).registry.mocks@),
        final(w).registry == old(w).registry,
        final(w).reuse_iso == old(w).reuse_iso,
        final(w).reuse_ctx == old(w).reuse_ctx,
        final(w).dom_installed == old(w).dom_installed,
        final(w).setup_mock_snapshot == old(w).setup_mock_snapshot,
        final(w).reuse_decision == old(w).reuse_decision,
{
    let k = keys_vec(&w.registry.mocks);
    w.setup_mocks = k;
}

} // verus!

verus! {

/// A table read as a map from path to entry (a path's first entry).
pub open spec fn table_map<T>(t: Seq<(String, T)>) -> Map<Seq<char>, T> {
    crate::assoc::assoc_map(file_keys(t), t.map_values(|e: (String, T)| e.1))
}

/// Set the entry of `k` (replacing its first entry, or adding one).
pub fn table_insert<T>(t: &mut Vec<(String, T)>, k: String, v: T)
    ensures
        table_map(final(t)@) == table_map(old(t)@).insert(k@, v),
{
    let ghost o = t@;
    proof {
        lemma_first_index(file_keys(o), k@);
    }
    match find_file(t, &k) {
        Some(i) => {
            let ghost kv = k@;
            let old_entry = t.remove(i);
            t.insert(i, (old_entry.0, v));
            proof {
                assert(file_keys(t@) =~= file_keys(o));
                assert(t@.map_values(|e: (String, T)| e.1) =~= o.map_values(|e: (String, T)| e.1).update(
                    i as int,
                    v,
                ));
                crate::assoc::lemma_assoc_update(
                    file_keys(o),
                    o.map_values(|e: (String, T)| e.1),
                    i as int,
                    v,
                );
                assert(file_keys(o)[i as int] == kv);
            }
        },
        None => {
            let ghost kv = k@;
            t.push((k, v));
            proof {
                assert(file_keys(t@) =~= file_keys(o).push(kv));
                assert(t@.map_values(|e: (String, T)| e.1) =~= o.map_values(|e: (String, T)| e.1).push(v));
                crate::assoc::lemma_assoc_push(file_keys(o), o.map_values(|e: (String, T)| e.1), kv, v);
            }
        },
    }
}

/// Drop the entries of `k` from a table.
pub fn table_remove<T>(t: &mut Vec<(String, T)>, k: &String)
    ensures
        table_map(final(t)@) == table_map(old(t)@).remove(k@),
{
    let mut ks: Vec<String> = Vec::new();
    ks.push(k.clone());
    let ghost o = t@;
    filter_table(t, ks.as_slice(), false);
    proof {
        assert(strs(ks@) =~= seq![k@]);
        lemma_filter_out_one(o, k@);
    }
}

proof fn lemma_filter_out_one<T>(s: Seq<(String, T)>, k: Seq<char>)
    ensures
        table_map(filter_keys(s, seq![k], false)) == table_map(s).remove(k),
    decreases s.len(),
{
    let f = filter_keys(s, seq![k], false);
    if s.len() == 0 {
        assert(table_map(s) =~= Map::empty());
        assert(table_map(f) =~= Map::empty());
        assert(table_map(s).remove(k) =~= Map::empty());
    } else {
        let rest = s.drop_first();
        lemma_filter_out_one(rest, k);
        let x = s[0];
        assert(s =~= seq![x] + rest);
        lemma_table_map_cons(x, rest);
        if x.0@ == k {
            assert(seq![k][0] == x.0@);
            assert(seq![k].contains(x.0@));
            assert(f == filter_keys(rest, seq![k], false));
            assert(table_map(f) =~= table_map(s).remove(k));
        } else {
            assert(!seq![k].contains(x.0@));
            assert(f == seq![x] + filter_keys(rest, seq![k], false));
            lemma_table_map_cons(x, filter_keys(rest, seq![k], false));
            assert(table_map(f) =~= table_map(s).remove(k));
        }
    }
}

proof fn lemma_table_map_cons<T>(x: (String, T), rest: Seq<(String, T)>)
    ensures
        table_map(seq![x] + rest) == table_map(rest).insert(x.0@, x.1),
{
    let s = seq![x] + rest;
    let ks = file_keys(s);
    let rk = file_keys(rest);
    assert(ks =~= seq![x.0@] + rk);
    assert forall|k: Seq<char>| #[trigger] first_index(ks, k) == (if k == x.0@ {
        0
    } else if first_index(rk, k) >= 0 {
        first_index(rk, k) + 1
    } else {
        -1
    }) by {
        assert(ks.drop_first() =~= rk);
    }
    assert forall|k: Seq<char>| first_index(rk, k) >= 0 implies first_index(rk, k) < rk.len() by {
        lemma_first_index(rk, k);
    }
    assert(table_map(s) =~= table_map(rest).insert(x.0@, x.1));
}

} // verus!

verus! {

/// The hash table read as a map from identity hash to path (a hash's first entry).
pub open spec fn hash_map_of(t: Seq<(i32, String)>) -> Map<i32, Seq<char>> {
    crate::assoc::assoc_map(
        t.map_values(|e: (i32, String)| e.0),
        t.map_values(|e: (i32, String)| e.1@),
    )
}

/// Set the path of identity hash `h`.
pub fn hash_insert(t: &mut Vec<(i32, String)>, h: i32, p: String)
    ensures
        hash_map_of(final(t)@) == hash_map_of(old(t)@).insert(h, p@),
{
    let ghost o = t@;
    let ghost ks = o.map_values(|e: (i32, String)| e.0);
    let ghost vs = o.map_values(|e: (i32, String)| e.1@);
    let ghost pv = p@;
    let mut i: usize = 0;
    while i < t.len()
        invariant
            i <= t@.len(),
            t@ == o,
            o == old(t)@,
            ks == o.map_values(|e: (i32, String)| e.0),
            vs == o.map_values(|e: (i32, String)| e.1@),
            pv == p@,
            forall|j: int| 0 <= j < i ==> ks[j] != h,
        decreases t@.len() - i,
    {
        if t[i].0 == h {
            proof {
                crate::assoc::lemma_first_index_at(ks, h, i as int);
            }
            let old_entry = t.remove(i);
            t.insert(i, (old_entry.0, p));
            proof {
                assert(t@.map_values(|e: (i32, String)| e.0) =~= ks);
                assert(t@.map_values(|e: (i32, String)| e.1@) =~= vs.update(i as int, pv));
                crate::assoc::lemma_assoc_update(ks, vs, i as int, pv);
                assert(ks[i as int] == h);
            }
            return;
        }
        i += 1;
    }
    proof {
        crate::assoc::lemma_first_index_at(ks, h, -1);
    }
    t.push((h, p));
    proof {
        assert(t@.map_values(|e: (i32, String)| e.0) =~= ks.push(h));
        assert(t@.map_values(|e: (i32, String)| e.1@) =~= vs.push(pv));
        crate::assoc::lemma_assoc_push(ks, vs, h, pv);
    }
}

/// Record a module that finished loading as CommonJS: its genuine and current exports, its
/// export names, its synthetic ES module, and the module's identity hash.
pub fn register_loaded<M, V, O>(
    reg: &mut Registry<M, V, O>,
    abs: &str,
    genuine: V,
    exports: V,
    names: Vec<String>,
    synth: M,
    hash: i32,
)
    ensures
        table_map(final(reg).real_exports@) == table_map(old(reg).real_exports@).insert(abs@, genuine),
        table_map(final(reg).cjs_exports@) == table_map(old(reg).cjs_exports@).insert(abs@, exports),
        table_map(final(reg).cjs_export_names@) == table_map(old(reg).cjs_export_names@).insert(
            abs@,
            names,
        ),
        table_map(final(reg).cjs_synth_by_path@) == table_map(old(reg).cjs_synth_by_path@).insert(
            abs@,
            synth,
        ),
        hash_map_of(final(reg).path_by_hash@) == hash_map_of(old(reg).path_by_hash@).insert(hash, abs@),
        final(reg).esm_by_path@ == old(reg).esm_by_path@,
        final(reg).mocks@ == old(reg).mocks@,
        final(reg).loading@ == old(reg).loading@,
        final(reg).extra_exports@ == old(reg).extra_exports@,
        final(reg).lazy_stub_ns@ == old(reg).lazy_stub_ns@,
        final(reg).import_edges@ == old(reg).import_edges@,
        final(reg).bundle_src_dir@ == old(reg).bundle_src_dir@,
{
    table_insert(&mut reg.real_exports, abs.to_owned(), genuine);
    table_insert(&mut reg.cjs_exports, abs.to_owned(), exports);
    table_insert(&mut reg.cjs_export_names, abs.to_owned(), names);
    table_insert(&mut reg.cjs_synth_by_path, abs.to_owned(), synth);
    hash_insert(&mut reg.path_by_hash, hash, abs.to_owned());
}

} // verus!

