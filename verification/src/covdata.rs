//! Accumulated coverage: per source file, line hit counts, function call counts, branch
//! arm outcomes and statement hit counts. Every record MERGES with what earlier test files
//! recorded for the same source: counts keep their maximum, `reached` is or-ed.

use vstd::prelude::*;

use crate::assoc::{
    assoc_map, count_where, first_index, lemma_assoc_counts, lemma_assoc_push, lemma_assoc_update,
    lemma_first_index, lemma_push_no_dup, pos_keys,
};

verus! {

/// Coverage gathered so far.
pub struct CoverageData {
    lines: Vec<(String, Vec<(u32, u64)>)>,
    fns: Vec<(String, Vec<((u32, String), u64)>)>,
    branches: Vec<(String, Vec<((u32, u32), (u32, bool, u64))>)>,
    stmts: Vec<(String, Vec<(u32, (u32, u64))>)>,
}

pub open spec fn file_keys<T>(t: Seq<(String, T)>) -> Seq<Seq<char>> {
    t.map_values(|e: (String, T)| e.0@)
}

pub open spec fn u32_map<T>(v: Seq<(u32, T)>) -> Map<u32, T> {
    assoc_map(v.map_values(|e: (u32, T)| e.0), v.map_values(|e: (u32, T)| e.1))
}

pub open spec fn pair_map<T>(v: Seq<((u32, u32), T)>) -> Map<(u32, u32), T> {
    assoc_map(v.map_values(|e: ((u32, u32), T)| e.0), v.map_values(|e: ((u32, u32), T)| e.1))
}

pub open spec fn fn_key(k: (u32, String)) -> (u32, Seq<char>) {
    (k.0, k.1@)
}

pub open spec fn fn_map(v: Seq<((u32, String), u64)>) -> Map<(u32, Seq<char>), u64> {
    assoc_map(
        v.map_values(|e: ((u32, String), u64)| fn_key(e.0)),
        v.map_values(|e: ((u32, String), u64)| e.1),
    )
}

/// No file occurs twice in a table, and no key twice in a file's entries.
pub open spec fn lines_wf(t: Seq<(String, Vec<(u32, u64)>)>) -> bool {
    &&& file_keys(t).no_duplicates()
    &&& forall|i: int|
        0 <= i < t.len() ==> (#[trigger] t[i]).1@.map_values(|e: (u32, u64)| e.0).no_duplicates()
}

pub open spec fn fns_wf(t: Seq<(String, Vec<((u32, String), u64)>)>) -> bool {
    &&& file_keys(t).no_duplicates()
    &&& forall|i: int|
        0 <= i < t.len() ==> (#[trigger] t[i]).1@.map_values(
            |e: ((u32, String), u64)| fn_key(e.0),
        ).no_duplicates()
}

pub open spec fn branches_wf(t: Seq<(String, Vec<((u32, u32), (u32, bool, u64))>)>) -> bool {
    &&& file_keys(t).no_duplicates()
    &&& forall|i: int|
        0 <= i < t.len() ==> (#[trigger] t[i]).1@.map_values(
            |e: ((u32, u32), (u32, bool, u64))| e.0,
        ).no_duplicates()
}

pub open spec fn stmts_wf(t: Seq<(String, Vec<(u32, (u32, u64))>)>) -> bool {
    &&& file_keys(t).no_duplicates()
    &&& forall|i: int|
        0 <= i < t.len() ==> (#[trigger] t[i]).1@.map_values(|e: (u32, (u32, u64))| e.0).no_duplicates()
}

impl CoverageData {
    /// Every table keeps its keys distinct (what `new` and the `record` functions keep).
    pub closed spec fn wf(&self) -> bool {
        &&& lines_wf(self.lines@)
        &&& fns_wf(self.fns@)
        &&& branches_wf(self.branches@)
        &&& stmts_wf(self.stmts@)
    }
    /// file -> (source line -> max hit count). A present line is executable; a count > 0
    /// means covered.
    pub closed spec fn line_view(&self) -> Map<Seq<char>, Map<u32, u64>> {
        assoc_map(
            file_keys(self.lines@),
            self.lines@.map_values(|e: (String, Vec<(u32, u64)>)| u32_map(e.1@)),
        )
    }

    /// file -> ((declaration line, function name) -> max call count).
    pub closed spec fn fn_view(&self) -> Map<Seq<char>, Map<(u32, Seq<char>), u64>> {
        assoc_map(
            file_keys(self.fns@),
            self.fns@.map_values(|e: (String, Vec<((u32, String), u64)>)| fn_map(e.1@)),
        )
    }

    /// file -> ((decision block, arm) -> (line, reached by any run, max taken count)).
    pub closed spec fn branch_view(&self) -> Map<Seq<char>, Map<(u32, u32), (u32, bool, u64)>> {
        assoc_map(
            file_keys(self.branches@),
            self.branches@.map_values(
                |e: (String, Vec<((u32, u32), (u32, bool, u64))>)| pair_map(e.1@),
            ),
        )
    }

    /// file -> (statement index -> (line, max hit count)).
    pub closed spec fn stmt_view(&self) -> Map<Seq<char>, Map<u32, (u32, u64)>> {
        assoc_map(
            file_keys(self.stmts@),
            self.stmts@.map_values(|e: (String, Vec<(u32, (u32, u64))>)| u32_map(e.1@)),
        )
    }

    pub fn new() -> (d: Self)
        ensures
            d.line_view() == Map::<Seq<char>, Map<u32, u64>>::empty(),
            d.fn_view() == Map::<Seq<char>, Map<(u32, Seq<char>), u64>>::empty(),
            d.branch_view() == Map::<Seq<char>, Map<(u32, u32), (u32, bool, u64)>>::empty(),
            d.stmt_view() == Map::<Seq<char>, Map<u32, (u32, u64)>>::empty(),
            d.wf(),
    {
        let d = CoverageData {
            lines: Vec::new(),
            fns: Vec::new(),
            branches: Vec::new(),
            stmts: Vec::new(),
        };
        assert(d.line_view() =~= Map::empty());
        assert(d.fn_view() =~= Map::empty());
        assert(d.branch_view() =~= Map::empty());
        assert(d.stmt_view() =~= Map::empty());
        d
    }
}

/// The inner map of `f`, or an empty one.
pub open spec fn inner_or_empty<K, V>(m: Map<Seq<char>, Map<K, V>>, f: Seq<char>) -> Map<K, V> {
    if m.contains_key(f) {
        m[f]
    } else {
        Map::empty()
    }
}

/// The larger of a recorded count (if any) and `count`.
pub open spec fn max_count<K>(m: Map<K, u64>, k: K, count: u64) -> u64 {
    if m.contains_key(k) && m[k] >= count {
        m[k]
    } else {
        count
    }
}

/// Line coverage after `record(file, line, count)`.
pub open spec fn record_spec(
    m: Map<Seq<char>, Map<u32, u64>>,
    f: Seq<char>,
    line: u32,
    count: u64,
) -> Map<Seq<char>, Map<u32, u64>> {
    let inner = inner_or_empty(m, f);
    m.insert(f, inner.insert(line, max_count(inner, line, count)))
}

/// Function coverage after `record_fn(file, line, name, count)`.
pub open spec fn record_fn_spec(
    m: Map<Seq<char>, Map<(u32, Seq<char>), u64>>,
    f: Seq<char>,
    line: u32,
    name: Seq<char>,
    count: u64,
) -> Map<Seq<char>, Map<(u32, Seq<char>), u64>> {
    let inner = inner_or_empty(m, f);
    m.insert(f, inner.insert((line, name), max_count(inner, (line, name), count)))
}

/// Branch coverage after `record_branch(file, block, branch, line, reached, taken)`: the
/// line is overwritten, `reached` or-ed, `taken` maxed.
pub open spec fn record_branch_spec(
    m: Map<Seq<char>, Map<(u32, u32), (u32, bool, u64)>>,
    f: Seq<char>,
    block: u32,
    branch: u32,
    line: u32,
    reached: bool,
    taken: u64,
) -> Map<Seq<char>, Map<(u32, u32), (u32, bool, u64)>> {
    let inner = inner_or_empty(m, f);
    let k = (block, branch);
    let (r0, t0) = if inner.contains_key(k) {
        (inner[k].1, inner[k].2)
    } else {
        (false, 0u64)
    };
    m.insert(f, inner.insert(k, (line, r0 || reached, if taken > t0 { taken } else { t0 })))
}

/// Statement coverage after `record_stmt(file, idx, line, count)`: line overwritten,
/// count maxed.
pub open spec fn record_stmt_spec(
    m: Map<Seq<char>, Map<u32, (u32, u64)>>,
    f: Seq<char>,
    idx: u32,
    line: u32,
    count: u64,
) -> Map<Seq<char>, Map<u32, (u32, u64)>> {
    let inner = inner_or_empty(m, f);
    let c0 = if inner.contains_key(idx) {
        inner[idx].1
    } else {
        0u64
    };
    m.insert(f, inner.insert(idx, (line, if count > c0 { count } else { c0 })))
}

pub fn find_file<T>(t: &Vec<(String, T)>, f: &String) -> (r: Option<usize>)
    ensures
        match r {
            Some(i) => first_index(file_keys(t@), f@) == i,
            None => first_index(file_keys(t@), f@) < 0,
        },
{
    let mut i: usize = 0;
    while i < t.len()
        invariant
            i <= t@.len(),
            forall|j: int| 0 <= j < i ==> file_keys(t@)[j] != f@,
        decreases t@.len() - i,
    {
        if t[i].0 == *f {
            proof {
                crate::assoc::lemma_first_index_at(file_keys(t@), f@, i as int);
            }
            return Some(i);
        }
        i += 1;
    }
    proof {
        crate::assoc::lemma_first_index_at(file_keys(t@), f@, -1);
    }
    None
}

fn find_u32<T>(v: &Vec<(u32, T)>, k: u32) -> (r: Option<usize>)
    ensures
        match r {
            Some(i) => first_index(v@.map_values(|e: (u32, T)| e.0), k) == i,
            None => first_index(v@.map_values(|e: (u32, T)| e.0), k) < 0,
        },
{
    let ghost keys = v@.map_values(|e: (u32, T)| e.0);
    let mut i: usize = 0;
    while i < v.len()
        invariant
            i <= v@.len(),
            keys == v@.map_values(|e: (u32, T)| e.0),
            forall|j: int| 0 <= j < i ==> keys[j] != k,
        decreases v@.len() - i,
    {
        if v[i].0 == k {
            proof {
                crate::assoc::lemma_first_index_at(keys, k, i as int);
            }
            return Some(i);
        }
        i += 1;
    }
    proof {
        crate::assoc::lemma_first_index_at(keys, k, -1);
    }
    None
}

fn find_pair<T>(v: &Vec<((u32, u32), T)>, k: (u32, u32)) -> (r: Option<usize>)
    ensures
        match r {
            Some(i) => first_index(v@.map_values(|e: ((u32, u32), T)| e.0), k) == i,
            None => first_index(v@.map_values(|e: ((u32, u32), T)| e.0), k) < 0,
        },
{
    let ghost keys = v@.map_values(|e: ((u32, u32), T)| e.0);
    let mut i: usize = 0;
    while i < v.len()
        invariant
            i <= v@.len(),
            keys == v@.map_values(|e: ((u32, u32), T)| e.0),
            forall|j: int| 0 <= j < i ==> keys[j] != k,
        decreases v@.len() - i,
    {
        if v[i].0.0 == k.0 && v[i].0.1 == k.1 {
            proof {
                crate::assoc::lemma_first_index_at(keys, k, i as int);
            }
            return Some(i);
        }
        i += 1;
    }
    proof {
        crate::assoc::lemma_first_index_at(keys, k, -1);
    }
    None
}

fn find_fn(v: &Vec<((u32, String), u64)>, line: u32, name: &String) -> (r: Option<usize>)
    ensures
        match r {
            Some(i) => first_index(
                v@.map_values(|e: ((u32, String), u64)| fn_key(e.0)),
                (line, name@),
            ) == i,
            None => first_index(
                v@.map_values(|e: ((u32, String), u64)| fn_key(e.0)),
                (line, name@),
            ) < 0,
        },
{
    let ghost keys = v@.map_values(|e: ((u32, String), u64)| fn_key(e.0));
    let mut i: usize = 0;
    while i < v.len()
        invariant
            i <= v@.len(),
            keys == v@.map_values(|e: ((u32, String), u64)| fn_key(e.0)),
            forall|j: int| 0 <= j < i ==> keys[j] != (line, name@),
        decreases v@.len() - i,
    {
        if v[i].0.0 == line && v[i].0.1 == *name {
            proof {
                crate::assoc::lemma_first_index_at(keys, (line, name@), i as int);
            }
            return Some(i);
        }
        i += 1;
    }
    proof {
        crate::assoc::lemma_first_index_at(keys, (line, name@), -1);
    }
    None
}

/// Record one line's hit count for `file`, keeping the maximum across runs.
pub fn record(data: &mut CoverageData, file: &str, line: u32, count: u64)
    ensures
        final(data).line_view() == record_spec(old(data).line_view(), file@, line, count),
        final(data).fn_view() == old(data).fn_view(),
        final(data).branch_view() == old(data).branch_view(),
        final(data).stmt_view() == old(data).stmt_view(),
        old(data).wf() ==> final(data).wf(),
{
    let f = file.to_owned();
    let ghost old_t = data.lines@;
    let ghost fk = file_keys(old_t);
    let ghost fv = old_t.map_values(|e: (String, Vec<(u32, u64)>)| u32_map(e.1@));
    match find_file(&data.lines, &f) {
        Some(i) => {
            proof {
                lemma_first_index(fk, f@);
            }
            let mut entry: (String, Vec<(u32, u64)>) = (String::new(), Vec::new());
            data.lines.set_and_swap(i, &mut entry);
            let mut inner = entry.1;
            let ghost old_inner = inner@;
            assert(old_inner == old_t[i as int].1@);
            match find_u32(&inner, line) {
                Some(j) => {
                    proof {
                        lemma_first_index(old_inner.map_values(|e: (u32, u64)| e.0), line);
                    }
                    if count > inner[j].1 {
                        inner.set(j, (line, count));
                        proof {
                            let ks = old_inner.map_values(|e: (u32, u64)| e.0);
                            let vs = old_inner.map_values(|e: (u32, u64)| e.1);
                            assert(inner@.map_values(|e: (u32, u64)| e.0) =~= ks);
                            assert(inner@.map_values(|e: (u32, u64)| e.1) =~= vs.update(
                                j as int,
                                count,
                            ));
                            lemma_first_index(ks, line);
                            lemma_assoc_update(ks, vs, j as int, count);
                        }
                    } else {
                        proof {
                            let ks = old_inner.map_values(|e: (u32, u64)| e.0);
                            lemma_first_index(ks, line);
                            assert(u32_map(old_inner).insert(line, u32_map(old_inner)[line])
                                =~= u32_map(old_inner));
                        }
                    }
                },
                None => {
                    inner.push((line, count));
                    proof {
                        let ks = old_inner.map_values(|e: (u32, u64)| e.0);
                        let vs = old_inner.map_values(|e: (u32, u64)| e.1);
                        assert(inner@.map_values(|e: (u32, u64)| e.0) =~= ks.push(line));
                        assert(inner@.map_values(|e: (u32, u64)| e.1) =~= vs.push(count));
                        lemma_assoc_push(ks, vs, line, count);
                    }
                    proof {
                        let ks = old_inner.map_values(|e: (u32, u64)| e.0);
                        if lines_wf(old_t) {
                            assert(old_t[i as int].1@ == old_inner);
                            lemma_push_no_dup(ks, line);
                        }
                    }
                },
            }
            let ghost new_inner = inner@;
            data.lines.set(i, (f, inner));
            proof {
                assert(file_keys(data.lines@) =~= fk);
                if lines_wf(old_t) {
                    assert(old_t[i as int].1@ == old_inner);
                    assert(new_inner.map_values(|e: (u32, u64)| e.0).no_duplicates());
                    assert forall|k: int| 0 <= k < data.lines@.len() implies (#[trigger] data.lines@[k]).1@.map_values(
                        |e: (u32, u64)| e.0,
                    ).no_duplicates() by {
                        if k != i {
                            assert(data.lines@[k] == old_t[k]);
                        }
                    }
                }
                assert(data.lines@.map_values(|e: (String, Vec<(u32, u64)>)| u32_map(e.1@))
                    =~= fv.update(i as int, u32_map(new_inner)));
                lemma_assoc_update(fk, fv, i as int, u32_map(new_inner));
            }
        },
        None => {
            let inner = vec![(line, count)];
            proof {
                let ks = Seq::<u32>::empty();
                let vs = Seq::<u64>::empty();
                assert(inner@.map_values(|e: (u32, u64)| e.0) =~= ks.push(line));
                assert(inner@.map_values(|e: (u32, u64)| e.1) =~= vs.push(count));
                lemma_assoc_push(ks, vs, line, count);
                assert(assoc_map(ks, vs) =~= Map::<u32, u64>::empty());
            }
            let ghost new_inner = inner@;
            data.lines.push((f, inner));
            proof {
                assert(file_keys(data.lines@) =~= fk.push(file@));
                if lines_wf(old_t) {
                    lemma_push_no_dup(fk, file@);
                    assert(new_inner.map_values(|e: (u32, u64)| e.0).no_duplicates());
                    assert forall|k: int| 0 <= k < data.lines@.len() implies (#[trigger] data.lines@[k]).1@.map_values(
                        |e: (u32, u64)| e.0,
                    ).no_duplicates() by {
                        if k < old_t.len() {
                            assert(data.lines@[k] == old_t[k]);
                        }
                    }
                }
                assert(data.lines@.map_values(|e: (String, Vec<(u32, u64)>)| u32_map(e.1@))
                    =~= fv.push(u32_map(new_inner)));
                lemma_assoc_push(fk, fv, file@, u32_map(new_inner));
            }
        },
    }
}


/// Record one function's call count (keyed by declaration line and name), keeping the
/// maximum across runs.
pub fn record_fn(data: &mut CoverageData, file: &str, line: u32, name: &str, count: u64)
    ensures
        final(data).fn_view() == record_fn_spec(old(data).fn_view(), file@, line, name@, count),
        final(data).line_view() == old(data).line_view(),
        final(data).branch_view() == old(data).branch_view(),
        final(data).stmt_view() == old(data).stmt_view(),
        old(data).wf() ==> final(data).wf(),
{
    let f = file.to_owned();
    let nm = name.to_owned();
    let ghost old_t = data.fns@;
    let ghost fk = file_keys(old_t);
    let ghost fv = old_t.map_values(|e: (String, Vec<((u32, String), u64)>)| fn_map(e.1@));
    let ghost key = (line, name@);
    match find_file(&data.fns, &f) {
        Some(i) => {
            proof {
                lemma_first_index(fk, f@);
            }
            let mut entry: (String, Vec<((u32, String), u64)>) = (String::new(), Vec::new());
            data.fns.set_and_swap(i, &mut entry);
            let mut inner = entry.1;
            let ghost old_inner = inner@;
            assert(old_inner == old_t[i as int].1@);
            let ghost ks = old_inner.map_values(|e: ((u32, String), u64)| fn_key(e.0));
            let ghost vs = old_inner.map_values(|e: ((u32, String), u64)| e.1);
            match find_fn(&inner, line, &nm) {
                Some(j) => {
                    proof {
                        lemma_first_index(ks, key);
                    }
                    if count > inner[j].1 {
                        inner.set(j, ((line, nm), count));
                        proof {
                            assert(inner@.map_values(|e: ((u32, String), u64)| fn_key(e.0)) =~= ks);
                            assert(inner@.map_values(|e: ((u32, String), u64)| e.1) =~= vs.update(
                                j as int,
                                count,
                            ));
                            lemma_assoc_update(ks, vs, j as int, count);
                        }
                    } else {
                        proof {
                            assert(fn_map(old_inner).insert(key, fn_map(old_inner)[key])
                                =~= fn_map(old_inner));
                        }
                    }
                },
                None => {
                    inner.push(((line, nm), count));
                    proof {
                        assert(inner@.map_values(|e: ((u32, String), u64)| fn_key(e.0)) =~= ks.push(
                            key,
                        ));
                        assert(inner@.map_values(|e: ((u32, String), u64)| e.1) =~= vs.push(count));
                        lemma_assoc_push(ks, vs, key, count);
                    }
                    proof {
                        if fns_wf(old_t) {
                            assert(old_t[i as int].1@ == old_inner);
                            lemma_push_no_dup(ks, key);
                        }
                    }
                },
            }
            let ghost new_inner = inner@;
            data.fns.set(i, (f, inner));
            proof {
                assert(file_keys(data.fns@) =~= fk);
                if fns_wf(old_t) {
                    assert(old_t[i as int].1@ == old_inner);
                    assert(new_inner.map_values(|e: ((u32, String), u64)| fn_key(e.0)).no_duplicates());
                    assert forall|k: int| 0 <= k < data.fns@.len() implies (#[trigger] data.fns@[k]).1@.map_values(
                        |e: ((u32, String), u64)| fn_key(e.0),
                    ).no_duplicates() by {
                        if k != i {
                            assert(data.fns@[k] == old_t[k]);
                        }
                    }
                }
                assert(data.fns@.map_values(|e: (String, Vec<((u32, String), u64)>)| fn_map(e.1@))
                    =~= fv.update(i as int, fn_map(new_inner)));
                lemma_assoc_update(fk, fv, i as int, fn_map(new_inner));
            }
        },
        None => {
            let inner = vec![((line, nm), count)];
            proof {
                let ks = Seq::<(u32, Seq<char>)>::empty();
                let vs = Seq::<u64>::empty();
                assert(inner@.map_values(|e: ((u32, String), u64)| fn_key(e.0)) =~= ks.push(key));
                assert(inner@.map_values(|e: ((u32, String), u64)| e.1) =~= vs.push(count));
                lemma_assoc_push(ks, vs, key, count);
                assert(assoc_map(ks, vs) =~= Map::<(u32, Seq<char>), u64>::empty());
            }
            let ghost new_inner = inner@;
            data.fns.push((f, inner));
            proof {
                assert(file_keys(data.fns@) =~= fk.push(file@));
                if fns_wf(old_t) {
                    lemma_push_no_dup(fk, file@);
                    assert(new_inner.map_values(|e: ((u32, String), u64)| fn_key(e.0)).no_duplicates());
                    assert forall|k: int| 0 <= k < data.fns@.len() implies (#[trigger] data.fns@[k]).1@.map_values(
                        |e: ((u32, String), u64)| fn_key(e.0),
                    ).no_duplicates() by {
                        if k < old_t.len() {
                            assert(data.fns@[k] == old_t[k]);
                        }
                    }
                }
                assert(data.fns@.map_values(|e: (String, Vec<((u32, String), u64)>)| fn_map(e.1@))
                    =~= fv.push(fn_map(new_inner)));
                lemma_assoc_push(fk, fv, file@, fn_map(new_inner));
            }
        },
    }
}

/// Record one branch arm's outcome: `reached` is or-ed and `taken` maxed across runs; the
/// line is the one given last.
pub fn record_branch(
    data: &mut CoverageData,
    file: &str,
    block: u32,
    branch: u32,
    line: u32,
    reached: bool,
    taken: u64,
)
    ensures
        final(data).branch_view() == record_branch_spec(
            old(data).branch_view(),
            file@,
            block,
            branch,
            line,
            reached,
            taken,
        ),
        final(data).line_view() == old(data).line_view(),
        final(data).fn_view() == old(data).fn_view(),
        final(data).stmt_view() == old(data).stmt_view(),
        old(data).wf() ==> final(data).wf(),
{
    let f = file.to_owned();
    let ghost old_t = data.branches@;
    let ghost fk = file_keys(old_t);
    let ghost fv = old_t.map_values(
        |e: (String, Vec<((u32, u32), (u32, bool, u64))>)| pair_map(e.1@),
    );
    let key = (block, branch);
    match find_file(&data.branches, &f) {
        Some(i) => {
            proof {
                lemma_first_index(fk, f@);
            }
            let mut entry: (String, Vec<((u32, u32), (u32, bool, u64))>) = (
                String::new(),
                Vec::new(),
            );
            data.branches.set_and_swap(i, &mut entry);
            let mut inner = entry.1;
            let ghost old_inner = inner@;
            assert(old_inner == old_t[i as int].1@);
            let ghost ks = old_inner.map_values(|e: ((u32, u32), (u32, bool, u64))| e.0);
            let ghost vs = old_inner.map_values(|e: ((u32, u32), (u32, bool, u64))| e.1);
            match find_pair(&inner, key) {
                Some(j) => {
                    proof {
                        lemma_first_index(ks, key);
                    }
                    let (_, r0, t0) = inner[j].1;
                    let nv = (line, r0 || reached, if taken > t0 {
                        taken
                    } else {
                        t0
                    });
                    inner.set(j, (key, nv));
                    proof {
                        assert(inner@.map_values(|e: ((u32, u32), (u32, bool, u64))| e.0) =~= ks);
                        assert(inner@.map_values(|e: ((u32, u32), (u32, bool, u64))| e.1)
                            =~= vs.update(j as int, nv));
                        lemma_assoc_update(ks, vs, j as int, nv);
                    }
                },
                None => {
                    let nv = (line, reached, taken);
                    inner.push((key, nv));
                    proof {
                        assert(inner@.map_values(|e: ((u32, u32), (u32, bool, u64))| e.0)
                            =~= ks.push(key));
                        assert(inner@.map_values(|e: ((u32, u32), (u32, bool, u64))| e.1)
                            =~= vs.push(nv));
                        lemma_assoc_push(ks, vs, key, nv);
                    }
                    proof {
                        if branches_wf(old_t) {
                            assert(old_t[i as int].1@ == old_inner);
                            lemma_push_no_dup(ks, key);
                        }
                    }
                },
            }
            let ghost new_inner = inner@;
            data.branches.set(i, (f, inner));
            proof {
                assert(file_keys(data.branches@) =~= fk);
                if branches_wf(old_t) {
                    assert(old_t[i as int].1@ == old_inner);
                    assert(new_inner.map_values(|e: ((u32, u32), (u32, bool, u64))| e.0).no_duplicates());
                    assert forall|k: int| 0 <= k < data.branches@.len() implies (#[trigger] data.branches@[k]).1@.map_values(
                        |e: ((u32, u32), (u32, bool, u64))| e.0,
                    ).no_duplicates() by {
                        if k != i {
                            assert(data.branches@[k] == old_t[k]);
                        }
                    }
                }
                assert(data.branches@.map_values(
                    |e: (String, Vec<((u32, u32), (u32, bool, u64))>)| pair_map(e.1@),
                ) =~= fv.update(i as int, pair_map(new_inner)));
                lemma_assoc_update(fk, fv, i as int, pair_map(new_inner));
            }
        },
        None => {
            let nv = (line, reached, taken);
            let inner = vec![(key, nv)];
            proof {
                let ks = Seq::<(u32, u32)>::empty();
                let vs = Seq::<(u32, bool, u64)>::empty();
                assert(inner@.map_values(|e: ((u32, u32), (u32, bool, u64))| e.0) =~= ks.push(key));
                assert(inner@.map_values(|e: ((u32, u32), (u32, bool, u64))| e.1) =~= vs.push(nv));
                lemma_assoc_push(ks, vs, key, nv);
                assert(assoc_map(ks, vs) =~= Map::<(u32, u32), (u32, bool, u64)>::empty());
            }
            let ghost new_inner = inner@;
            data.branches.push((f, inner));
            proof {
                assert(file_keys(data.branches@) =~= fk.push(file@));
                if branches_wf(old_t) {
                    lemma_push_no_dup(fk, file@);
                    assert(new_inner.map_values(|e: ((u32, u32), (u32, bool, u64))| e.0).no_duplicates());
                    assert forall|k: int| 0 <= k < data.branches@.len() implies (#[trigger] data.branches@[k]).1@.map_values(
                        |e: ((u32, u32), (u32, bool, u64))| e.0,
                    ).no_duplicates() by {
                        if k < old_t.len() {
                            assert(data.branches@[k] == old_t[k]);
                        }
                    }
                }
                assert(data.branches@.map_values(
                    |e: (String, Vec<((u32, u32), (u32, bool, u64))>)| pair_map(e.1@),
                ) =~= fv.push(pair_map(new_inner)));
                lemma_assoc_push(fk, fv, file@, pair_map(new_inner));
            }
        },
    }
}

/// Record one statement's hit count: the line is the one given last, the count maxed
/// across runs.
pub fn record_stmt(data: &mut CoverageData, file: &str, idx: u32, line: u32, count: u64)
    ensures
        final(data).stmt_view() == record_stmt_spec(old(data).stmt_view(), file@, idx, line, count),
        final(data).line_view() == old(data).line_view(),
        final(data).fn_view() == old(data).fn_view(),
        final(data).branch_view() == old(data).branch_view(),
        old(data).wf() ==> final(data).wf(),
{
    let f = file.to_owned();
    let ghost old_t = data.stmts@;
    let ghost fk = file_keys(old_t);
    let ghost fv = old_t.map_values(|e: (String, Vec<(u32, (u32, u64))>)| u32_map(e.1@));
    match find_file(&data.stmts, &f) {
        Some(i) => {
            proof {
                lemma_first_index(fk, f@);
            }
            let mut entry: (String, Vec<(u32, (u32, u64))>) = (String::new(), Vec::new());
            data.stmts.set_and_swap(i, &mut entry);
            let mut inner = entry.1;
            let ghost old_inner = inner@;
            assert(old_inner == old_t[i as int].1@);
            let ghost ks = old_inner.map_values(|e: (u32, (u32, u64))| e.0);
            let ghost vs = old_inner.map_values(|e: (u32, (u32, u64))| e.1);
            match find_u32(&inner, idx) {
                Some(j) => {
                    proof {
                        lemma_first_index(ks, idx);
                    }
                    let c0 = inner[j].1.1;
                    let nv = (line, if count > c0 {
                        count
                    } else {
                        c0
                    });
                    inner.set(j, (idx, nv));
                    proof {
                        assert(inner@.map_values(|e: (u32, (u32, u64))| e.0) =~= ks);
                        assert(inner@.map_values(|e: (u32, (u32, u64))| e.1) =~= vs.update(
                            j as int,
                            nv,
                        ));
                        lemma_assoc_update(ks, vs, j as int, nv);
                    }
                },
                None => {
                    let nv = (line, count);
                    inner.push((idx, nv));
                    proof {
                        assert(inner@.map_values(|e: (u32, (u32, u64))| e.0) =~= ks.push(idx));
                        assert(inner@.map_values(|e: (u32, (u32, u64))| e.1) =~= vs.push(nv));
                        lemma_assoc_push(ks, vs, idx, nv);
                    }
                    proof {
                        if stmts_wf(old_t) {
                            assert(old_t[i as int].1@ == old_inner);
                            lemma_push_no_dup(ks, idx);
                        }
                    }
                },
            }
            let ghost new_inner = inner@;
            data.stmts.set(i, (f, inner));
            proof {
                assert(file_keys(data.stmts@) =~= fk);
                if stmts_wf(old_t) {
                    assert(old_t[i as int].1@ == old_inner);
                    assert(new_inner.map_values(|e: (u32, (u32, u64))| e.0).no_duplicates());
                    assert forall|k: int| 0 <= k < data.stmts@.len() implies (#[trigger] data.stmts@[k]).1@.map_values(
                        |e: (u32, (u32, u64))| e.0,
                    ).no_duplicates() by {
                        if k != i {
                            assert(data.stmts@[k] == old_t[k]);
                        }
                    }
                }
                assert(data.stmts@.map_values(|e: (String, Vec<(u32, (u32, u64))>)| u32_map(e.1@))
                    =~= fv.update(i as int, u32_map(new_inner)));
                lemma_assoc_update(fk, fv, i as int, u32_map(new_inner));
            }
        },
        None => {
            let nv = (line, count);
            let inner = vec![(idx, nv)];
            proof {
                let ks = Seq::<u32>::empty();
                let vs = Seq::<(u32, u64)>::empty();
                assert(inner@.map_values(|e: (u32, (u32, u64))| e.0) =~= ks.push(idx));
                assert(inner@.map_values(|e: (u32, (u32, u64))| e.1) =~= vs.push(nv));
                lemma_assoc_push(ks, vs, idx, nv);
                assert(assoc_map(ks, vs) =~= Map::<u32, (u32, u64)>::empty());
            }
            let ghost new_inner = inner@;
            data.stmts.push((f, inner));
            proof {
                assert(file_keys(data.stmts@) =~= fk.push(file@));
                if stmts_wf(old_t) {
                    lemma_push_no_dup(fk, file@);
                    assert(new_inner.map_values(|e: (u32, (u32, u64))| e.0).no_duplicates());
                    assert forall|k: int| 0 <= k < data.stmts@.len() implies (#[trigger] data.stmts@[k]).1@.map_values(
                        |e: (u32, (u32, u64))| e.0,
                    ).no_duplicates() by {
                        if k < old_t.len() {
                            assert(data.stmts@[k] == old_t[k]);
                        }
                    }
                }
                assert(data.stmts@.map_values(|e: (String, Vec<(u32, (u32, u64))>)| u32_map(e.1@))
                    =~= fv.push(u32_map(new_inner)));
                lemma_assoc_push(fk, fv, file@, u32_map(new_inner));
            }
        },
    }
}


/// Merging line hits does not depend on the order in which test files report them.
pub proof fn law_record_commutes(
    m: Map<Seq<char>, Map<u32, u64>>,
    f1: Seq<char>,
    l1: u32,
    c1: u64,
    f2: Seq<char>,
    l2: u32,
    c2: u64,
)
    ensures
        record_spec(record_spec(m, f1, l1, c1), f2, l2, c2) == record_spec(
            record_spec(m, f2, l2, c2),
            f1,
            l1,
            c1,
        ),
{
    let a = record_spec(record_spec(m, f1, l1, c1), f2, l2, c2);
    let b = record_spec(record_spec(m, f2, l2, c2), f1, l1, c1);
    if f1 == f2 {
        assert(a[f1] =~= b[f1]);
    }
    assert(a =~= b);
}

/// Reporting the same line hit twice is the same as reporting it once.
pub proof fn law_record_idempotent(m: Map<Seq<char>, Map<u32, u64>>, f: Seq<char>, l: u32, c: u64)
    ensures
        record_spec(record_spec(m, f, l, c), f, l, c) == record_spec(m, f, l, c),
{
    let a = record_spec(record_spec(m, f, l, c), f, l, c);
    let b = record_spec(m, f, l, c);
    assert(a[f] =~= b[f]);
    assert(a =~= b);
}

/// A line's recorded count never decreases, becomes at least the reported count, and no
/// other file or line changes.
pub proof fn law_record_monotone(m: Map<Seq<char>, Map<u32, u64>>, f: Seq<char>, l: u32, c: u64)
    ensures
        record_spec(m, f, l, c).contains_key(f),
        record_spec(m, f, l, c)[f].contains_key(l),
        record_spec(m, f, l, c)[f][l] >= c,
        m.contains_key(f) && m[f].contains_key(l) ==> record_spec(m, f, l, c)[f][l] >= m[f][l],
        forall|g: Seq<char>| g != f && m.contains_key(g) ==> #[trigger] record_spec(m, f, l, c)[g]
            == m[g],
        forall|k: u32|
            k != l && m.contains_key(f) && m[f].contains_key(k) ==> #[trigger] record_spec(
                m,
                f,
                l,
                c,
            )[f][k] == m[f][k],
{
}

/// Branch outcomes merge order-independently: once an arm is reached it stays reached,
/// and its taken count is the maximum reported.
pub proof fn law_record_branch_commutes(
    m: Map<Seq<char>, Map<(u32, u32), (u32, bool, u64)>>,
    f: Seq<char>,
    block: u32,
    branch: u32,
    line: u32,
    r1: bool,
    t1: u64,
    r2: bool,
    t2: u64,
)
    ensures
        record_branch_spec(record_branch_spec(m, f, block, branch, line, r1, t1), f, block, branch, line, r2, t2)
            == record_branch_spec(
            record_branch_spec(m, f, block, branch, line, r2, t2),
            f,
            block,
            branch,
            line,
            r1,
            t1,
        ),
        record_branch_spec(m, f, block, branch, line, r1, t1)[f][(block, branch)].1 == (r1 || (
        m.contains_key(f) && m[f].contains_key((block, branch)) && m[f][(block, branch)].1)),
{
    let a = record_branch_spec(record_branch_spec(m, f, block, branch, line, r1, t1), f, block, branch, line, r2, t2);
    let b = record_branch_spec(record_branch_spec(m, f, block, branch, line, r2, t2), f, block, branch, line, r1, t1);
    assert(a[f] =~= b[f]);
    assert(a =~= b);
}

/// Statement hits merge order-independently (for the same reported line).
pub proof fn law_record_stmt_commutes(
    m: Map<Seq<char>, Map<u32, (u32, u64)>>,
    f: Seq<char>,
    idx: u32,
    line: u32,
    c1: u64,
    c2: u64,
)
    ensures
        record_stmt_spec(record_stmt_spec(m, f, idx, line, c1), f, idx, line, c2)
            == record_stmt_spec(record_stmt_spec(m, f, idx, line, c2), f, idx, line, c1),
{
    let a = record_stmt_spec(record_stmt_spec(m, f, idx, line, c1), f, idx, line, c2);
    let b = record_stmt_spec(record_stmt_spec(m, f, idx, line, c2), f, idx, line, c1);
    assert(a[f] =~= b[f]);
    assert(a =~= b);
}

/// Function call counts merge order-independently.
pub proof fn law_record_fn_commutes(
    m: Map<Seq<char>, Map<(u32, Seq<char>), u64>>,
    f: Seq<char>,
    line: u32,
    name: Seq<char>,
    c1: u64,
    c2: u64,
)
    ensures
        record_fn_spec(record_fn_spec(m, f, line, name, c1), f, line, name, c2)
            == record_fn_spec(record_fn_spec(m, f, line, name, c2), f, line, name, c1),
{
    let a = record_fn_spec(record_fn_spec(m, f, line, name, c1), f, line, name, c2);
    let b = record_fn_spec(record_fn_spec(m, f, line, name, c2), f, line, name, c1);
    assert(a[f] =~= b[f]);
    assert(a =~= b);
}

} // verus!

verus! {

/// (entries, entries whose value satisfies `pos`) of `file`'s table; `(0, 0)` when the file
/// has none.
pub open spec fn tally<K, V>(m: Map<Seq<char>, Map<K, V>>, f: Seq<char>, pos: spec_fn(V) -> bool) -> (
    nat,
    nat,
) {
    (inner_or_empty(m, f).dom().len(), pos_keys(inner_or_empty(m, f), pos).len())
}

/// Counts of `file`'s lines table (see `tally`).
pub fn line_tally(data: &CoverageData, file: &str) -> (r: (u64, u64))
    requires
        data.wf(),
    ensures
        r.0 == tally(data.line_view(), file@, |c: u64| c > 0).0,
        r.1 == tally(data.line_view(), file@, |c: u64| c > 0).1,
{
    let f = file.to_owned();
    let ghost fk = file_keys(data.lines@);
    match find_file(&data.lines, &f) {
        None => {
            proof {
                lemma_first_index(fk, f@);
                let e = inner_or_empty(data.line_view(), file@);
                assert(e =~= Map::empty());
                assert(e.dom() =~= Set::empty());
                assert(pos_keys(e, |c: u64| c > 0) =~= Set::empty());
            }
            (0, 0)
        },
        Some(i) => {
            proof {
                lemma_first_index(fk, f@);
            }
            let inner = &data.lines[i].1;
            let ghost ks = inner@.map_values(|e: (u32, u64)| e.0);
            let ghost vs = inner@.map_values(|e: (u32, u64)| e.1);
            let mut h: u64 = 0;
            let mut j: usize = 0;
            assert(vs.take(0) =~= Seq::<u64>::empty());
            while j < inner.len()
                invariant
                    j <= inner@.len(),
                    vs == inner@.map_values(|e: (u32, u64)| e.1),
                    h == count_where(vs.take(j as int), |c: u64| c > 0),
                    h <= j,
                decreases inner@.len() - j,
            {
                assert(vs.take(j + 1).drop_last() =~= vs.take(j as int));
                let c = inner[j].1;
                if c > 0 {
                    h += 1;
                }
                j += 1;
            }
            proof {
                assert(vs.take(inner@.len() as int) =~= vs);
                assert(data.lines@[i as int].1@.map_values(|e: (u32, u64)| e.0).no_duplicates());
                lemma_assoc_counts(ks, vs, |c: u64| c > 0);
                assert(inner_or_empty(data.line_view(), file@) == u32_map(inner@));
            }
            (inner.len() as u64, h)
        },
    }
}

/// Counts of `file`'s fns table (see `tally`).
pub fn fn_tally(data: &CoverageData, file: &str) -> (r: (u64, u64))
    requires
        data.wf(),
    ensures
        r.0 == tally(data.fn_view(), file@, |c: u64| c > 0).0,
        r.1 == tally(data.fn_view(), file@, |c: u64| c > 0).1,
{
    let f = file.to_owned();
    let ghost fk = file_keys(data.fns@);
    match find_file(&data.fns, &f) {
        None => {
            proof {
                lemma_first_index(fk, f@);
                let e = inner_or_empty(data.fn_view(), file@);
                assert(e =~= Map::empty());
                assert(e.dom() =~= Set::empty());
                assert(pos_keys(e, |c: u64| c > 0) =~= Set::empty());
            }
            (0, 0)
        },
        Some(i) => {
            proof {
                lemma_first_index(fk, f@);
            }
            let inner = &data.fns[i].1;
            let ghost ks = inner@.map_values(|e: ((u32, String), u64)| fn_key(e.0));
            let ghost vs = inner@.map_values(|e: ((u32, String), u64)| e.1);
            let mut h: u64 = 0;
            let mut j: usize = 0;
            assert(vs.take(0) =~= Seq::<u64>::empty());
            while j < inner.len()
                invariant
                    j <= inner@.len(),
                    vs == inner@.map_values(|e: ((u32, String), u64)| e.1),
                    h == count_where(vs.take(j as int), |c: u64| c > 0),
                    h <= j,
                decreases inner@.len() - j,
            {
                assert(vs.take(j + 1).drop_last() =~= vs.take(j as int));
                let c = inner[j].1;
                if c > 0 {
                    h += 1;
                }
                j += 1;
            }
            proof {
                assert(vs.take(inner@.len() as int) =~= vs);
                assert(data.fns@[i as int].1@.map_values(|e: ((u32, String), u64)| fn_key(e.0)).no_duplicates());
                lemma_assoc_counts(ks, vs, |c: u64| c > 0);
                assert(inner_or_empty(data.fn_view(), file@) == fn_map(inner@));
            }
            (inner.len() as u64, h)
        },
    }
}

/// Counts of `file`'s branches table (see `tally`).
pub fn branch_tally(data: &CoverageData, file: &str) -> (r: (u64, u64))
    requires
        data.wf(),
    ensures
        r.0 == tally(data.branch_view(), file@, |v: (u32, bool, u64)| v.1 && v.2 > 0).0,
        r.1 == tally(data.branch_view(), file@, |v: (u32, bool, u64)| v.1 && v.2 > 0).1,
{
    let f = file.to_owned();
    let ghost fk = file_keys(data.branches@);
    match find_file(&data.branches, &f) {
        None => {
            proof {
                lemma_first_index(fk, f@);
                let e = inner_or_empty(data.branch_view(), file@);
                assert(e =~= Map::empty());
                assert(e.dom() =~= Set::empty());
                assert(pos_keys(e, |v: (u32, bool, u64)| v.1 && v.2 > 0) =~= Set::empty());
            }
            (0, 0)
        },
        Some(i) => {
            proof {
                lemma_first_index(fk, f@);
            }
            let inner = &data.branches[i].1;
            let ghost ks = inner@.map_values(|e: ((u32, u32), (u32, bool, u64))| e.0);
            let ghost vs = inner@.map_values(|e: ((u32, u32), (u32, bool, u64))| e.1);
            let mut h: u64 = 0;
            let mut j: usize = 0;
            assert(vs.take(0) =~= Seq::<(u32, bool, u64)>::empty());
            while j < inner.len()
                invariant
                    j <= inner@.len(),
                    vs == inner@.map_values(|e: ((u32, u32), (u32, bool, u64))| e.1),
                    h == count_where(vs.take(j as int), |v: (u32, bool, u64)| v.1 && v.2 > 0),
                    h <= j,
                decreases inner@.len() - j,
            {
                assert(vs.take(j + 1).drop_last() =~= vs.take(j as int));
                let c = inner[j].1;
                if c.1 && c.2 > 0 {
                    h += 1;
                }
                j += 1;
            }
            proof {
                assert(vs.take(inner@.len() as int) =~= vs);
                assert(data.branches@[i as int].1@.map_values(|e: ((u32, u32), (u32, bool, u64))| e.0).no_duplicates());
                lemma_assoc_counts(ks, vs, |v: (u32, bool, u64)| v.1 && v.2 > 0);
                assert(inner_or_empty(data.branch_view(), file@) == pair_map(inner@));
            }
            (inner.len() as u64, h)
        },
    }
}

/// Counts of `file`'s stmts table (see `tally`).
pub fn stmt_tally(data: &CoverageData, file: &str) -> (r: (u64, u64))
    requires
        data.wf(),
    ensures
        r.0 == tally(data.stmt_view(), file@, |v: (u32, u64)| v.1 > 0).0,
        r.1 == tally(data.stmt_view(), file@, |v: (u32, u64)| v.1 > 0).1,
{
    let f = file.to_owned();
    let ghost fk = file_keys(data.stmts@);
    match find_file(&data.stmts, &f) {
        None => {
            proof {
                lemma_first_index(fk, f@);
                let e = inner_or_empty(data.stmt_view(), file@);
                assert(e =~= Map::empty());
                assert(e.dom() =~= Set::empty());
                assert(pos_keys(e, |v: (u32, u64)| v.1 > 0) =~= Set::empty());
            }
            (0, 0)
        },
        Some(i) => {
            proof {
                lemma_first_index(fk, f@);
            }
            let inner = &data.stmts[i].1;
            let ghost ks = inner@.map_values(|e: (u32, (u32, u64))| e.0);
            let ghost vs = inner@.map_values(|e: (u32, (u32, u64))| e.1);
            let mut h: u64 = 0;
            let mut j: usize = 0;
            assert(vs.take(0) =~= Seq::<(u32, u64)>::empty());
            while j < inner.len()
                invariant
                    j <= inner@.len(),
                    vs == inner@.map_values(|e: (u32, (u32, u64))| e.1),
                    h == count_where(vs.take(j as int), |v: (u32, u64)| v.1 > 0),
                    h <= j,
                decreases inner@.len() - j,
            {
                assert(vs.take(j + 1).drop_last() =~= vs.take(j as int));
                let c = inner[j].1;
                if c.1 > 0 {
                    h += 1;
                }
                j += 1;
            }
            proof {
                assert(vs.take(inner@.len() as int) =~= vs);
                assert(data.stmts@[i as int].1@.map_values(|e: (u32, (u32, u64))| e.0).no_duplicates());
                lemma_assoc_counts(ks, vs, |v: (u32, u64)| v.1 > 0);
                assert(inner_or_empty(data.stmt_view(), file@) == u32_map(inner@));
            }
            (inner.len() as u64, h)
        },
    }
}

} // verus!

verus! {

/// The files that have line data, each once.
pub fn covered_files(data: &CoverageData) -> (r: Vec<String>)
    requires
        data.wf(),
    ensures
        forall|f: Seq<char>| crate::text::strs(r@).contains(f) <==> data.line_view().contains_key(f),
        crate::text::strs(r@).no_duplicates(),
{
    let ghost fk = file_keys(data.lines@);
    let mut r: Vec<String> = Vec::new();
    let mut i: usize = 0;
    while i < data.lines.len()
        invariant
            i <= data.lines@.len(),
            fk == file_keys(data.lines@),
            fk.no_duplicates(),
            crate::text::strs(r@) == fk.take(i as int),
        decreases data.lines@.len() - i,
    {
        let ghost before = r@;
        r.push(data.lines[i].0.clone());
        assert(fk[i as int] == data.lines@[i as int].0@);
        assert(r@ == before.push(data.lines@[i as int].0));
        assert(crate::text::strs(r@) =~= crate::text::strs(before).push(fk[i as int]));
        assert(fk.take(i + 1) =~= fk.take(i as int).push(fk[i as int]));
        i += 1;
    }
    assert(fk.take(data.lines@.len() as int) =~= fk);
    assert forall|f: Seq<char>| crate::text::strs(r@).contains(f) <==> data.line_view().contains_key(f) by {
        lemma_first_index(fk, f);
        if fk.contains(f) {
            let j = choose|j: int| 0 <= j < fk.len() && fk[j] == f;
            assert(fk[j] == f);
        }
        if first_index(fk, f) >= 0 {
            assert(fk[first_index(fk, f)] == f);
        }
    }
    r
}

} // verus!

verus! {

/// `s` holds exactly the entries of `m`: each entry of `s` is one of `m`, and every key
/// of `m` has an entry in `s`.
pub open spec fn lists_map<K, V>(s: Seq<(K, V)>, m: Map<K, V>) -> bool {
    &&& forall|i: int|
        0 <= i < s.len() ==> m.contains_key(#[trigger] s[i].0) && m[s[i].0] == s[i].1
    &&& forall|k: K| #[trigger] m.contains_key(k) ==> exists|i: int| 0 <= i < s.len() && s[i].0 == k
}

/// A list with the same entries as an association list with distinct keys lists its map.
pub proof fn lemma_lists_assoc<K, V>(v: Seq<(K, V)>, r: Seq<(K, V)>)
    requires
        v.map_values(|e: (K, V)| e.0).no_duplicates(),
        forall|e: (K, V)| r.contains(e) <==> v.contains(e),
    ensures
        lists_map(r, assoc_map(v.map_values(|e: (K, V)| e.0), v.map_values(|e: (K, V)| e.1))),
{
    let ks = v.map_values(|e: (K, V)| e.0);
    let vs = v.map_values(|e: (K, V)| e.1);
    let m = assoc_map(ks, vs);
    assert forall|i: int| 0 <= i < r.len() implies m.contains_key(#[trigger] r[i].0) && m[r[i].0]
        == r[i].1 by {
        assert(r.contains(r[i]));
        let j = choose|j: int| 0 <= j < v.len() && v[j] == r[i];
        assert(ks[j] == r[i].0);
        crate::assoc::lemma_first_index_at(ks, ks[j], j);
    }
    assert forall|k: K| #[trigger] m.contains_key(k) implies exists|i: int| 0 <= i < r.len() && r[i].0
        == k by {
        lemma_first_index(ks, k);
        let j = first_index(ks, k);
        assert(v.contains(v[j]));
        assert(r.contains(v[j]));
        let i = choose|i: int| 0 <= i < r.len() && r[i] == v[j];
        assert(r[i].0 == k);
    }
}

/// The line entries `(line, count)` of `file` in increasing line order.
pub fn line_entries(data: &CoverageData, file: &str) -> (r: Vec<(u32, u64)>)
    requires
        data.wf(),
    ensures
        forall|i: int, j: int| 0 <= i < j < r@.len() ==> r@[i].0 < r@[j].0,
        lists_map(r@, inner_or_empty(data.line_view(), file@)),
{
    let f = file.to_owned();
    let ghost fk = file_keys(data.lines@);
    proof {
        lemma_first_index(fk, f@);
    }
    match find_file(&data.lines, &f) {
        None => {
            let r: Vec<(u32, u64)> = Vec::new();
            assert(inner_or_empty(data.line_view(), file@) =~= Map::empty());
            r
        },
        Some(i) => {
            let inner = &data.lines[i].1;
            let mut ranked: Vec<(u64, (u32, u64))> = Vec::new();
            let mut j: usize = 0;
            while j < inner.len()
                invariant
                    j <= inner@.len(),
                    ranked@.len() == j,
                    forall|k: int| 0 <= k < j ==> #[trigger] ranked@[k] == (inner@[k].0 as u64, inner@[k]),
                decreases inner@.len() - j,
            {
                ranked.push((inner[j].0 as u64, inner[j]));
                j += 1;
            }
            proof {
                assert(data.lines@[i as int].1@.map_values(|e: (u32, u64)| e.0).no_duplicates());
                let ik = inner@.map_values(|e: (u32, u64)| e.0);
                let rk = crate::order::rank_keys(ranked@);
                assert forall|a: int, b: int| 0 <= a < rk.len() && 0 <= b < rk.len() && a != b implies rk[a]
                    != rk[b] by {
                    assert(ik[a] != ik[b]);
                }
            }
            let sorted = crate::order::sort_by_rank(&ranked);
            let mut r: Vec<(u32, u64)> = Vec::new();
            let mut k: usize = 0;
            while k < sorted.len()
                invariant
                    k <= sorted@.len(),
                    r@.len() == k,
                    forall|t: int| 0 <= t < k ==> #[trigger] r@[t] == sorted@[t].1,
                decreases sorted@.len() - k,
            {
                r.push(sorted[k].1);
                k += 1;
            }
            proof {
                assert forall|e: (u32, u64)| r@.contains(e) <==> inner@.contains(e) by {
                    if r@.contains(e) {
                        let t = choose|t: int| 0 <= t < r@.len() && r@[t] == e;
                        assert(sorted@.contains(sorted@[t]));
                        assert(ranked@.contains(sorted@[t]));
                        let q = choose|q: int| 0 <= q < ranked@.len() && ranked@[q] == sorted@[t];
                        assert(inner@[q] == e);
                    }
                    if inner@.contains(e) {
                        let q = choose|q: int| 0 <= q < inner@.len() && inner@[q] == e;
                        assert(ranked@.contains(ranked@[q]));
                        assert(sorted@.contains(ranked@[q]));
                        let t = choose|t: int| 0 <= t < sorted@.len() && sorted@[t] == ranked@[q];
                        assert(r@[t] == e);
                    }
                }
                assert forall|a: int, b: int| 0 <= a < b < r@.len() implies r@[a].0 < r@[b].0 by {
                    assert(sorted@[a].0 < sorted@[b].0);
                    assert(sorted@.contains(sorted@[a]) && sorted@.contains(sorted@[b]));
                    let qa = choose|q: int| 0 <= q < ranked@.len() && ranked@[q] == sorted@[a];
                    let qb = choose|q: int| 0 <= q < ranked@.len() && ranked@[q] == sorted@[b];
                }
                lemma_lists_assoc(inner@, r@);
                assert(inner_or_empty(data.line_view(), file@) == u32_map(inner@));
            }
            r
        },
    }
}

} // verus!

verus! {

/// The order of branch keys: by decision block, then by arm.
pub open spec fn pair_lt(x: (u32, u32), y: (u32, u32)) -> bool {
    x.0 < y.0 || (x.0 == y.0 && x.1 < y.1)
}

pub open spec fn pair_rank(k: (u32, u32)) -> int {
    k.0 as int * 4294967296 + k.1 as int
}

proof fn lemma_pair_rank(x: (u32, u32), y: (u32, u32))
    ensures
        pair_rank(x) < pair_rank(y) <==> pair_lt(x, y),
        pair_rank(x) == pair_rank(y) ==> x == y,
        0 <= pair_rank(x) <= u64::MAX,
{
    let (a, b, c, d) = (x.0 as int, x.1 as int, y.0 as int, y.1 as int);
    assert(0 <= b < 4294967296 && 0 <= d < 4294967296);
    assert(a < c ==> a * 4294967296 + b < c * 4294967296 + d) by (nonlinear_arith)
        requires 0 <= b < 4294967296, 0 <= d < 4294967296;
    assert(c < a ==> c * 4294967296 + d < a * 4294967296 + b) by (nonlinear_arith)
        requires 0 <= b < 4294967296, 0 <= d < 4294967296;
    assert(0 <= a < 4294967296 ==> 0 <= a * 4294967296 + b <= 18446744073709551615) by (nonlinear_arith)
        requires 0 <= b < 4294967296;
}

/// The branch entries `((block, arm), (line, reached, taken))` of `file` in key order,
/// `None` when the file has no branch table.
pub fn branch_entries(data: &CoverageData, file: &str) -> (r: Option<Vec<((u32, u32), (u32, bool, u64))>>)
    requires
        data.wf(),
    ensures
        match r {
            None => !data.branch_view().contains_key(file@),
            Some(v) => data.branch_view().contains_key(file@) && (forall|i: int, j: int|
                0 <= i < j < v@.len() ==> pair_lt(v@[i].0, v@[j].0)) && lists_map(
                v@,
                data.branch_view()[file@],
            ),
        },
{
    let f = file.to_owned();
    let ghost fk = file_keys(data.branches@);
    proof {
        lemma_first_index(fk, f@);
    }
    match find_file(&data.branches, &f) {
        None => None,
        Some(i) => {
            let inner = &data.branches[i].1;
            let mut ranked: Vec<(u64, ((u32, u32), (u32, bool, u64)))> = Vec::new();
            let mut j: usize = 0;
            while j < inner.len()
                invariant
                    j <= inner@.len(),
                    ranked@.len() == j,
                    forall|k: int|
                        0 <= k < j ==> #[trigger] ranked@[k] == (pair_rank(inner@[k].0) as u64, inner@[k]),
                decreases inner@.len() - j,
            {
                let e = inner[j];
                proof {
                    lemma_pair_rank(e.0, e.0);
                }
                let rk: u64 = (e.0.0 as u64) * 4294967296 + (e.0.1 as u64);
                ranked.push((rk, e));
                j += 1;
            }
            proof {
                assert(data.branches@[i as int].1@.map_values(|e: ((u32, u32), (u32, bool, u64))| e.0).no_duplicates());
                let ik = inner@.map_values(|e: ((u32, u32), (u32, bool, u64))| e.0);
                let rk = crate::order::rank_keys(ranked@);
                assert forall|a: int, b: int| 0 <= a < rk.len() && 0 <= b < rk.len() && a != b implies rk[a]
                    != rk[b] by {
                    assert(ik[a] != ik[b]);
                    lemma_pair_rank(inner@[a].0, inner@[b].0);
                    lemma_pair_rank(inner@[a].0, inner@[a].0);
                    lemma_pair_rank(inner@[b].0, inner@[b].0);
                }
            }
            let sorted = crate::order::sort_by_rank(&ranked);
            let mut r: Vec<((u32, u32), (u32, bool, u64))> = Vec::new();
            let mut k: usize = 0;
            while k < sorted.len()
                invariant
                    k <= sorted@.len(),
                    r@.len() == k,
                    forall|t: int| 0 <= t < k ==> #[trigger] r@[t] == sorted@[t].1,
                decreases sorted@.len() - k,
            {
                r.push(sorted[k].1);
                k += 1;
            }
            proof {
                assert forall|e: ((u32, u32), (u32, bool, u64))| r@.contains(e) <==> inner@.contains(e) by {
                    if r@.contains(e) {
                        let t = choose|t: int| 0 <= t < r@.len() && r@[t] == e;
                        assert(sorted@.contains(sorted@[t]));
                        assert(ranked@.contains(sorted@[t]));
                        let q = choose|q: int| 0 <= q < ranked@.len() && ranked@[q] == sorted@[t];
                        assert(inner@[q] == e);
                    }
                    if inner@.contains(e) {
                        let q = choose|q: int| 0 <= q < inner@.len() && inner@[q] == e;
                        assert(ranked@.contains(ranked@[q]));
                        assert(sorted@.contains(ranked@[q]));
                        let t = choose|t: int| 0 <= t < sorted@.len() && sorted@[t] == ranked@[q];
                        assert(r@[t] == e);
                    }
                }
                assert forall|a: int, b: int| 0 <= a < b < r@.len() implies pair_lt(r@[a].0, r@[b].0) by {
                    assert(sorted@[a].0 < sorted@[b].0);
                    assert(sorted@.contains(sorted@[a]) && sorted@.contains(sorted@[b]));
                    let qa = choose|q: int| 0 <= q < ranked@.len() && ranked@[q] == sorted@[a];
                    let qb = choose|q: int| 0 <= q < ranked@.len() && ranked@[q] == sorted@[b];
                    lemma_pair_rank(inner@[qa].0, inner@[qb].0);
                    lemma_pair_rank(inner@[qa].0, inner@[qa].0);
                    lemma_pair_rank(inner@[qb].0, inner@[qb].0);
                }
                lemma_lists_assoc(inner@, r@);
                assert(data.branch_view()[file@] == pair_map(inner@));
            }
            Some(r)
        },
    }
}

/// The function entries `((line, name), count)` of `file` ordered by line, then name;
/// `None` when the file has no function table.
pub fn fn_entries(data: &CoverageData, file: &str) -> (r: Option<Vec<((u32, String), u64)>>)
    requires
        data.wf(),
    ensures
        match r {
            None => !data.fn_view().contains_key(file@),
            Some(v) => data.fn_view().contains_key(file@) && (forall|i: int, j: int|
                0 <= i < j < v@.len() ==> crate::order::fn_lt(
                    crate::order::fn_key_of(v@[i]),
                    crate::order::fn_key_of(v@[j]),
                )) && lists_map(crate::order::fn_views(v@), data.fn_view()[file@]),
        },
{
    let f = file.to_owned();
    let ghost fk = file_keys(data.fns@);
    proof {
        lemma_first_index(fk, f@);
    }
    match find_file(&data.fns, &f) {
        None => None,
        Some(i) => {
            let inner = &data.fns[i].1;
            proof {
                assert(data.fns@[i as int].1@.map_values(|e: ((u32, String), u64)| fn_key(e.0)).no_duplicates());
                assert(inner@.map_values(|e: ((u32, String), u64)| crate::order::fn_key_of(e)) =~= inner@.map_values(
                    |e: ((u32, String), u64)| fn_key(e.0),
                ));
            }
            let r = crate::order::sort_fn_entries(inner);
            proof {
                let iv = crate::order::fn_views(inner@);
                assert(iv.map_values(|e: ((u32, Seq<char>), u64)| e.0) =~= inner@.map_values(
                    |e: ((u32, String), u64)| fn_key(e.0),
                ));
                assert(iv.map_values(|e: ((u32, Seq<char>), u64)| e.1) =~= inner@.map_values(
                    |e: ((u32, String), u64)| e.1,
                ));
                lemma_lists_assoc(iv, crate::order::fn_views(r@));
                assert(data.fn_view()[file@] == fn_map(inner@));
            }
            Some(r)
        },
    }
}

} // verus!

