//! Listing keyed entries in increasing key order, for the reports.

use vstd::prelude::*;

verus! {

/// The keys of `s` strictly increase.
pub open spec fn ranked<V>(s: Seq<(u64, V)>) -> bool {
    forall|i: int, j: int| 0 <= i < j < s.len() ==> s[i].0 < s[j].0
}

/// The keys of `s`.
pub open spec fn rank_keys<V>(s: Seq<(u64, V)>) -> Seq<u64> {
    s.map_values(|e: (u64, V)| e.0)
}

/// A duplicate-free list drawn from `z` is no longer than `z`.
pub proof fn lemma_len_bound_of<A>(v: Seq<A>, z: Seq<A>)
    requires
        v.no_duplicates(),
        forall|j: int| 0 <= j < v.len() ==> z.contains(#[trigger] v[j]),
    ensures
        v.len() <= z.len(),
{
    v.unique_seq_to_set();
    z.lemma_cardinality_of_set();
    assert(v.to_set().subset_of(z.to_set())) by {
        assert forall|x: A| v.to_set().contains(x) implies z.to_set().contains(x) by {
            let j = choose|j: int| 0 <= j < v.len() && v[j] == x;
            assert(z.contains(v[j]));
        }
    }
    vstd::set_lib::lemma_len_subset(v.to_set(), z.to_set());
}

/// The entries of `v` in increasing key order (its keys being distinct).
pub fn sort_by_rank<V: Copy>(v: &Vec<(u64, V)>) -> (r: Vec<(u64, V)>)
    requires
        rank_keys(v@).no_duplicates(),
    ensures
        ranked(r@),
        forall|e: (u64, V)| r@.contains(e) <==> v@.contains(e),
{
    let mut out: Vec<(u64, V)> = Vec::new();
    loop
        invariant
            rank_keys(v@).no_duplicates(),
            ranked(out@),
            forall|j: int| 0 <= j < out@.len() ==> v@.contains(#[trigger] out@[j]),
            out@.len() > 0 ==> forall|j: int|
                0 <= j < v@.len() && (#[trigger] v@[j]).0 <= out@.last().0 ==> out@.contains(v@[j]),
            out@.len() <= v@.len(),
        decreases v@.len() - out@.len(),
    {
        let started = out.len() > 0;
        let last: u64 = if started {
            out[out.len() - 1].0
        } else {
            0
        };
        let mut best: Option<usize> = None;
        let mut j: usize = 0;
        while j < v.len()
            invariant
                j <= v@.len(),
                started == (out@.len() > 0),
                started ==> last == out@.last().0,
                match best {
                    Some(b) => b < j && (!started || v@[b as int].0 > last) && forall|k: int|
                        0 <= k < j && (!started || (#[trigger] v@[k]).0 > last) ==> v@[b as int].0
                            <= v@[k].0,
                    None => forall|k: int|
                        0 <= k < j ==> !(!started || (#[trigger] v@[k]).0 > last),
                },
            decreases v@.len() - j,
        {
            if !started || v[j].0 > last {
                match best {
                    None => {
                        best = Some(j);
                    },
                    Some(b) => {
                        if v[j].0 < v[b].0 {
                            best = Some(j);
                        }
                    },
                }
            }
            j += 1;
        }
        match best {
            None => {
                proof {
                    assert forall|e: (u64, V)| v@.contains(e) implies out@.contains(e) by {
                        let k = choose|k: int| 0 <= k < v@.len() && v@[k] == e;
                        assert(!(!started || v@[k].0 > last));
                    }
                }
                return out;
            },
            Some(m) => {
                let ghost old_out = out@;
                let e = v[m];
                out.push(e);
                proof {
                    assert(rank_keys(v@)[m as int] == v@[m as int].0);
                    assert forall|a: int, b: int| 0 <= a < b < out@.len() implies out@[a].0
                        < out@[b].0 by {
                        if b == old_out.len() {
                            if a < old_out.len() - 1 {
                                assert(old_out[a].0 < old_out.last().0);
                            }
                        }
                    }
                    assert forall|k: int|
                        0 <= k < v@.len() && (#[trigger] v@[k]).0 <= out@.last().0 implies out@.contains(
                        v@[k],
                    ) by {
                        if started && v@[k].0 <= last {
                            let w = choose|w: int| 0 <= w < old_out.len() && old_out[w] == v@[k];
                            assert(out@[w] == old_out[w]);
                        } else {
                            assert(v@[k].0 == v@[m as int].0);
                            assert(rank_keys(v@)[k] == rank_keys(v@)[m as int]);
                            assert(k == m);
                            assert(out@[old_out.len() as int] == v@[k]);
                        }
                    }
                    assert forall|a: int| 0 <= a < out@.len() implies v@.contains(#[trigger] out@[a]) by {
                        if a < old_out.len() {
                            assert(out@[a] == old_out[a]);
                        } else {
                            assert(out@[a] == v@[m as int]);
                        }
                    }
                    assert(out@.no_duplicates()) by {
                        assert forall|a: int, b: int|
                            0 <= a < out@.len() && 0 <= b < out@.len() && a != b implies out@[a]
                            != out@[b] by {
                            if a < b {
                                assert(out@[a].0 < out@[b].0);
                            } else {
                                assert(out@[b].0 < out@[a].0);
                            }
                        }
                    }
                    lemma_len_bound_of(out@, v@);
                }
            },
        }
    }
}

} // verus!

verus! {

/// Lexicographic order on character sequences (what `String`'s `Ord` gives).
pub open spec fn chars_lt(a: Seq<char>, b: Seq<char>) -> bool
    decreases a.len(),
{
    if a.len() == 0 {
        b.len() > 0
    } else if b.len() == 0 {
        false
    } else if a[0] != b[0] {
        a[0] < b[0]
    } else {
        chars_lt(a.drop_first(), b.drop_first())
    }
}

pub proof fn lemma_chars_lt_total(a: Seq<char>, b: Seq<char>)
    ensures
        !(chars_lt(a, b) && chars_lt(b, a)),
        a != b ==> chars_lt(a, b) || chars_lt(b, a),
        !chars_lt(a, a),
    decreases a.len(),
{
    if a.len() > 0 && b.len() > 0 && a[0] == b[0] {
        lemma_chars_lt_total(a.drop_first(), b.drop_first());
        if a != b {
            assert(a.drop_first() != b.drop_first()) by {
                if a.drop_first() == b.drop_first() {
                    assert(a =~= seq![a[0]] + a.drop_first());
                    assert(b =~= seq![b[0]] + b.drop_first());
                }
            }
        }
    }
    if a.len() > 0 {
        lemma_chars_lt_total(a.drop_first(), a.drop_first());
    }
    if a.len() == 0 && b.len() == 0 {
        assert(a =~= b);
    }
}

pub proof fn lemma_chars_lt_trans(a: Seq<char>, b: Seq<char>, c: Seq<char>)
    requires
        chars_lt(a, b),
        chars_lt(b, c),
    ensures
        chars_lt(a, c),
    decreases a.len(),
{
    if a.len() > 0 && b.len() > 0 && c.len() > 0 && a[0] == b[0] && b[0] == c[0] {
        lemma_chars_lt_trans(a.drop_first(), b.drop_first(), c.drop_first());
    }
}

fn chars_lt_exec(a: &[char], b: &[char]) -> (r: bool)
    ensures
        r == chars_lt(a@, b@),
{
    let mut i: usize = 0;
    assert(a@.skip(0) =~= a@);
    assert(b@.skip(0) =~= b@);
    while i < a.len() && i < b.len() && a[i] == b[i]
        invariant
            i <= a@.len(),
            i <= b@.len(),
            chars_lt(a@, b@) == chars_lt(a@.skip(i as int), b@.skip(i as int)),
        decreases a@.len() - i,
    {
        assert(a@.skip(i as int).drop_first() =~= a@.skip(i + 1));
        assert(b@.skip(i as int).drop_first() =~= b@.skip(i + 1));
        i += 1;
    }
    if i == a.len() {
        i < b.len()
    } else if i == b.len() {
        false
    } else {
        assert(a@.skip(i as int)[0] == a@[i as int]);
        assert(b@.skip(i as int)[0] == b@[i as int]);
        a[i] < b[i]
    }
}

/// A function entry's key: its line, then its name.
pub open spec fn fn_key_of(e: ((u32, String), u64)) -> (u32, Seq<char>) {
    (e.0.0, e.0.1@)
}

/// The order of function entries: by line, then by name.
pub open spec fn fn_lt(a: (u32, Seq<char>), b: (u32, Seq<char>)) -> bool {
    a.0 < b.0 || (a.0 == b.0 && chars_lt(a.1, b.1))
}

/// A function entry as plain values.
pub open spec fn fn_entry_view(e: ((u32, String), u64)) -> ((u32, Seq<char>), u64) {
    (fn_key_of(e), e.1)
}

pub open spec fn fn_views(s: Seq<((u32, String), u64)>) -> Seq<((u32, Seq<char>), u64)> {
    s.map_values(|e: ((u32, String), u64)| fn_entry_view(e))
}

fn fn_lt_exec(a: &((u32, String), u64), b: &((u32, String), u64)) -> (r: bool)
    ensures
        r == fn_lt(fn_key_of(*a), fn_key_of(*b)),
{
    if a.0.0 != b.0.0 {
        a.0.0 < b.0.0
    } else {
        let x = crate::text::chars_of(a.0.1.as_str());
        let y = crate::text::chars_of(b.0.1.as_str());
        chars_lt_exec(x.as_slice(), y.as_slice())
    }
}

fn copy_fn_entry(e: &((u32, String), u64)) -> (r: ((u32, String), u64))
    ensures
        fn_entry_view(r) == fn_entry_view(*e),
{
    ((e.0.0, e.0.1.clone()), e.1)
}

/// The function entries of `v` ordered by line, then name (its keys being distinct).
pub fn sort_fn_entries(v: &Vec<((u32, String), u64)>) -> (r: Vec<((u32, String), u64)>)
    requires
        v@.map_values(|e: ((u32, String), u64)| fn_key_of(e)).no_duplicates(),
    ensures
        forall|i: int, j: int|
            0 <= i < j < r@.len() ==> fn_lt(fn_key_of(r@[i]), fn_key_of(r@[j])),
        forall|e: ((u32, Seq<char>), u64)| fn_views(r@).contains(e) <==> fn_views(v@).contains(e),
{
    let ghost vk = v@.map_values(|e: ((u32, String), u64)| fn_key_of(e));
    let ghost vv = fn_views(v@);
    let mut out: Vec<((u32, String), u64)> = Vec::new();
    loop
        invariant
            vk == v@.map_values(|e: ((u32, String), u64)| fn_key_of(e)),
            vv == fn_views(v@),
            vk.no_duplicates(),
            forall|i: int, j: int|
                0 <= i < j < out@.len() ==> fn_lt(fn_key_of(out@[i]), fn_key_of(out@[j])),
            forall|j: int| 0 <= j < out@.len() ==> vv.contains(#[trigger] fn_views(out@)[j]),
            out@.len() > 0 ==> forall|j: int|
                0 <= j < v@.len() && !fn_lt(fn_key_of(out@.last()), fn_key_of(#[trigger] v@[j]))
                    ==> fn_views(out@).contains(vv[j]),
            out@.len() <= v@.len(),
        decreases v@.len() - out@.len(),
    {
        let started = out.len() > 0;
        let mut best: Option<usize> = None;
        let mut j: usize = 0;
        while j < v.len()
            invariant
                j <= v@.len(),
                started == (out@.len() > 0),
                match best {
                    Some(b) => b < j && (!started || fn_lt(fn_key_of(out@.last()), fn_key_of(v@[b as int])))
                        && forall|k: int|
                        0 <= k < j && (!started || fn_lt(fn_key_of(out@.last()), fn_key_of(#[trigger] v@[k])))
                            ==> !fn_lt(fn_key_of(v@[k]), fn_key_of(v@[b as int])),
                    None => forall|k: int|
                        0 <= k < j ==> !(!started || fn_lt(fn_key_of(out@.last()), fn_key_of(#[trigger] v@[k]))),
                },
            decreases v@.len() - j,
        {
            let cand = !started || fn_lt_exec(&out[out.len() - 1], &v[j]);
            proof {
                lemma_fn_lt_props(fn_key_of(v@[j as int]), fn_key_of(v@[j as int]), fn_key_of(v@[j as int]));
            }
            if cand {
                match best {
                    None => {
                        best = Some(j);
                    },
                    Some(b) => {
                        if fn_lt_exec(&v[j], &v[b]) {
                            proof {
                                assert forall|k: int|
                                    0 <= k < j + 1 && (!started || fn_lt(fn_key_of(out@.last()), fn_key_of(#[trigger] v@[k])))
                                        implies !fn_lt(fn_key_of(v@[k]), fn_key_of(v@[j as int])) by {
                                    lemma_fn_lt_props(fn_key_of(v@[k]), fn_key_of(v@[j as int]), fn_key_of(v@[b as int]));
                                }
                            }
                            best = Some(j);
                        } else {
                            proof {
                                assert forall|k: int|
                                    0 <= k < j + 1 && (!started || fn_lt(fn_key_of(out@.last()), fn_key_of(#[trigger] v@[k])))
                                        implies !fn_lt(fn_key_of(v@[k]), fn_key_of(v@[b as int])) by {
                                    if k == j {
                                    }
                                }
                            }
                        }
                    },
                }
            }
            j += 1;
        }
        match best {
            None => {
                proof {
                    assert forall|e: ((u32, Seq<char>), u64)| vv.contains(e) implies fn_views(out@).contains(e) by {
                        let k = choose|k: int| 0 <= k < vv.len() && vv[k] == e;
                        assert(!(!started || fn_lt(fn_key_of(out@.last()), fn_key_of(v@[k]))));
                    }
                    assert forall|e: ((u32, Seq<char>), u64)| fn_views(out@).contains(e) implies vv.contains(e) by {
                        let k = choose|k: int| 0 <= k < fn_views(out@).len() && fn_views(out@)[k] == e;
                    }
                }
                return out;
            },
            Some(m) => {
                let ghost old_out = out@;
                let e = copy_fn_entry(&v[m]);
                out.push(e);
                proof {
                    assert(fn_views(out@) =~= fn_views(old_out).push(vv[m as int]));
                    assert forall|a: int, b: int| 0 <= a < b < out@.len() implies fn_lt(
                        fn_key_of(out@[a]),
                        fn_key_of(out@[b]),
                    ) by {
                        if b == old_out.len() {
                            assert(fn_key_of(out@[b]) == fn_key_of(v@[m as int]));
                            if a < old_out.len() - 1 {
                                assert(fn_lt(fn_key_of(old_out[a]), fn_key_of(old_out.last())));
                                lemma_fn_lt_props(fn_key_of(old_out[a]), fn_key_of(old_out.last()), fn_key_of(v@[m as int]));
                            }
                        } else {
                            assert(out@[a] == old_out[a] && out@[b] == old_out[b]);
                        }
                    }
                    assert forall|k: int|
                        0 <= k < v@.len() && !fn_lt(fn_key_of(out@.last()), fn_key_of(#[trigger] v@[k]))
                            implies fn_views(out@).contains(vv[k]) by {
                        assert(fn_key_of(out@.last()) == fn_key_of(v@[m as int]));
                        lemma_fn_lt_props(fn_key_of(v@[k]), fn_key_of(v@[m as int]), fn_key_of(v@[m as int]));
                        if started && !fn_lt(fn_key_of(old_out.last()), fn_key_of(v@[k])) {
                            let w = choose|w: int| 0 <= w < fn_views(old_out).len() && fn_views(old_out)[w] == vv[k];
                            assert(fn_views(out@)[w] == fn_views(old_out)[w]);
                        } else {
                            assert(!fn_lt(fn_key_of(v@[k]), fn_key_of(v@[m as int])));
                            assert(fn_key_of(v@[k]) == fn_key_of(v@[m as int]));
                            assert(vk[k] == vk[m as int]);
                            assert(k == m);
                            assert(fn_views(out@)[old_out.len() as int] == vv[k]);
                        }
                    }
                    assert forall|a: int| 0 <= a < out@.len() implies vv.contains(#[trigger] fn_views(out@)[a]) by {
                        if a < old_out.len() {
                            assert(fn_views(out@)[a] == fn_views(old_out)[a]);
                        } else {
                            assert(fn_views(out@)[a] == vv[m as int]);
                        }
                    }
                    assert(fn_views(out@).no_duplicates()) by {
                        assert forall|a: int, b: int|
                            0 <= a < out@.len() && 0 <= b < out@.len() && a != b implies fn_views(out@)[a]
                            != fn_views(out@)[b] by {
                            if a < b {
                                assert(fn_lt(fn_key_of(out@[a]), fn_key_of(out@[b])));
                                lemma_fn_lt_props(fn_key_of(out@[a]), fn_key_of(out@[b]), fn_key_of(out@[b]));
                            } else {
                                assert(fn_lt(fn_key_of(out@[b]), fn_key_of(out@[a])));
                                lemma_fn_lt_props(fn_key_of(out@[b]), fn_key_of(out@[a]), fn_key_of(out@[a]));
                            }
                        }
                    }
                    lemma_len_bound_of(fn_views(out@), vv);
                }
            },
        }
    }
}

/// `fn_lt` is a strict total order.
pub proof fn lemma_fn_lt_props(a: (u32, Seq<char>), b: (u32, Seq<char>), c: (u32, Seq<char>))
    ensures
        !fn_lt(a, a),
        !(fn_lt(a, b) && fn_lt(b, a)),
        a != b ==> fn_lt(a, b) || fn_lt(b, a),
        fn_lt(a, b) && fn_lt(b, c) ==> fn_lt(a, c),
        !fn_lt(a, b) && fn_lt(b, c) && a != b ==> fn_lt(a, c) || false || fn_lt(b, a),
        !fn_lt(a, b) && !fn_lt(b, a) ==> a == b,
        fn_lt(a, b) && !fn_lt(c, b) && b != c ==> fn_lt(a, c),
{
    lemma_chars_lt_total(a.1, b.1);
    lemma_chars_lt_total(b.1, c.1);
    lemma_chars_lt_total(a.1, c.1);
    lemma_chars_lt_total(a.1, a.1);
    if chars_lt(a.1, b.1) && chars_lt(b.1, c.1) {
        lemma_chars_lt_trans(a.1, b.1, c.1);
    }
    if chars_lt(a.1, b.1) && chars_lt(c.1, b.1) == false && b.1 != c.1 {
        if chars_lt(b.1, c.1) {
            lemma_chars_lt_trans(a.1, b.1, c.1);
        }
    }
}

} // verus!

