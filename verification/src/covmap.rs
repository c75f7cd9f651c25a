//! Decoding V8 precise-coverage profiles, carrying their covered ranges back to original
//! source lines, functions, branches and statements, and recording the hits.

use vstd::prelude::*;

use crate::covdata::{
    record, record_branch, record_branch_spec, record_fn, record_fn_spec, record_spec,
    record_stmt, record_stmt_spec,
};
use crate::coverage::{coverage_wf, meta_map, Coverage};
use crate::meta::{
    gen_to_orig, gen_to_orig_spec, meta_wf, off_to_src, off_to_src_spec, opt_pair, BranchCC, ScriptMeta,
};
use serde_json::Value;

verus! {

/// The mapping data registered for `file`, if any.
pub open spec fn meta_of(cov: &Coverage, file: Seq<char>) -> Option<ScriptMeta> {
    if meta_map(cov).contains_key(file) {
        meta_map(cov)[file]
    } else {
        None
    }
}

/// A count below zero reads as zero.
pub open spec fn clamp(c: i64) -> u64 {
    if c < 0 {
        0
    } else {
        c as u64
    }
}

fn clamp_exec(c: i64) -> (r: u64)
    ensures
        r == clamp(c),
{
    if c < 0 {
        0
    } else {
        c as u64
    }
}

/// The innermost covered range containing `off`, as (start, count): among the ranges that
/// contain it, the one with the greatest start, the later one on a tie.
pub open spec fn innermost(ranges: Seq<(usize, usize, i64)>, off: int) -> Option<(usize, i64)>
    decreases ranges.len(),
{
    if ranges.len() == 0 {
        None
    } else {
        let b = innermost(ranges.drop_last(), off);
        let r = ranges.last();
        let better = match b {
            Some(bb) => r.0 >= bb.0,
            None => true,
        };
        if r.0 <= off < r.1 && better {
            Some((r.0, r.2))
        } else {
            b
        }
    }
}

fn innermost_exec(ranges: &[(usize, usize, i64)], off: usize) -> (r: Option<(usize, i64)>)
    ensures
        r == innermost(ranges@, off as int),
{
    let mut best: Option<(usize, i64)> = None;
    let mut i: usize = 0;
    assert(ranges@.take(0) =~= Seq::<(usize, usize, i64)>::empty());
    while i < ranges.len()
        invariant
            i <= ranges@.len(),
            best == innermost(ranges@.take(i as int), off as int),
        decreases ranges@.len() - i,
    {
        assert(ranges@.take(i + 1).drop_last() =~= ranges@.take(i as int));
        let (s, e, c) = ranges[i];
        let better = match best {
            Some(bb) => s >= bb.0,
            None => true,
        };
        if s <= off && off < e && better {
            best = Some((s, c));
        }
        i += 1;
    }
    assert(ranges@.take(ranges@.len() as int) =~= ranges@);
    best
}

/// Line hits of one script run, in the order they are recorded: for each wrapped line
/// after the wrapper line, the count of the innermost range containing its start, at the
/// original line its generated line maps to.
pub open spec fn script_line_events(
    ls: Seq<usize>,
    genmap: Seq<Option<u32>>,
    ranges: Seq<(usize, usize, i64)>,
    n: int,
) -> Seq<(u32, u64)>
    decreases n,
{
    if n <= 1 {
        Seq::empty()
    } else {
        let prev = script_line_events(ls, genmap, ranges, n - 1);
        let off = ls[n - 1] as int;
        match innermost(ranges, off) {
            Some(b) => match off_to_src_spec(ls, genmap, off) {
                Some(sl) => if sl <= u32::MAX {
                    prev.push((sl as u32, clamp(b.1)))
                } else {
                    prev
                },
                None => prev,
            },
            None => prev,
        }
    }
}

pub open spec fn apply_line_records(
    m: Map<Seq<char>, Map<u32, u64>>,
    f: Seq<char>,
    ev: Seq<(u32, u64)>,
) -> Map<Seq<char>, Map<u32, u64>>
    decreases ev.len(),
{
    if ev.len() == 0 {
        m
    } else {
        let prev = apply_line_records(m, f, ev.drop_last());
        record_spec(prev, f, ev.last().0, ev.last().1)
    }
}

/// A function's name, or `(anonymous)`.
pub open spec fn fn_name_or_anon(n: Seq<char>) -> Seq<char> {
    if n.len() == 0 {
        "(anonymous)"@
    } else {
        n
    }
}

/// Function hits of one script run: each function's call count at the original line of
/// its start.
pub open spec fn script_fn_events(
    ls: Seq<usize>,
    genmap: Seq<Option<u32>>,
    funcs: Seq<(String, usize, i64)>,
) -> Seq<(u32, Seq<char>, u64)>
    decreases funcs.len(),
{
    if funcs.len() == 0 {
        Seq::empty()
    } else {
        let prev = script_fn_events(ls, genmap, funcs.drop_last());
        let fx = funcs.last();
        match off_to_src_spec(ls, genmap, fx.1 as int) {
            Some(sl) => if sl <= u32::MAX {
                prev.push((sl as u32, fn_name_or_anon(fx.0@), clamp(fx.2)))
            } else {
                prev
            },
            None => prev,
        }
    }
}

pub open spec fn apply_fn_records(
    m: Map<Seq<char>, Map<(u32, Seq<char>), u64>>,
    f: Seq<char>,
    ev: Seq<(u32, Seq<char>, u64)>,
) -> Map<Seq<char>, Map<(u32, Seq<char>), u64>>
    decreases ev.len(),
{
    if ev.len() == 0 {
        m
    } else {
        let prev = apply_fn_records(m, f, ev.drop_last());
        record_fn_spec(prev, f, ev.last().0, ev.last().1, ev.last().2)
    }
}

/// Attribute one script run's covered ranges (offsets into the wrapped module) and its
/// functions' call counts to original lines of `file`. Without mapping data nothing is
/// recorded.
pub fn map_script(
    cov: &mut Coverage,
    file: &str,
    ranges: &[(usize, usize, i64)],
    funcs: &[(String, usize, i64)],
)
    requires
        coverage_wf(old(cov)),
    ensures
        coverage_wf(final(cov)),
        *final(cov) == (Coverage { data: final(cov).data, ..*old(cov) }),
        match meta_of(old(cov), file@) {
            None => final(cov).data == old(cov).data,
            Some(m) => {
                &&& final(cov).data.line_view() == apply_line_records(
                    old(cov).data.line_view(),
                    file@,
                    script_line_events(m.line_start@, m.map.genmap@, ranges@, m.line_start@.len() as int),
                )
                &&& final(cov).data.fn_view() == apply_fn_records(
                    old(cov).data.fn_view(),
                    file@,
                    script_fn_events(m.line_start@, m.map.genmap@, funcs@),
                )
                &&& final(cov).data.branch_view() == old(cov).data.branch_view()
                &&& final(cov).data.stmt_view() == old(cov).data.stmt_view()
            },
        },
{
    let idx = match crate::coverage::meta_index(cov, file) {
        Some(i) => i,
        None => return,
    };
    let meta = match &cov.meta[idx].1 {
        Some(m) => m,
        None => return,
    };
    assert(meta_wf(meta));
    let ghost ls = meta.line_start@;
    let ghost gm = meta.map.genmap@;
    let ghost lv0 = cov.data.line_view();
    let ghost fv0 = cov.data.fn_view();
    let ghost bv0 = cov.data.branch_view();
    let ghost sv0 = cov.data.stmt_view();
    let mut li: usize = 1;
    while li < meta.line_start.len()
        invariant
            1 <= li <= ls.len(),
            meta_wf(meta),
            *cov == (Coverage { data: cov.data, ..*old(cov) }),
            cov.data.wf(),
            ls == meta.line_start@,
            gm == meta.map.genmap@,
            cov.data.line_view() == apply_line_records(lv0, file@, script_line_events(ls, gm, ranges@, li as int)),
            cov.data.fn_view() == fv0,
            cov.data.branch_view() == bv0,
            cov.data.stmt_view() == sv0,
        decreases ls.len() - li,
    {
        let off = meta.line_start[li];
        let ghost before = script_line_events(ls, gm, ranges@, li as int);
        match innermost_exec(ranges, off) {
            Some(b) => match off_to_src(meta, off) {
                Some(sl) => {
                    if sl <= u32::MAX as u64 {
                        record(&mut cov.data, file, sl as u32, clamp_exec(b.1));
                        assert(script_line_events(ls, gm, ranges@, li + 1) == before.push((sl as u32, clamp(b.1))));
                        assert(before.push((sl as u32, clamp(b.1))).drop_last() =~= before);
                    }
                },
                None => {},
            },
            None => {},
        }
        li += 1;
    }
    let mut k: usize = 0;
    assert(funcs@.take(0) =~= Seq::<(String, usize, i64)>::empty());
    while k < funcs.len()
        invariant
            k <= funcs@.len(),
            meta_wf(meta),
            *cov == (Coverage { data: cov.data, ..*old(cov) }),
            cov.data.wf(),
            ls == meta.line_start@,
            gm == meta.map.genmap@,
            cov.data.line_view() == apply_line_records(lv0, file@, script_line_events(ls, gm, ranges@, ls.len() as int)),
            cov.data.fn_view() == apply_fn_records(fv0, file@, script_fn_events(ls, gm, funcs@.take(k as int))),
            cov.data.branch_view() == bv0,
            cov.data.stmt_view() == sv0,
        decreases funcs@.len() - k,
    {
        assert(funcs@.take(k + 1).drop_last() =~= funcs@.take(k as int));
        let (name, start, count) = &funcs[k];
        let ghost before = script_fn_events(ls, gm, funcs@.take(k as int));
        let ghost e = (
            (off_to_src_spec(ls, gm, *start as int)->Some_0) as u32,
            fn_name_or_anon(name@),
            clamp(*count),
        );
        assert(before.push(e).drop_last() =~= before);
        match off_to_src(meta, *start) {
            Some(sl) => {
                if sl <= u32::MAX as u64 {
                    if name.as_str().is_empty() {
                        record_fn(&mut cov.data, file, sl as u32, "(anonymous)", clamp_exec(*count));
                    } else {
                        record_fn(&mut cov.data, file, sl as u32, name.as_str(), clamp_exec(*count));
                    }
                }
            },
            None => {},
        }
        k += 1;
    }
    assert(funcs@.take(funcs@.len() as int) =~= funcs@);
}

} // verus!

verus! {

/// A position in original source: (line, column), ordered line first.
pub open spec fn pos_lt(a: (u64, u64), b: (u64, u64)) -> bool {
    a.0 < b.0 || (a.0 == b.0 && a.1 < b.1)
}

pub open spec fn pos_le(a: (u64, u64), b: (u64, u64)) -> bool {
    !pos_lt(b, a)
}

fn pos_lt_exec(a: (u64, u64), b: (u64, u64)) -> (r: bool)
    ensures
        r == pos_lt(a, b),
{
    a.0 < b.0 || (a.0 == b.0 && a.1 < b.1)
}

/// A covered range in original coordinates: (start, end, count).
pub type ORange = ((u64, u64), (u64, u64), i64);

/// The covered ranges carried to original coordinates: those whose two ends both map and
/// stay in order.
pub open spec fn oranges_spec(
    ls: Seq<usize>,
    segs: Seq<Seq<(u32, u32, u32)>>,
    ranges: Seq<(usize, usize, i64)>,
) -> Seq<ORange>
    decreases ranges.len(),
{
    if ranges.len() == 0 {
        Seq::empty()
    } else {
        let prev = oranges_spec(ls, segs, ranges.drop_last());
        let r = ranges.last();
        match opt_pair(gen_to_orig_spec(ls, segs, r.0 as int)) {
            Some(s) => match opt_pair(gen_to_orig_spec(ls, segs, r.1 as int)) {
                Some(e) => if pos_lt(s, e) {
                    prev.push((s, e, r.2))
                } else {
                    prev
                },
                None => prev,
            },
            None => prev,
        }
    }
}

pub open spec fn seg_views(m: &ScriptMeta) -> Seq<Seq<(u32, u32, u32)>> {
    m.map.segments@.map_values(|v: Vec<(u32, u32, u32)>| v@)
}

fn oranges_exec(meta: &ScriptMeta, ranges: &[(usize, usize, i64)]) -> (r: Vec<ORange>)
    requires
        meta_wf(meta),
    ensures
        r@ == oranges_spec(meta.line_start@, seg_views(meta), ranges@),
{
    let mut out: Vec<ORange> = Vec::new();
    let mut i: usize = 0;
    assert(ranges@.take(0) =~= Seq::<(usize, usize, i64)>::empty());
    while i < ranges.len()
        invariant
            i <= ranges@.len(),
            meta_wf(meta),
            out@ == oranges_spec(meta.line_start@, seg_views(meta), ranges@.take(i as int)),
        decreases ranges@.len() - i,
    {
        assert(ranges@.take(i + 1).drop_last() =~= ranges@.take(i as int));
        let (gs, ge, c) = ranges[i];
        match gen_to_orig(meta, gs) {
            Some(s) => match gen_to_orig(meta, ge) {
                Some(e) => {
                    if pos_lt_exec(s, e) {
                        out.push((s, e, c));
                    }
                },
                None => {},
            },
            None => {},
        }
        i += 1;
    }
    assert(ranges@.take(ranges@.len() as int) =~= ranges@);
    out
}

/// The innermost range containing `p`: of those containing it, the greatest start, the
/// later one on a tie.
pub open spec fn block_of(or: Seq<ORange>, p: (u64, u64)) -> Option<ORange>
    decreases or.len(),
{
    if or.len() == 0 {
        None
    } else {
        let b = block_of(or.drop_last(), p);
        let r = or.last();
        let better = match b {
            Some(bb) => pos_le(bb.0, r.0),
            None => true,
        };
        if pos_le(r.0, p) && pos_lt(p, r.1) && better {
            Some(r)
        } else {
            b
        }
    }
}

/// The count of the innermost range containing `p`.
pub open spec fn count_at(or: Seq<ORange>, p: (u64, u64)) -> Option<i64> {
    match block_of(or, p) {
        Some(r) => Some(r.2),
        None => None,
    }
}

/// The range starting in `[lo, hi)` with the smallest start, the first one on a tie, as
/// (start, count).
pub open spec fn first_in(or: Seq<ORange>, lo: (u64, u64), hi: (u64, u64)) -> Option<((u64, u64), i64)>
    decreases or.len(),
{
    if or.len() == 0 {
        None
    } else {
        let b = first_in(or.drop_last(), lo, hi);
        let r = or.last();
        let better = match b {
            Some(bb) => pos_lt(r.0, bb.0),
            None => true,
        };
        if pos_le(lo, r.0) && pos_lt(r.0, hi) && better {
            Some((r.0, r.2))
        } else {
            b
        }
    }
}

fn block_of_exec(or: &Vec<ORange>, p: (u64, u64)) -> (r: Option<ORange>)
    ensures
        r == block_of(or@, p),
{
    let mut best: Option<ORange> = None;
    let mut i: usize = 0;
    assert(or@.take(0) =~= Seq::<ORange>::empty());
    while i < or.len()
        invariant
            i <= or@.len(),
            best == block_of(or@.take(i as int), p),
        decreases or@.len() - i,
    {
        assert(or@.take(i + 1).drop_last() =~= or@.take(i as int));
        let r = or[i];
        let better = match best {
            Some(bb) => !pos_lt_exec(r.0, bb.0),
            None => true,
        };
        if !pos_lt_exec(p, r.0) && pos_lt_exec(p, r.1) && better {
            best = Some(r);
        }
        i += 1;
    }
    assert(or@.take(or@.len() as int) =~= or@);
    best
}

fn count_at_exec(or: &Vec<ORange>, p: (u64, u64)) -> (r: Option<i64>)
    ensures
        r == count_at(or@, p),
{
    match block_of_exec(or, p) {
        Some(r) => Some(r.2),
        None => None,
    }
}

fn first_in_exec(or: &Vec<ORange>, lo: (u64, u64), hi: (u64, u64)) -> (r: Option<((u64, u64), i64)>)
    ensures
        r == first_in(or@, lo, hi),
{
    let mut best: Option<((u64, u64), i64)> = None;
    let mut i: usize = 0;
    assert(or@.take(0) =~= Seq::<ORange>::empty());
    while i < or.len()
        invariant
            i <= or@.len(),
            best == first_in(or@.take(i as int), lo, hi),
        decreases or@.len() - i,
    {
        assert(or@.take(i + 1).drop_last() =~= or@.take(i as int));
        let r = or[i];
        let better = match best {
            Some(bb) => pos_lt_exec(r.0, bb.0),
            None => true,
        };
        if !pos_lt_exec(r.0, lo) && pos_lt_exec(r.0, hi) && better {
            best = Some((r.0, r.2));
        }
        i += 1;
    }
    assert(or@.take(or@.len() as int) =~= or@);
    best
}

pub open spec fn sat_sub(a: u64, b: u64) -> u64 {
    if a >= b {
        (a - b) as u64
    } else {
        0
    }
}

/// A count where there is one, else zero (negative counts read as zero).
pub open spec fn count_or_zero(c: Option<i64>) -> u64 {
    match c {
        Some(x) => clamp(x),
        None => 0,
    }
}

} // verus!

verus! {

/// (then, else) counts of an `if` without `else`. If the consequent has a range of its own
/// that count is the then-count and the rest of the block's count the else-count;
/// otherwise a range after the `if` (still inside the block) gives the else-count, and
/// with none the then-arm never ran.
pub open spec fn implicit_else_counts(or: Seq<ORange>, br: BranchCC, block_count: u64) -> (u64, u64) {
    match first_in(or, br.arms@[0], br.arms@[1]) {
        Some(x) => (clamp(x.1), sat_sub(block_count, clamp(x.1))),
        None => {
            let block_end = match block_of(or, br.decision) {
                Some(b) => b.1,
                None => (u32::MAX as u64, 0u64),
            };
            match first_in(or, br.arms@[1], block_end) {
                Some(x) => (sat_sub(block_count, clamp(x.1)), clamp(x.1)),
                None => (0u64, block_count),
            }
        },
    }
}

/// A branch record: (decision block, arm, line, reached, taken).
pub type BranchEvent = (u32, u32, u32, bool, u64);

pub open spec fn arm_events(
    or: Seq<ORange>,
    arms: Seq<(u64, u64)>,
    block: u32,
    line: u32,
    reached: bool,
) -> Seq<BranchEvent>
    decreases arms.len(),
{
    if arms.len() == 0 {
        Seq::empty()
    } else {
        let prev = arm_events(or, arms.drop_last(), block, line, reached);
        let i = arms.len() - 1;
        if i <= u32::MAX {
            prev.push((block, i as u32, line, reached, count_or_zero(count_at(or, arms.last()))))
        } else {
            prev
        }
    }
}

/// The records of decision block `idx`: the block's count (that of the innermost range at
/// the decision) says whether it was reached; each arm's count is that of the innermost
/// range at its start, except for an `if` without `else` (see `implicit_else_counts`).
pub open spec fn block_events(or: Seq<ORange>, br: BranchCC, idx: int) -> Seq<BranchEvent> {
    if idx > u32::MAX || br.decision.0 >= u32::MAX {
        Seq::empty()
    } else {
        let block = idx as u32;
        let line = (br.decision.0 + 1) as u32;
        let bc = count_or_zero(count_at(or, br.decision));
        let reached = bc > 0;
        if br.implicit_else && br.arms@.len() == 2 {
            let te = implicit_else_counts(or, br, bc);
            seq![(block, 0u32, line, reached, te.0), (block, 1u32, line, reached, te.1)]
        } else {
            arm_events(or, br.arms@, block, line, reached)
        }
    }
}

pub open spec fn branch_events(or: Seq<ORange>, brs: Seq<BranchCC>) -> Seq<BranchEvent>
    decreases brs.len(),
{
    if brs.len() == 0 {
        Seq::empty()
    } else {
        branch_events(or, brs.drop_last()) + block_events(or, brs.last(), brs.len() - 1)
    }
}

pub open spec fn apply_branch_records(
    m: Map<Seq<char>, Map<(u32, u32), (u32, bool, u64)>>,
    f: Seq<char>,
    ev: Seq<BranchEvent>,
) -> Map<Seq<char>, Map<(u32, u32), (u32, bool, u64)>>
    decreases ev.len(),
{
    if ev.len() == 0 {
        m
    } else {
        let e = ev.last();
        record_branch_spec(apply_branch_records(m, f, ev.drop_last()), f, e.0, e.1, e.2, e.3, e.4)
    }
}

proof fn lemma_apply_branch_concat(
    m: Map<Seq<char>, Map<(u32, u32), (u32, bool, u64)>>,
    f: Seq<char>,
    a: Seq<BranchEvent>,
    b: Seq<BranchEvent>,
)
    ensures
        apply_branch_records(m, f, a + b) == apply_branch_records(apply_branch_records(m, f, a), f, b),
    decreases b.len(),
{
    if b.len() == 0 {
        assert(a + b =~= a);
    } else {
        assert((a + b).drop_last() =~= a + b.drop_last());
        lemma_apply_branch_concat(m, f, a, b.drop_last());
    }
}

fn sat_sub_exec(a: u64, b: u64) -> (r: u64)
    ensures
        r == sat_sub(a, b),
{
    if a >= b {
        a - b
    } else {
        0
    }
}

fn count_or_zero_exec(c: Option<i64>) -> (r: u64)
    ensures
        r == count_or_zero(c),
{
    match c {
        Some(x) => clamp_exec(x),
        None => 0,
    }
}

fn implicit_else_exec(or: &Vec<ORange>, br: &BranchCC, block_count: u64) -> (r: (u64, u64))
    requires
        br.arms@.len() == 2,
    ensures
        r == implicit_else_counts(or@, *br, block_count),
{
    match first_in_exec(or, br.arms[0], br.arms[1]) {
        Some(x) => (clamp_exec(x.1), sat_sub_exec(block_count, clamp_exec(x.1))),
        None => {
            let block_end = match block_of_exec(or, br.decision) {
                Some(b) => b.1,
                None => (u32::MAX as u64, 0u64),
            };
            match first_in_exec(or, br.arms[1], block_end) {
                Some(x) => (sat_sub_exec(block_count, clamp_exec(x.1)), clamp_exec(x.1)),
                None => (0u64, block_count),
            }
        },
    }
}

fn record_block(
    data: &mut crate::covdata::CoverageData,
    file: &str,
    or: &Vec<ORange>,
    br: &BranchCC,
    idx: usize,
)
    ensures
        final(data).branch_view() == apply_branch_records(
            old(data).branch_view(),
            file@,
            block_events(or@, *br, idx as int),
        ),
        final(data).line_view() == old(data).line_view(),
        final(data).fn_view() == old(data).fn_view(),
        final(data).stmt_view() == old(data).stmt_view(),
        old(data).wf() ==> final(data).wf(),
{
    if idx > u32::MAX as usize || br.decision.0 >= u32::MAX as u64 {
        return;
    }
    let block = idx as u32;
    let line = (br.decision.0 + 1) as u32;
    let bc = count_or_zero_exec(count_at_exec(or, br.decision));
    let reached = bc > 0;
    if br.implicit_else && br.arms.len() == 2 {
        let te = implicit_else_exec(or, br, bc);
        let ghost e0 = (block, 0u32, line, reached, te.0);
        let ghost e1 = (block, 1u32, line, reached, te.1);
        let ghost m0 = data.branch_view();
        record_branch(data, file, block, 0, line, reached, te.0);
        let ghost m1 = data.branch_view();
        record_branch(data, file, block, 1, line, reached, te.1);
        proof {
            assert(seq![e0, e1].drop_last() =~= seq![e0]);
            assert(seq![e0].drop_last() =~= Seq::<BranchEvent>::empty());
            assert(apply_branch_records(m0, file@, Seq::<BranchEvent>::empty()) == m0);
            assert(apply_branch_records(m0, file@, seq![e0]) == m1);
            assert(apply_branch_records(m0, file@, seq![e0, e1]) == data.branch_view());
            assert(block_events(or@, *br, idx as int) == seq![e0, e1]);
        }
    } else {
        let ghost bv0 = data.branch_view();
        let mut j: usize = 0;
        assert(br.arms@.take(0) =~= Seq::<(u64, u64)>::empty());
        while j < br.arms.len()
            invariant
                j <= br.arms@.len(),
                idx <= u32::MAX,
                br.decision.0 < u32::MAX,
                block == idx as u32,
                line == (br.decision.0 + 1) as u32,
                bc == count_or_zero(count_at(or@, br.decision)),
                reached == (bc > 0),
                !(br.implicit_else && br.arms@.len() == 2),
                data.branch_view() == apply_branch_records(
                    bv0,
                    file@,
                    arm_events(or@, br.arms@.take(j as int), block, line, reached),
                ),
                data.line_view() == old(data).line_view(),
                data.fn_view() == old(data).fn_view(),
                data.stmt_view() == old(data).stmt_view(),
                old(data).wf() ==> data.wf(),
            decreases br.arms@.len() - j,
        {
            assert(br.arms@.take(j + 1).drop_last() =~= br.arms@.take(j as int));
            let ghost before = arm_events(or@, br.arms@.take(j as int), block, line, reached);
            if j <= u32::MAX as usize {
                let taken = count_or_zero_exec(count_at_exec(or, br.arms[j]));
                record_branch(data, file, block, j as u32, line, reached, taken);
                assert(before.push((block, j as u32, line, reached, taken)).drop_last() =~= before);
            }
            j += 1;
        }
        assert(br.arms@.take(br.arms@.len() as int) =~= br.arms@);
    }
}

/// Branch coverage of one script run: carry the covered ranges to original coordinates,
/// then record each decision arm's outcome for `file`. Without mapping data (or without
/// decision points) nothing is recorded.
pub fn map_branches(cov: &mut Coverage, file: &str, ranges: &[(usize, usize, i64)])
    requires
        coverage_wf(old(cov)),
    ensures
        coverage_wf(final(cov)),
        *final(cov) == (Coverage { data: final(cov).data, ..*old(cov) }),
        match meta_of(old(cov), file@) {
            None => final(cov).data == old(cov).data,
            Some(m) => {
                &&& final(cov).data.branch_view() == apply_branch_records(
                    old(cov).data.branch_view(),
                    file@,
                    branch_events(oranges_spec(m.line_start@, seg_views(&m), ranges@), m.branches@),
                )
                &&& final(cov).data.line_view() == old(cov).data.line_view()
                &&& final(cov).data.fn_view() == old(cov).data.fn_view()
                &&& final(cov).data.stmt_view() == old(cov).data.stmt_view()
            },
        },
{
    let idx = match crate::coverage::meta_index(cov, file) {
        Some(i) => i,
        None => return,
    };
    let meta = match &cov.meta[idx].1 {
        Some(m) => m,
        None => return,
    };
    assert(meta_wf(meta));
    let ghost bv0 = cov.data.branch_view();
    if meta.branches.len() == 0 {
        assert(branch_events(oranges_spec(meta.line_start@, seg_views(meta), ranges@), meta.branches@) =~= Seq::<BranchEvent>::empty());
        return;
    }
    let or = oranges_exec(meta, ranges);
    let mut bi: usize = 0;
    assert(meta.branches@.take(0) =~= Seq::<BranchCC>::empty());
    while bi < meta.branches.len()
        invariant
            bi <= meta.branches@.len(),
            *cov == (Coverage { data: cov.data, ..*old(cov) }),
            cov.data.wf(),
            cov.data.branch_view() == apply_branch_records(
                bv0,
                file@,
                branch_events(or@, meta.branches@.take(bi as int)),
            ),
            cov.data.line_view() == old(cov).data.line_view(),
            cov.data.fn_view() == old(cov).data.fn_view(),
            cov.data.stmt_view() == old(cov).data.stmt_view(),
        decreases meta.branches@.len() - bi,
    {
        assert(meta.branches@.take(bi + 1).drop_last() =~= meta.branches@.take(bi as int));
        let ghost before = branch_events(or@, meta.branches@.take(bi as int));
        record_block(&mut cov.data, file, &or, &meta.branches[bi], bi);
        proof {
            lemma_apply_branch_concat(
                bv0,
                file@,
                before,
                block_events(or@, meta.branches@[bi as int], bi as int),
            );
        }
        bi += 1;
    }
    assert(meta.branches@.take(meta.branches@.len() as int) =~= meta.branches@);
}

} // verus!

verus! {

/// A statement record: (statement index, line, count).
pub type StmtEvent = (u32, u32, u64);

/// Each statement's count is that of the innermost range containing its start.
pub open spec fn stmt_events(or: Seq<ORange>, stmts: Seq<(u64, u64)>) -> Seq<StmtEvent>
    decreases stmts.len(),
{
    if stmts.len() == 0 {
        Seq::empty()
    } else {
        let prev = stmt_events(or, stmts.drop_last());
        let idx = stmts.len() - 1;
        let p = stmts.last();
        if idx <= u32::MAX && p.0 < u32::MAX {
            prev.push((idx as u32, (p.0 + 1) as u32, count_or_zero(count_at(or, p))))
        } else {
            prev
        }
    }
}

pub open spec fn apply_stmt_records(
    m: Map<Seq<char>, Map<u32, (u32, u64)>>,
    f: Seq<char>,
    ev: Seq<StmtEvent>,
) -> Map<Seq<char>, Map<u32, (u32, u64)>>
    decreases ev.len(),
{
    if ev.len() == 0 {
        m
    } else {
        let e = ev.last();
        record_stmt_spec(apply_stmt_records(m, f, ev.drop_last()), f, e.0, e.1, e.2)
    }
}

/// Statement coverage of one script run: each executable statement's start is looked up
/// among the covered ranges carried to original coordinates. Without mapping data (or
/// without statements) nothing is recorded.
pub fn map_statements(cov: &mut Coverage, file: &str, ranges: &[(usize, usize, i64)])
    requires
        coverage_wf(old(cov)),
    ensures
        coverage_wf(final(cov)),
        *final(cov) == (Coverage { data: final(cov).data, ..*old(cov) }),
        match meta_of(old(cov), file@) {
            None => final(cov).data == old(cov).data,
            Some(m) => {
                &&& final(cov).data.stmt_view() == apply_stmt_records(
                    old(cov).data.stmt_view(),
                    file@,
                    stmt_events(oranges_spec(m.line_start@, seg_views(&m), ranges@), m.statements@),
                )
                &&& final(cov).data.line_view() == old(cov).data.line_view()
                &&& final(cov).data.fn_view() == old(cov).data.fn_view()
                &&& final(cov).data.branch_view() == old(cov).data.branch_view()
            },
        },
{
    let idx = match crate::coverage::meta_index(cov, file) {
        Some(i) => i,
        None => return,
    };
    let meta = match &cov.meta[idx].1 {
        Some(m) => m,
        None => return,
    };
    assert(meta_wf(meta));
    let ghost sv0 = cov.data.stmt_view();
    if meta.statements.len() == 0 {
        assert(stmt_events(oranges_spec(meta.line_start@, seg_views(meta), ranges@), meta.statements@) =~= Seq::<StmtEvent>::empty());
        return;
    }
    let or = oranges_exec(meta, ranges);
    let mut k: usize = 0;
    assert(meta.statements@.take(0) =~= Seq::<(u64, u64)>::empty());
    while k < meta.statements.len()
        invariant
            k <= meta.statements@.len(),
            *cov == (Coverage { data: cov.data, ..*old(cov) }),
            cov.data.wf(),
            cov.data.stmt_view() == apply_stmt_records(
                sv0,
                file@,
                stmt_events(or@, meta.statements@.take(k as int)),
            ),
            cov.data.line_view() == old(cov).data.line_view(),
            cov.data.fn_view() == old(cov).data.fn_view(),
            cov.data.branch_view() == old(cov).data.branch_view(),
        decreases meta.statements@.len() - k,
    {
        assert(meta.statements@.take(k + 1).drop_last() =~= meta.statements@.take(k as int));
        let ghost before = stmt_events(or@, meta.statements@.take(k as int));
        let p = meta.statements[k];
        if k <= u32::MAX as usize && p.0 < u32::MAX as u64 {
            let c = count_or_zero_exec(count_at_exec(&or, p));
            record_stmt(&mut cov.data, file, k as u32, (p.0 + 1) as u32, c);
            assert(before.push((k as u32, (p.0 + 1) as u32, c)).drop_last() =~= before);
        }
        k += 1;
    }
    assert(meta.statements@.take(meta.statements@.len() as int) =~= meta.statements@);
}

} // verus!

verus! {

/// One block range of a V8 coverage profile (fields the profile left out are `None`).
#[derive(Clone, Copy, PartialEq, Eq, Debug)]
pub struct RangeCov {
    pub start: Option<u64>,
    pub end: Option<u64>,
    pub count: Option<i64>,
}

/// One function of a script's profile: its name (empty for anonymous) and block ranges,
/// the first being its whole body.
pub struct FunctionCov {
    pub name: String,
    pub ranges: Vec<RangeCov>,
}

/// Whether a profiled script's URL is a source to report: a non-empty absolute path
/// outside `node_modules` whose file name is not a test or spec file.
pub open spec fn coverable_spec(url: Seq<char>) -> bool {
    let name = match crate::transform::file_name_spec(url) {
        Some(n) => n,
        None => Seq::empty(),
    };
    &&& url.len() > 0
    &&& url[0] == '/'
    &&& !crate::graph::is_node_modules_spec(url)
    &&& !crate::text::contains_seq(name, ".test."@)
    &&& !crate::text::contains_seq(name, ".spec."@)
}

pub fn coverable_url(url: &str) -> (b: bool)
    ensures
        b == coverable_spec(url@),
{
    let u = crate::text::chars_of(url);
    if u.len() == 0 || u[0] != '/' {
        return false;
    }
    if crate::graph::is_node_modules(url) {
        return false;
    }
    let name = match crate::transform::file_name(url) {
        Some(n) => n,
        None => Vec::new(),
    };
    proof {
        reveal_strlit(".test.");
        reveal_strlit(".spec.");
    }
    !crate::text::contains_chars(name.as_slice(), crate::text::chars_of(".test.").as_slice())
        && !crate::text::contains_chars(name.as_slice(), crate::text::chars_of(".spec.").as_slice())
}

/// A block range as plain values: (start, end, count).
pub open spec fn range_view(r: RangeCov) -> (Option<u64>, Option<u64>, Option<i64>) {
    (r.start, r.end, r.count)
}

/// A function as plain values: its name and its ranges.
pub open spec fn function_view(f: FunctionCov) -> (Seq<char>, Seq<(Option<u64>, Option<u64>, Option<i64>)>) {
    (f.name@, f.ranges@.map_values(|r: RangeCov| range_view(r)))
}

pub open spec fn functions_view(fs: Seq<FunctionCov>) -> Seq<(Seq<char>, Seq<(Option<u64>, Option<u64>, Option<i64>)>)> {
    fs.map_values(|f: FunctionCov| function_view(f))
}

/// The complete ranges of one function, in order.
pub open spec fn fn_ranges(rs: Seq<(Option<u64>, Option<u64>, Option<i64>)>) -> Seq<(usize, usize, i64)>
    decreases rs.len(),
{
    if rs.len() == 0 {
        Seq::empty()
    } else {
        let prev = fn_ranges(rs.drop_last());
        let r = rs.last();
        if r.0 is Some && r.1 is Some && r.2 is Some {
            prev.push((r.0->0 as usize, r.1->0 as usize, r.2->0))
        } else {
            prev
        }
    }
}

/// The ranges of all functions, in order.
pub open spec fn profile_ranges(fs: Seq<(Seq<char>, Seq<(Option<u64>, Option<u64>, Option<i64>)>)>) -> Seq<(usize, usize, i64)>
    decreases fs.len(),
{
    if fs.len() == 0 {
        Seq::empty()
    } else {
        profile_ranges(fs.drop_last()) + fn_ranges(fs.last().1)
    }
}

/// The call counts of the named functions: a function whose first range is complete
/// counts (name, start, count); anonymous ones (the module body) do not.
pub open spec fn profile_calls(fs: Seq<(Seq<char>, Seq<(Option<u64>, Option<u64>, Option<i64>)>)>) -> Seq<(Seq<char>, usize, i64)>
    decreases fs.len(),
{
    if fs.len() == 0 {
        Seq::empty()
    } else {
        let prev = profile_calls(fs.drop_last());
        let f = fs.last();
        if f.0.len() > 0 && f.1.len() > 0 && f.1[0].0 is Some && f.1[0].1 is Some && f.1[0].2 is Some {
            prev.push((f.0, f.1[0].0->0 as usize, f.1[0].2->0))
        } else {
            prev
        }
    }
}

pub open spec fn call_views(v: Seq<(String, usize, i64)>) -> Seq<(Seq<char>, usize, i64)> {
    v.map_values(|e: (String, usize, i64)| (e.0@, e.1, e.2))
}

/// A script profile's block ranges and its functions' call counts, as `map_script` takes them.
pub fn script_ranges(fs: &[FunctionCov]) -> (r: (Vec<(usize, usize, i64)>, Vec<(String, usize, i64)>))
    ensures
        r.0@ == profile_ranges(functions_view(fs@)),
        call_views(r.1@) == profile_calls(functions_view(fs@)),
{
    let ghost fv = functions_view(fs@);
    let mut ranges: Vec<(usize, usize, i64)> = Vec::new();
    let mut calls: Vec<(String, usize, i64)> = Vec::new();
    let mut i: usize = 0;
    assert(fv.take(0) =~= Seq::<(Seq<char>, Seq<(Option<u64>, Option<u64>, Option<i64>)>)>::empty());
    while i < fs.len()
        invariant
            i <= fs@.len(),
            fv == functions_view(fs@),
            ranges@ == profile_ranges(fv.take(i as int)),
            call_views(calls@) == profile_calls(fv.take(i as int)),
        decreases fs@.len() - i,
    {
        assert(fv.take(i + 1).drop_last() =~= fv.take(i as int));
        assert(fv.take(i + 1).last() == function_view(fs@[i as int]));
        let f = &fs[i];
        let ghost rv = f.ranges@.map_values(|r: RangeCov| range_view(r));
        let ghost before = ranges@;
        let mut k: usize = 0;
        assert(rv.take(0) =~= Seq::<(Option<u64>, Option<u64>, Option<i64>)>::empty());
        while k < f.ranges.len()
            invariant
                k <= f.ranges@.len(),
                rv == f.ranges@.map_values(|r: RangeCov| range_view(r)),
                ranges@ == before + fn_ranges(rv.take(k as int)),
                call_views(calls@) == profile_calls(fv.take(i as int)),
            decreases f.ranges@.len() - k,
        {
            assert(rv.take(k + 1).drop_last() =~= rv.take(k as int));
            assert(rv.take(k + 1).last() == range_view(f.ranges@[k as int]));
            let r = f.ranges[k];
            match (r.start, r.end, r.count) {
                (Some(a), Some(b), Some(c)) => {
                    ranges.push((#[verifier::truncate] (a as usize), #[verifier::truncate] (b as usize), c));
                    assert(ranges@ =~= before + fn_ranges(rv.take(k + 1)));
                },
                _ => {
                    assert(ranges@ =~= before + fn_ranges(rv.take(k + 1)));
                },
            }
            k += 1;
        }
        assert(rv.take(rv.len() as int) =~= rv);
        let named = crate::text::chars_of(f.name.as_str()).len() > 0;
        if named && f.ranges.len() > 0 {
            let r0 = f.ranges[0];
            assert(rv[0] == range_view(r0));
            match (r0.start, r0.end, r0.count) {
                (Some(a), Some(_), Some(c)) => {
                    let ghost cb = call_views(calls@);
                    calls.push((f.name.clone(), #[verifier::truncate] (a as usize), c));
                    assert(call_views(calls@) =~= cb.push((f.name@, #[verifier::truncate] (a as usize), c)));
                },
                _ => {},
            }
        }
        i += 1;
    }
    assert(fv.take(fs@.len() as int) =~= fv);
    (ranges, calls)
}

/// What serde_json yields for a V8 precise-coverage profile `json` (parsed into a `Value`):
/// for each entry of `result.result`, its `url` and, for each entry of its `functions`,
/// the `functionName` and each of its `ranges` as (`startOffset` as u64, `endOffset` as
/// u64, `count` as i64). `None` where the text is not JSON or has no `result.result` array.
pub uninterp spec fn v8_profile_scripts(json: Seq<char>) -> Option<Seq<(Seq<char>, Seq<(Seq<char>, Seq<(Option<u64>, Option<u64>, Option<i64>)>)>)>>;

pub open spec fn script_view(s: (String, Vec<FunctionCov>)) -> (Seq<char>, Seq<(Seq<char>, Seq<(Option<u64>, Option<u64>, Option<i64>)>)>) {
    (s.0@, functions_view(s.1@))
}

pub open spec fn scripts_view(ss: Seq<(String, Vec<FunctionCov>)>) -> Seq<(Seq<char>, Seq<(Seq<char>, Seq<(Option<u64>, Option<u64>, Option<i64>)>)>)> {
    ss.map_values(|s: (String, Vec<FunctionCov>)| script_view(s))
}

pub open spec fn profile_view(r: Option<Vec<(String, Vec<FunctionCov>)>>) -> Option<Seq<(Seq<char>, Seq<(Seq<char>, Seq<(Option<u64>, Option<u64>, Option<i64>)>)>)>> {
    match r {
        Some(v) => Some(scripts_view(v@)),
        None => None,
    }
}

/// serde_json `from_str::<Value>(json)`, then indexing (`v["result"]["result"]`, `s["url"]`,
/// ...; a missing member reads as `Null`) with `as_array`, `as_str`, `as_u64` and `as_i64`:
/// a missing or mistyped `url` or `functionName` reads as empty, missing `functions` or
/// `ranges` as none, a missing or mistyped offset or count as `None`. The contract names
/// the result.
#[verifier::external_body]
fn decode_profile(json: &str) -> (r: Option<Vec<(String, Vec<FunctionCov>)>>)
    ensures
        profile_view(r) == v8_profile_scripts(json@),
{
    let v: Value = serde_json::from_str(json).ok()?;
    let list = |x: &Value| x.as_array().cloned().unwrap_or_default().into_iter();
    let text = |x: &Value| x.as_str().unwrap_or_default().to_string();
    Some(v["result"]["result"].as_array()?.iter().map(|s| (
        text(&s["url"]),
        list(&s["functions"]).map(|f| FunctionCov {
            name: text(&f["functionName"]),
            ranges: list(&f["ranges"]).map(|r| RangeCov {
                start: r["startOffset"].as_u64(), end: r["endOffset"].as_u64(), count: r["count"].as_i64()
            }).collect()
        }).collect(),
    )).collect())
}

/// For each script of a decoded profile whose URL is coverable, in order: the URL, its
/// block ranges and its functions' call counts.
pub open spec fn coverable_profile(ss: Seq<(Seq<char>, Seq<(Seq<char>, Seq<(Option<u64>, Option<u64>, Option<i64>)>)>)>) -> Seq<(Seq<char>, Seq<(usize, usize, i64)>, Seq<(Seq<char>, usize, i64)>)>
    decreases ss.len(),
{
    if ss.len() == 0 {
        Seq::empty()
    } else {
        let prev = coverable_profile(ss.drop_last());
        let s = ss.last();
        if coverable_spec(s.0) {
            prev.push((s.0, profile_ranges(s.1), profile_calls(s.1)))
        } else {
            prev
        }
    }
}

pub open spec fn script_hits_view(v: Seq<(String, Vec<(usize, usize, i64)>, Vec<(String, usize, i64)>)>) -> Seq<(Seq<char>, Seq<(usize, usize, i64)>, Seq<(Seq<char>, usize, i64)>)> {
    v.map_values(|e: (String, Vec<(usize, usize, i64)>, Vec<(String, usize, i64)>)| (e.0@, e.1@, call_views(e.2@)))
}

/// The coverable scripts of a decoded profile with their ranges and call counts.
pub fn coverable_scripts(scripts: &[(String, Vec<FunctionCov>)]) -> (r: Vec<(String, Vec<(usize, usize, i64)>, Vec<(String, usize, i64)>)>)
    ensures
        script_hits_view(r@) == coverable_profile(scripts_view(scripts@)),
{
    let ghost sv = scripts_view(scripts@);
    let mut out: Vec<(String, Vec<(usize, usize, i64)>, Vec<(String, usize, i64)>)> = Vec::new();
    let mut i: usize = 0;
    assert(sv.take(0) =~= Seq::<(Seq<char>, Seq<(Seq<char>, Seq<(Option<u64>, Option<u64>, Option<i64>)>)>)>::empty());
    while i < scripts.len()
        invariant
            i <= scripts@.len(),
            sv == scripts_view(scripts@),
            script_hits_view(out@) == coverable_profile(sv.take(i as int)),
        decreases scripts@.len() - i,
    {
        assert(sv.take(i + 1).drop_last() =~= sv.take(i as int));
        assert(sv.take(i + 1).last() == script_view(scripts@[i as int]));
        let url = &scripts[i].0;
        if coverable_url(url.as_str()) {
            let (ranges, calls) = script_ranges(scripts[i].1.as_slice());
            let ghost before = script_hits_view(out@);
            out.push((url.clone(), ranges, calls));
            assert(script_hits_view(out@) =~= before.push((url@, ranges@, call_views(calls@))));
        }
        i += 1;
    }
    assert(sv.take(scripts@.len() as int) =~= sv);
    out
}

/// Decode a V8 precise-coverage profile and take its coverable scripts: `None` where
/// serde_json finds no `result.result` array in it.
pub fn profile_scripts(json: &str) -> (r: Option<Vec<(String, Vec<(usize, usize, i64)>, Vec<(String, usize, i64)>)>>)
    ensures
        match v8_profile_scripts(json@) {
            None => r is None,
            Some(ss) => r matches Some(v) && script_hits_view(v@) == coverable_profile(ss),
        },
{
    match decode_profile(json) {
        None => None,
        Some(scripts) => Some(coverable_scripts(scripts.as_slice())),
    }
}

} // verus!

