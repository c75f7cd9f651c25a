//! Per-source-file static map data used to carry V8's covered ranges (offsets into the
//! wrapped compiled module, in UTF-16 units) back to original source positions.

use vstd::prelude::*;

use crate::sourcemap::SourceMapData;

verus! {

/// A branch decision in original (line, column) coordinates, with the start of each arm.
/// `implicit_else` marks an `if` without `else`: its second "arm" is the end of the `if`.
pub struct BranchCC {
    pub decision: (u64, u64),
    pub arms: Vec<(u64, u64)>,
    pub implicit_else: bool,
}

/// What a source file's coverage mapping needs, built once per file.
pub struct ScriptMeta {
    /// UTF-16 offsets at which the lines of the WRAPPED compiled source start.
    pub line_start: Vec<usize>,
    /// The decoded inline source map of the transformed code.
    pub map: SourceMapData,
    /// Decision points (original coordinates).
    pub branches: Vec<BranchCC>,
    /// Starts of executable statements (original coordinates).
    pub statements: Vec<(u64, u64)>,
}

/// Number of UTF-16 code units of a character.
pub open spec fn utf16_len(c: char) -> int {
    if (c as u32) < 0x10000 {
        1
    } else {
        2
    }
}

/// Number of UTF-8 bytes of a character.
pub open spec fn utf8_len(c: char) -> int {
    if (c as u32) < 0x80 {
        1
    } else if (c as u32) < 0x800 {
        2
    } else if (c as u32) < 0x10000 {
        3
    } else {
        4
    }
}

pub open spec fn utf16_len_seq(s: Seq<char>) -> int
    decreases s.len(),
{
    if s.len() == 0 {
        0
    } else {
        utf16_len_seq(s.drop_last()) + utf16_len(s.last())
    }
}

proof fn lemma_utf16_len_bound(s: Seq<char>)
    ensures
        s.len() <= utf16_len_seq(s) <= 2 * s.len(),
    decreases s.len(),
{
    if s.len() > 0 {
        lemma_utf16_len_bound(s.drop_last());
    }
}

/// UTF-16 offsets of the line starts of `s`: 0, then one past each `\n`.
pub open spec fn line_starts_spec(s: Seq<char>) -> Seq<int>
    decreases s.len(),
{
    if s.len() == 0 {
        seq![0]
    } else if s.last() == '\n' {
        line_starts_spec(s.drop_last()).push(utf16_len_seq(s.drop_last()) + 1)
    } else {
        line_starts_spec(s.drop_last())
    }
}

pub open spec fn strictly_sorted(v: Seq<usize>) -> bool {
    forall|i: int, j: int| 0 <= i < j < v.len() ==> v[i] < v[j]
}

fn utf16_len_exec(c: char) -> (n: usize)
    ensures
        n == utf16_len(c),
{
    if (c as u32) < 0x10000 {
        1
    } else {
        2
    }
}

/// Line-start table of `s` (UTF-16 offsets), strictly increasing from 0.
pub fn line_starts(s: &[char]) -> (r: Vec<usize>)
    requires
        s@.len() <= usize::MAX / 2,
    ensures
        r@.len() == line_starts_spec(s@).len(),
        forall|i: int| 0 <= i < r@.len() ==> r@[i] == line_starts_spec(s@)[i],
        strictly_sorted(r@),
        r@.len() > 0,
        r@[0] == 0,
{
    let mut r: Vec<usize> = vec![0];
    let mut pos: usize = 0;
    let mut i: usize = 0;
    assert(s@.take(0) =~= Seq::<char>::empty());
    while i < s.len()
        invariant
            i <= s@.len() <= usize::MAX / 2,
            pos == utf16_len_seq(s@.take(i as int)),
            r@.len() == line_starts_spec(s@.take(i as int)).len(),
            forall|k: int| 0 <= k < r@.len() ==> r@[k] == line_starts_spec(s@.take(i as int))[k],
            strictly_sorted(r@),
            r@.len() > 0,
            r@[0] == 0,
            r@.last() <= pos,
        decreases s@.len() - i,
    {
        proof {
            assert(s@.take(i + 1).drop_last() =~= s@.take(i as int));
            assert(s@.take(i + 1).last() == s@[i as int]);
            lemma_utf16_len_bound(s@.take(i + 1));
        }
        let c = s[i];
        if c == '\n' {
            r.push(pos + 1);
        }
        pos = pos + utf16_len_exec(c);
        i += 1;
    }
    assert(s@.take(s@.len() as int) =~= s@);
    r
}

/// How many entries of `v` are `<= off`.
pub open spec fn count_le(v: Seq<usize>, off: int) -> int
    decreases v.len(),
{
    if v.len() == 0 {
        0
    } else {
        count_le(v.drop_last(), off) + if v.last() <= off {
            1int
        } else {
            0int
        }
    }
}

proof fn lemma_count_le_split(v: Seq<usize>, off: int, k: int)
    requires
        0 <= k <= v.len(),
        forall|i: int| 0 <= i < k ==> v[i] <= off,
        forall|i: int| k <= i < v.len() ==> v[i] > off,
    ensures
        count_le(v, off) == k,
    decreases v.len(),
{
    if v.len() > 0 {
        if k == v.len() {
            lemma_count_le_split(v.drop_last(), off, k - 1);
        } else {
            lemma_count_le_split(v.drop_last(), off, k);
        }
    }
}

/// `v.partition_point(|&s| s <= off)` on a strictly increasing `v`.
pub fn partition_le(v: &Vec<usize>, off: usize) -> (k: usize)
    requires
        strictly_sorted(v@),
    ensures
        k == count_le(v@, off as int),
        k <= v@.len(),
{
    let mut lo: usize = 0;
    let mut hi: usize = v.len();
    while lo < hi
        invariant
            0 <= lo <= hi <= v@.len(),
            strictly_sorted(v@),
            forall|i: int| 0 <= i < lo ==> v@[i] <= off,
            forall|i: int| hi <= i < v@.len() ==> v@[i] > off,
        decreases hi - lo,
    {
        let mid = lo + (hi - lo) / 2;
        if v[mid] <= off {
            lo = mid + 1;
        } else {
            hi = mid;
        }
    }
    proof {
        lemma_count_le_split(v@, off as int, lo as int);
    }
    lo
}

/// The wrapped line index of an offset: the last line starting at or before it.
pub open spec fn line_of(ls: Seq<usize>, off: int) -> int {
    if count_le(ls, off) == 0 {
        0
    } else {
        count_le(ls, off) - 1
    }
}

/// Original source line (1-based) of a wrapped offset: wrapped line `li` (`li >= 1`, line 0
/// being the module wrapper) is generated line `li - 1`, whose first mapped segment names
/// the source line.
pub open spec fn off_to_src_spec(meta_ls: Seq<usize>, genmap: Seq<Option<u32>>, off: int) -> Option<
    int,
> {
    let li = line_of(meta_ls, off);
    if li == 0 || li - 1 >= genmap.len() {
        None
    } else {
        match genmap[li - 1] {
            Some(sl) => Some(sl + 1),
            None => None,
        }
    }
}

pub fn off_to_src(meta: &ScriptMeta, off: usize) -> (r: Option<u64>)
    requires
        strictly_sorted(meta.line_start@),
    ensures
        r == (match off_to_src_spec(meta.line_start@, meta.map.genmap@, off as int) {
            Some(x) => Some(x as u64),
            None => None::<u64>,
        }),
{
    let k = partition_le(&meta.line_start, off);
    let li = if k == 0 {
        0
    } else {
        k - 1
    };
    if li == 0 || li - 1 >= meta.map.genmap.len() {
        return None;
    }
    match meta.map.genmap[li - 1] {
        Some(sl) => Some(sl as u64 + 1),
        None => None,
    }
}

/// The segment covering generated column `gc`: the last of the leading run of segments
/// whose column is `<= gc`.
pub open spec fn chosen_seg(segs: Seq<(u32, u32, u32)>, gc: int) -> Option<(u32, u32, u32)>
    decreases segs.len(),
{
    if segs.len() == 0 || segs[0].0 > gc {
        None
    } else {
        match chosen_seg(segs.drop_first(), gc) {
            Some(s) => Some(s),
            None => Some(segs[0]),
        }
    }
}

/// Original (line, column), both 0-based, of a wrapped generated offset; within a segment
/// the column offset carries over one to one.
pub open spec fn gen_to_orig_spec(
    ls: Seq<usize>,
    segments: Seq<Seq<(u32, u32, u32)>>,
    off: int,
) -> Option<(int, int)> {
    let idx = count_le(ls, off);
    if idx == 0 || idx - 1 == 0 || idx - 1 - 1 >= segments.len() {
        None
    } else {
        let li = idx - 1;
        let gc = ((off - ls[li]) as u32) as int;
        match chosen_seg(segments[li - 1], gc) {
            Some(s) => Some((s.1 as int, s.2 + (gc - s.0))),
            None => None,
        }
    }
}

pub open spec fn opt_pair(o: Option<(int, int)>) -> Option<(u64, u64)> {
    match o {
        Some(p) => Some((p.0 as u64, p.1 as u64)),
        None => None,
    }
}

pub open spec fn meta_wf(meta: &ScriptMeta) -> bool {
    &&& strictly_sorted(meta.line_start@)
    &&& meta.line_start@.len() > 0
    &&& meta.line_start@[0] == 0
}

/// Generated (wrapped) offset -> original (line, column).
pub fn gen_to_orig(meta: &ScriptMeta, off: usize) -> (r: Option<(u64, u64)>)
    requires
        meta_wf(meta),
    ensures
        r == opt_pair(gen_to_orig_spec(meta.line_start@, meta.map.segments@.map_values(|v: Vec<(u32, u32, u32)>| v@), off as int)),
{
    let ghost segs = meta.map.segments@.map_values(|v: Vec<(u32, u32, u32)>| v@);
    let idx = partition_le(&meta.line_start, off);
    if idx == 0 {
        return None;
    }
    let li = idx - 1;
    if li == 0 {
        return None;
    }
    if li - 1 >= meta.map.segments.len() {
        return None;
    }
    proof {
        lemma_count_le_split_inv(meta.line_start@, off as int);
    }
    let gen_col: u32 = (off - meta.line_start[li]) as u32;
    let row = &meta.map.segments[li - 1];
    assert(row@ == segs[li - 1]);
    let mut chosen: Option<(u32, u32, u32)> = None;
    let mut j: usize = 0;
    while j < row.len()
        invariant
            j <= row@.len(),
            forall|q: int| 0 <= q < j ==> row@[q].0 <= gen_col,
            j > 0 ==> chosen == Some(row@[j - 1]),
            j == 0 ==> chosen is None,
        ensures
            j <= row@.len(),
            forall|q: int| 0 <= q < j ==> row@[q].0 <= gen_col,
            j > 0 ==> chosen == Some(row@[j - 1]),
            j == 0 ==> chosen is None,
            j < row@.len() ==> row@[j as int].0 > gen_col,
        decreases row@.len() - j,
    {
        if row[j].0 > gen_col {
            break;
        }
        chosen = Some(row[j]);
        j += 1;
    }
    proof {
        lemma_chosen_seg(row@, gen_col as int, j as int);
    }
    match chosen {
        Some(s) => Some((s.1 as u64, s.2 as u64 + (gen_col as u64 - s.0 as u64))),
        None => None,
    }
}

/// `chosen_seg` is the last segment before the first one past `gc`.
proof fn lemma_chosen_seg(segs: Seq<(u32, u32, u32)>, gc: int, k: int)
    requires
        0 <= k <= segs.len(),
        forall|q: int| 0 <= q < k ==> segs[q].0 <= gc,
        k < segs.len() ==> segs[k].0 > gc,
    ensures
        chosen_seg(segs, gc) == (if k == 0 {
            None
        } else {
            Some(segs[k - 1])
        }),
    decreases segs.len(),
{
    if segs.len() > 0 && k > 0 {
        let rest = segs.drop_first();
        assert forall|q: int| 0 <= q < k - 1 implies rest[q].0 <= gc by {
            assert(rest[q] == segs[q + 1]);
        }
        if k - 1 < rest.len() {
            assert(rest[k - 1] == segs[k]);
        }
        lemma_chosen_seg(rest, gc, k - 1);
        if k > 1 {
            assert(rest[k - 2] == segs[k - 1]);
        }
    }
}

/// What `partition_le` reveals about the count.
proof fn lemma_count_le_split_inv(v: Seq<usize>, off: int)
    requires
        strictly_sorted(v),
    ensures
        0 <= count_le(v, off) <= v.len(),
        forall|i: int| 0 <= i < count_le(v, off) ==> v[i] <= off,
        forall|i: int| count_le(v, off) <= i < v.len() ==> v[i] > off,
    decreases v.len(),
{
    if v.len() > 0 {
        let w = v.drop_last();
        assert(strictly_sorted(w)) by {
            assert forall|i: int, j: int| 0 <= i < j < w.len() implies w[i] < w[j] by {
                assert(w[i] == v[i] && w[j] == v[j]);
            }
        }
        lemma_count_le_split_inv(w, off);
        let k = count_le(w, off);
        if v.last() <= off {
            assert forall|i: int| 0 <= i < v.len() - 1 implies v[i] <= off by {
                assert(v[i] < v[v.len() - 1]);
            }
            assert(k == w.len()) by {
                if k < w.len() {
                    assert(w[k] > off);
                    assert(w[k] == v[k]);
                    assert(v[k] < v[v.len() - 1]);
                }
            }
        } else {
            assert forall|i: int| 0 <= i < k implies v[i] <= off by {
                assert(w[i] == v[i]);
            }
            assert forall|i: int| k <= i < v.len() implies v[i] > off by {
                if i < v.len() - 1 {
                    assert(w[i] == v[i]);
                }
            }
        }
    }
}

} // verus!
