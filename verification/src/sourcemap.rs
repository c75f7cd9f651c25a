//! Source-map decoding: base64 VLQ segments, the `mappings` string of an inline source
//! map, and the position arithmetic that carries a generated offset back to an original
//! (line, column).

use vstd::prelude::*;

use crate::text::{chars_of, split_char, split_spec};

verus! {

/// `32^k`: the weight of the `k`-th base64 VLQ digit.
pub open spec fn p32(k: nat) -> nat
    decreases k,
{
    if k == 0 {
        1
    } else {
        32 * p32((k - 1) as nat)
    }
}

proof fn lemma_p32_mono(a: nat, b: nat)
    requires
        a <= b,
    ensures
        p32(a) <= p32(b),
        p32(b) > 0,
    decreases b,
{
    if b > 0 {
        let a2: nat = if a < b {
            a
        } else {
            (b - 1) as nat
        };
        lemma_p32_mono(a2, (b - 1) as nat);
    }
}

/// Index of `c` in the base64 alphabet `A-Z a-z 0-9 + /`, or -1.
pub open spec fn b64_val(c: char) -> int {
    if 'A' <= c && c <= 'Z' {
        (c as int) - ('A' as int)
    } else if 'a' <= c && c <= 'z' {
        (c as int) - ('a' as int) + 26
    } else if '0' <= c && c <= '9' {
        (c as int) - ('0' as int) + 52
    } else if c == '+' {
        62
    } else if c == '/' {
        63
    } else {
        -1
    }
}

fn b64_val_exec(c: char) -> (d: i64)
    ensures
        d == b64_val(c),
{
    if 'A' <= c && c <= 'Z' {
        (c as u32 - 'A' as u32) as i64
    } else if 'a' <= c && c <= 'z' {
        (c as u32 - 'a' as u32) as i64 + 26
    } else if '0' <= c && c <= '9' {
        (c as u32 - '0' as u32) as i64 + 52
    } else if c == '+' {
        62
    } else if c == '/' {
        63
    } else {
        -1
    }
}

/// Decoder state: values so far, digits of the pending value, its accumulated bits, and
/// whether every digit so far had a weight below `32^12` (so values stay within `i64`).
pub struct VlqState {
    pub out: Seq<int>,
    pub k: nat,
    pub acc: int,
    pub ok: bool,
}

/// One character of a VLQ segment. Characters outside the alphabet are skipped; a digit
/// with bit 32 set continues the current value, otherwise it ends it (low bit = sign).
pub open spec fn vlq_step(st: VlqState, c: char) -> VlqState {
    let d = b64_val(c);
    if !st.ok || d < 0 {
        st
    } else if st.k > 11 {
        VlqState { ok: false, ..st }
    } else if d >= 32 {
        VlqState { acc: st.acc + (d - 32) * p32(st.k), k: st.k + 1, ..st }
    } else {
        let a = st.acc + d * p32(st.k);
        VlqState {
            out: st.out.push(if a % 2 == 1 { -(a / 2) } else { a / 2 }),
            k: 0,
            acc: 0,
            ok: true,
        }
    }
}

pub open spec fn vlq_fold(s: Seq<char>) -> VlqState
    decreases s.len(),
{
    if s.len() == 0 {
        VlqState { out: Seq::empty(), k: 0, acc: 0, ok: true }
    } else {
        vlq_step(vlq_fold(s.drop_last()), s.last())
    }
}

/// The values a VLQ segment decodes to; `None` when a value has more than twelve digits.
pub open spec fn vlq_spec(s: Seq<char>) -> Option<Seq<int>> {
    let st = vlq_fold(s);
    if st.ok {
        Some(st.out)
    } else {
        None
    }
}

/// Decode one base64 VLQ segment into signed values.
pub fn vlq_decode(seg: &[char]) -> (r: Option<Vec<i64>>)
    ensures
        match vlq_spec(seg@) {
            Some(vals) => r matches Some(v) && v@.len() == vals.len() && forall|i: int|
                0 <= i < vals.len() ==> v@[i] as int == vals[i],
            None => r is None,
        },
{
    let mut out: Vec<i64> = Vec::new();
    let mut k: u64 = 0;
    let mut acc: i64 = 0;
    let mut mult: i64 = 1;
    let mut i: usize = 0;
    while i < seg.len()
        invariant
            i <= seg.len(),
            vlq_fold(seg@.take(i as int)).ok,
            vlq_fold(seg@.take(i as int)).k == k,
            vlq_fold(seg@.take(i as int)).acc == acc,
            k <= 12,
            mult == p32(k as nat),
            0 <= acc < mult,
            out@.len() == vlq_fold(seg@.take(i as int)).out.len(),
            forall|j: int|
                0 <= j < out@.len() ==> out@[j] as int == vlq_fold(seg@.take(i as int)).out[j],
        decreases seg.len() - i,
    {
        proof {
            assert(seg@.take(i + 1).drop_last() =~= seg@.take(i as int));
            assert(seg@.take(i + 1).last() == seg@[i as int]);
            if k <= 11 {
                lemma_p32_mono(k as nat, 11);
            }
            lemma_p32_values();
        }
        let d = b64_val_exec(seg[i]);
        if d >= 0 {
            if k > 11 {
                proof {
                    assert(!vlq_fold(seg@.take(i + 1)).ok);
                    lemma_not_ok_stays(seg@, i + 1);
                    assert(seg@.take(seg.len() as int) =~= seg@);
                }
                return None;
            }
            if d >= 32 {
                assert((d - 32) * mult <= 31 * mult) by (nonlinear_arith)
                    requires
                        d - 32 <= 31,
                        mult > 0,
                ;
                acc = acc + (d - 32) * mult;
                mult = mult * 32;
                k = k + 1;
            } else {
                assert(d * mult <= 31 * mult) by (nonlinear_arith)
                    requires
                        d <= 31,
                        mult > 0,
                        d >= 0,
                ;
                let a = acc + d * mult;
                let v = if a % 2 == 1 {
                    -(a / 2)
                } else {
                    a / 2
                };
                out.push(v);
                acc = 0;
                mult = 1;
                k = 0;
            }
        }
        i += 1;
    }
    proof {
        assert(seg@.take(seg.len() as int) =~= seg@);
    }
    Some(out)
}

proof fn lemma_p32_values()
    ensures
        p32(11) == 36028797018963968,
        p32(12) == 1152921504606846976,
{
    reveal_with_fuel(p32, 13);
}

/// Once a segment's decoding has failed, it stays failed.
proof fn lemma_not_ok_stays(s: Seq<char>, i: int)
    requires
        0 <= i <= s.len(),
        !vlq_fold(s.take(i)).ok,
    ensures
        !vlq_fold(s).ok,
    decreases s.len() - i,
{
    if i < s.len() {
        assert(s.take(i + 1).drop_last() =~= s.take(i));
        lemma_not_ok_stays(s, i + 1);
    } else {
        assert(s.take(i) =~= s);
    }
}

} // verus!

verus! {

pub open spec fn in_i64(x: int) -> bool {
    i64::MIN <= x <= i64::MAX
}

/// Per generated line: the generated column (reset each line), the cumulative source
/// index/line/column, the segments mapped so far, the first source line seen, and whether
/// every running value stayed within `i64`.
pub struct LineState {
    pub gen_col: int,
    pub src_idx: int,
    pub src_line: int,
    pub src_col: int,
    pub row: Seq<(u32, u32, u32)>,
    pub first: Option<int>,
    pub ok: bool,
}

/// One `,`-separated segment of a generated line.
pub open spec fn seg_step(st: LineState, seg: Seq<char>) -> LineState {
    if !st.ok || seg.len() == 0 {
        st
    } else {
        match vlq_spec(seg) {
            None => LineState { ok: false, ..st },
            Some(vals) => {
                if vals.len() == 0 {
                    st
                } else {
                    let g = st.gen_col + vals[0];
                    if !in_i64(g) {
                        LineState { ok: false, ..st }
                    } else if vals.len() >= 4 {
                        let i = st.src_idx + vals[1];
                        let l = st.src_line + vals[2];
                        let c = st.src_col + vals[3];
                        if !(in_i64(i) && in_i64(l) && in_i64(c)) {
                            LineState { ok: false, ..st }
                        } else {
                            LineState {
                                gen_col: g,
                                src_idx: i,
                                src_line: l,
                                src_col: c,
                                row: if l >= 0 && c >= 0 && g >= 0 {
                                    st.row.push((g as u32, l as u32, c as u32))
                                } else {
                                    st.row
                                },
                                first: if st.first is None && l >= 0 {
                                    Some(l)
                                } else {
                                    st.first
                                },
                                ok: true,
                            }
                        }
                    } else {
                        LineState { gen_col: g, ..st }
                    }
                }
            },
        }
    }
}

pub open spec fn line_fold(st: LineState, segs: Seq<Seq<char>>) -> LineState
    decreases segs.len(),
{
    if segs.len() == 0 {
        st
    } else {
        seg_step(line_fold(st, segs.drop_last()), segs.last())
    }
}

/// Whole-mapping state: cumulative source position, the first source line of each
/// generated line (`None` when it has no mapped segment), and each line's segments.
pub struct MapState {
    pub src_idx: int,
    pub src_line: int,
    pub src_col: int,
    pub genmap: Seq<Option<u32>>,
    pub segs: Seq<Seq<(u32, u32, u32)>>,
    pub ok: bool,
}

pub open spec fn line_start_state(ms: MapState) -> LineState {
    LineState {
        gen_col: 0,
        src_idx: ms.src_idx,
        src_line: ms.src_line,
        src_col: ms.src_col,
        row: Seq::empty(),
        first: None,
        ok: ms.ok,
    }
}

/// One `;`-separated generated line.
pub open spec fn line_step(ms: MapState, line: Seq<char>) -> MapState {
    let ls = line_fold(line_start_state(ms), split_spec(line, ','));
    MapState {
        src_idx: ls.src_idx,
        src_line: ls.src_line,
        src_col: ls.src_col,
        genmap: ms.genmap.push(
            match ls.first {
                Some(f) => Some(f as u32),
                None => None,
            },
        ),
        segs: ms.segs.push(ls.row),
        ok: ls.ok,
    }
}

pub open spec fn map_fold(lines: Seq<Seq<char>>) -> MapState
    decreases lines.len(),
{
    if lines.len() == 0 {
        MapState {
            src_idx: 0,
            src_line: 0,
            src_col: 0,
            genmap: Seq::empty(),
            segs: Seq::empty(),
            ok: true,
        }
    } else {
        line_step(map_fold(lines.drop_last()), lines.last())
    }
}

/// The decoded `mappings` string, when every value fits in `i64` and line numbers fit in
/// `u32`.
pub open spec fn mappings_spec(m: Seq<char>) -> Option<MapState> {
    let lines = split_spec(m, ';');
    let ms = map_fold(lines);
    if ms.ok && lines.len() <= u32::MAX {
        Some(ms)
    } else {
        None
    }
}

proof fn lemma_line_fold_not_ok(st: LineState, segs: Seq<Seq<char>>)
    requires
        !st.ok,
    ensures
        line_fold(st, segs) == st,
    decreases segs.len(),
{
    if segs.len() > 0 {
        lemma_line_fold_not_ok(st, segs.drop_last());
    }
}

proof fn lemma_line_fold_stays_bad(st: LineState, segs: Seq<Seq<char>>, j: int)
    requires
        0 <= j <= segs.len(),
        !line_fold(st, segs.take(j)).ok,
    ensures
        !line_fold(st, segs).ok,
    decreases segs.len() - j,
{
    if j < segs.len() {
        assert(segs.take(j + 1).drop_last() =~= segs.take(j));
        lemma_line_fold_stays_bad(st, segs, j + 1);
    } else {
        assert(segs.take(j) =~= segs);
    }
}

proof fn lemma_map_fold_stays_bad(lines: Seq<Seq<char>>, j: int)
    requires
        0 <= j <= lines.len(),
        !map_fold(lines.take(j)).ok,
    ensures
        !map_fold(lines).ok,
    decreases lines.len() - j,
{
    if j < lines.len() {
        assert(lines.take(j + 1).drop_last() =~= lines.take(j));
        let ms = map_fold(lines.take(j));
        lemma_line_fold_not_ok(line_start_state(ms), split_spec(lines[j], ','));
        lemma_map_fold_stays_bad(lines, j + 1);
    } else {
        assert(lines.take(j) =~= lines);
    }
}

/// Decoded mapping tables: `genmap[g]` is the source line of generated line `g`'s first
/// mapped segment (line coverage); `segments[g]` lists `(gen_col, src_line, src_col)`.
pub struct SourceMapData {
    pub genmap: Vec<Option<u32>>,
    pub segments: Vec<Vec<(u32, u32, u32)>>,
}

impl SourceMapData {
    pub open spec fn matches(&self, ms: MapState) -> bool {
        &&& self.genmap@ == ms.genmap
        &&& self.segments@.len() == ms.segs.len()
        &&& forall|i: int| 0 <= i < ms.segs.len() ==> #[trigger] self.segments@[i]@ == ms.segs[i]
    }
}

/// Decode a source map `mappings` string (`None` when a value would overflow `i64`).
pub fn parse_mappings_full(mappings: &str) -> (r: Option<SourceMapData>)
    ensures
        match mappings_spec(mappings@) {
            Some(ms) => r matches Some(d) && d.matches(ms),
            None => r is None,
        },
{
    let m = chars_of(mappings);
    let lines = split_char(m.as_slice(), ';');
    let ghost sl = split_spec(m@, ';');
    if lines.len() > u32::MAX as usize {
        return None;
    }
    let mut genmap: Vec<Option<u32>> = Vec::new();
    let mut segments: Vec<Vec<(u32, u32, u32)>> = Vec::new();
    let mut src_idx: i64 = 0;
    let mut src_line: i64 = 0;
    let mut src_col: i64 = 0;
    let mut li: usize = 0;
    while li < lines.len()
        invariant
            li <= lines@.len(),
            lines@.len() == sl.len(),
            sl == split_spec(mappings@, ';'),
            forall|k: int| 0 <= k < lines@.len() ==> #[trigger] lines@[k]@ == sl[k],
            map_fold(sl.take(li as int)).ok,
            map_fold(sl.take(li as int)).src_idx == src_idx,
            map_fold(sl.take(li as int)).src_line == src_line,
            map_fold(sl.take(li as int)).src_col == src_col,
            genmap@ == map_fold(sl.take(li as int)).genmap,
            segments@.len() == map_fold(sl.take(li as int)).segs.len(),
            forall|k: int|
                0 <= k < segments@.len() ==> #[trigger] segments@[k]@ == map_fold(
                    sl.take(li as int),
                ).segs[k],
        decreases lines@.len() - li,
    {
        let ghost ms = map_fold(sl.take(li as int));
        proof {
            assert(sl.take(li + 1).drop_last() =~= sl.take(li as int));
        }
        let segs = split_char(lines[li].as_slice(), ',');
        let ghost ss = split_spec(sl[li as int], ',');
        let ghost st0 = line_start_state(ms);
        let mut gen_col: i64 = 0;
        let mut row: Vec<(u32, u32, u32)> = Vec::new();
        let mut first: Option<i64> = None;
        let mut j: usize = 0;
        assert(ss.take(0) =~= Seq::<Seq<char>>::empty());
        while j < segs.len()
            invariant
                j <= segs@.len(),
                segs@.len() == ss.len(),
                forall|k: int| 0 <= k < segs@.len() ==> #[trigger] segs@[k]@ == ss[k],
                li < sl.len(),
                sl == split_spec(mappings@, ';'),
                ss == split_spec(sl[li as int], ','),
                ms == map_fold(sl.take(li as int)),
                st0 == line_start_state(ms),
                st0.ok,
                line_fold(st0, ss.take(j as int)).ok,
                line_fold(st0, ss.take(j as int)).gen_col == gen_col,
                line_fold(st0, ss.take(j as int)).src_idx == src_idx,
                line_fold(st0, ss.take(j as int)).src_line == src_line,
                line_fold(st0, ss.take(j as int)).src_col == src_col,
                line_fold(st0, ss.take(j as int)).row == row@,
                line_fold(st0, ss.take(j as int)).first == (match first {
                    Some(f) => Some(f as int),
                    None => None::<int>,
                }),
            decreases segs@.len() - j,
        {
            proof {
                assert(ss.take(j + 1).drop_last() =~= ss.take(j as int));
            }
            let seg = &segs[j];
            if seg.len() > 0 {
                match vlq_decode(seg.as_slice()) {
                    None => {
                        proof {
                            assert(ss.take(j + 1).last() == ss[j as int]);
                            assert(!line_fold(st0, ss.take(j + 1)).ok);
                            lemma_line_fold_stays_bad(st0, ss, j + 1);
                            assert(sl.take(li + 1).last() == sl[li as int]);
                            assert(sl.take(li + 1).drop_last() =~= sl.take(li as int));
                            assert(!map_fold(sl.take(li + 1)).ok);
                            lemma_map_fold_stays_bad(sl, li + 1);
                        }
                        return None;
                    },
                    Some(vals) => {
                        if vals.len() > 0 {
                            let g = gen_col.checked_add(vals[0]);
                            let (ok, ni, nl, nc) = if vals.len() >= 4 {
                                let i2 = src_idx.checked_add(vals[1]);
                                let l2 = src_line.checked_add(vals[2]);
                                let c2 = src_col.checked_add(vals[3]);
                                match (i2, l2, c2) {
                                    (Some(a), Some(b), Some(c)) => (true, a, b, c),
                                    _ => (false, 0, 0, 0),
                                }
                            } else {
                                (true, src_idx, src_line, src_col)
                            };
                            match g {
                                Some(gv) if ok => {
                                    gen_col = gv;
                                    if vals.len() >= 4 {
                                        src_idx = ni;
                                        src_line = nl;
                                        src_col = nc;
                                        if src_line >= 0 && src_col >= 0 && gen_col >= 0 {
                                            row.push((gen_col as u32, src_line as u32, src_col as u32));
                                        }
                                        if first.is_none() && src_line >= 0 {
                                            first = Some(src_line);
                                        }
                                    }
                                },
                                _ => {
                                    proof {
                                        assert(ss.take(j + 1).last() == ss[j as int]);
                                        assert(!line_fold(st0, ss.take(j + 1)).ok);
                                        lemma_line_fold_stays_bad(st0, ss, j + 1);
                                        assert(sl.take(li + 1).last() == sl[li as int]);
                            assert(sl.take(li + 1).drop_last() =~= sl.take(li as int));
                                        assert(!map_fold(sl.take(li + 1)).ok);
                                        lemma_map_fold_stays_bad(sl, li + 1);
                                    }
                                    return None;
                                },
                            }
                        }
                    },
                }
            }
            j += 1;
        }
        proof {
            assert(ss.take(segs@.len() as int) =~= ss);
        }
        genmap.push(
            match first {
                Some(f) => Some(f as u32),
                None => None,
            },
        );
        segments.push(row);
        li += 1;
    }
    proof {
        assert(sl.take(lines@.len() as int) =~= sl);
    }
    Some(SourceMapData { genmap, segments })
}

} // verus!
