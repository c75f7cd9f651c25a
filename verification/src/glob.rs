//! vitest-style glob matching against a cwd-relative POSIX path: `**` spans path
//! separators, `*` and `?` do not, and `{a,b}` alternation is expanded first.

use vstd::prelude::*;

use crate::text::{
    chars_of, find_at, find_from, lemma_find_from, lemma_split_pieces_shorter, slice_range, slice_take,
    split_char, split_spec,
};

verus! {

pub open spec fn all_stars(p: Seq<char>) -> bool {
    forall|i: int| 0 <= i < p.len() ==> p[i] == '*'
}

/// What follows a leading `**` (and one optional `/` after it).
pub open spec fn after_double_star(p: Seq<char>) -> Seq<char> {
    if p.len() > 2 && p[2] == '/' {
        p.skip(3)
    } else {
        p.skip(2)
    }
}

/// Brace-free glob `p` matches `s`. An exhausted path is matched only by a pattern made of
/// stars; `**/` stands for zero or more whole path segments (what follows it matches where a
/// segment starts: here, or just after a `/`), a `**` not followed by `/` matches any run of
/// characters (separators included), `*` any run without a `/`, `?` one character other
/// than `/`, and anything else itself.
pub open spec fn glob_spec(p: Seq<char>, s: Seq<char>) -> bool
    decreases p.len(), s.len(), 0int,
{
    if s.len() == 0 {
        all_stars(p)
    } else if p.len() == 0 {
        false
    } else if p[0] == '*' && p.len() > 1 && p[1] == '*' {
        let r = after_double_star(p);
        if p.len() > 2 && p[2] == '/' {
            r.len() == 0 || glob_segments(r, s, true)
        } else {
            r.len() == 0 || glob_suffix(r, s)
        }
    } else if p[0] == '*' {
        glob_spec(p.drop_first(), s) || (s[0] != '/' && glob_spec(p, s.drop_first()))
    } else if p[0] == '?' {
        s[0] != '/' && glob_spec(p.drop_first(), s.drop_first())
    } else {
        p[0] == s[0] && glob_spec(p.drop_first(), s.drop_first())
    }
}

/// `r` matches some suffix of `s` (the empty suffix included).
pub open spec fn glob_suffix(r: Seq<char>, s: Seq<char>) -> bool
    decreases r.len(), s.len(), 1int,
{
    glob_spec(r, s) || (s.len() > 0 && glob_suffix(r, s.drop_first()))
}

/// `r` matches a suffix of `s` that starts a path segment: `s` itself when `at_start`, or
/// what follows any `/` of `s`.
pub open spec fn glob_segments(r: Seq<char>, s: Seq<char>, at_start: bool) -> bool
    decreases r.len(), s.len(), 1int,
{
    (at_start && glob_spec(r, s)) || (s.len() > 0 && glob_segments(r, s.drop_first(), s[0] == '/'))
}

/// Match the brace-free pattern `pat[pi..]` against `path[si..]`.
#[verifier::loop_isolation(false)]
fn simple_match(pat: &[char], path: &[char], pi: usize, si: usize) -> (b: bool)
    requires
        pi <= pat.len(),
        si <= path.len(),
    ensures
        b == glob_spec(pat@.skip(pi as int), path@.skip(si as int)),
    decreases pat.len() - pi, path.len() - si,
{
    let ghost p = pat@.skip(pi as int);
    let ghost s = path@.skip(si as int);
    proof {
        if pi < pat.len() {
            assert(p.drop_first() =~= pat@.skip(pi + 1));
        }
        if si < path.len() {
            assert(s.drop_first() =~= path@.skip(si + 1));
        }
    }
    if si == path.len() {
        let mut k = pi;
        while k < pat.len()
            invariant
                pi <= k <= pat.len(),
                p == pat@.skip(pi as int),
                forall|j: int| pi <= j < k ==> pat@[j] == '*',
            decreases pat.len() - k,
        {
            if pat[k] != '*' {
                assert(p[k - pi] != '*');
                return false;
            }
            k += 1;
        }
        return true;
    }
    if pi == pat.len() {
        return false;
    }
    let c = pat[pi];
    if c == '*' && pi + 1 < pat.len() && pat[pi + 1] == '*' {
        let ri = if pi + 2 < pat.len() && pat[pi + 2] == '/' {
            pi + 3
        } else {
            pi + 2
        };
        proof {
            assert(after_double_star(p) =~= pat@.skip(ri as int));
        }
        if ri >= pat.len() {
            assert(pat@.skip(ri as int).len() == 0);
            return true;
        }
        let ghost r = pat@.skip(ri as int);
        let seg = ri == pi + 3;
        let mut k = si;
        let mut at_start = true;
        loop
            invariant
                si <= k <= path.len(),
                ri < pat.len(),
                pi < ri,
                r == pat@.skip(ri as int),
                s == path@.skip(si as int),
                seg == (p.len() > 2 && p[2] == '/'),
                seg ==> glob_segments(r, s, true) == glob_segments(r, path@.skip(k as int), at_start),
                !seg ==> glob_suffix(r, s) == glob_suffix(r, path@.skip(k as int)),
                !seg ==> at_start,
            decreases path.len() - k,
        {
            if at_start && simple_match(pat, path, ri, k) {
                return true;
            }
            if k == path.len() {
                return false;
            }
            assert(path@.skip(k as int).drop_first() =~= path@.skip(k + 1));
            assert(path@.skip(k as int)[0] == path@[k as int]);
            if seg {
                at_start = path[k] == '/';
            }
            k += 1;
        }
    }
    if c == '*' {
        if simple_match(pat, path, pi + 1, si) {
            return true;
        }
        if path[si] == '/' {
            return false;
        }
        return simple_match(pat, path, pi, si + 1);
    }
    if c == '?' {
        if path[si] == '/' {
            return false;
        }
        return simple_match(pat, path, pi + 1, si + 1);
    }
    if c != path[si] {
        return false;
    }
    simple_match(pat, path, pi + 1, si + 1)
}

/// The patterns `expand_braces` yields for `p`: the first `{` and the first `}` after it
/// delimit a comma-separated alternation; each alternative (followed by the rest of the
/// pattern, itself expanded) is prefixed with the text before the `{`.
pub open spec fn expand_spec(p: Seq<char>) -> Seq<Seq<char>>
    decreases p.len(), 0int, 0int,
{
    match find_from(p, seq!['{'], 0) {
        None => seq![p],
        Some(open) => match find_from(p, seq!['}'], open) {
            None => seq![p],
            Some(close) => {
                if 0 <= open < close < p.len() {
                    expand_alts(
                        p.take(open),
                        split_spec(p.subrange(open + 1, close), ','),
                        p.skip(close + 1),
                        (p.len() - 1) as nat,
                        0,
                    )
                } else {
                    seq![p]
                }
            },
        },
    }
}

/// Expansions of alternatives `k..` (each `alts[j] + post` expanded, prefixed with `pre`).
pub open spec fn expand_alts(
    pre: Seq<char>,
    alts: Seq<Seq<char>>,
    post: Seq<char>,
    bound: nat,
    k: int,
) -> Seq<Seq<char>>
    decreases bound, 1int, alts.len() - k,
{
    if k < 0 || k >= alts.len() || alts[k].len() + post.len() > bound {
        Seq::empty()
    } else {
        expand_spec(alts[k] + post).map_values(|t: Seq<char>| pre + t) + expand_alts(
            pre,
            alts,
            post,
            bound,
            k + 1,
        )
    }
}

pub open spec fn views(v: Seq<Vec<char>>) -> Seq<Seq<char>> {
    v.map_values(|x: Vec<char>| x@)
}

/// Expand `{a,b}` alternations (first brace group, recursively into the tail).
fn expand_braces(pat: &[char]) -> (r: Vec<Vec<char>>)
    ensures
        views(r@) == expand_spec(pat@),
    decreases pat.len(),
{
    let whole = slice_take(pat, pat.len());
    proof {
        assert(pat@.take(pat.len() as int) =~= pat@);
    }
    let open_b: Vec<char> = vec!['{'];
    let close_b: Vec<char> = vec!['}'];
    assert(open_b@ =~= seq!['{']);
    assert(close_b@ =~= seq!['}']);
    let open = match find_at(pat, open_b.as_slice(), 0) {
        Some(o) => o,
        None => {
            let r = vec![whole];
            assert(views(r@) =~= expand_spec(pat@));
            return r;
        },
    };
    let close = match find_at(pat, close_b.as_slice(), open) {
        Some(c) => c,
        None => {
            let r = vec![whole];
            assert(views(r@) =~= expand_spec(pat@));
            return r;
        },
    };
    proof {
        lemma_find_from(pat@, seq!['{'], 0);
        lemma_find_from(pat@, seq!['}'], open as int);
        assert(pat@[open as int] == '{');
        assert(pat@.subrange(close as int, close + 1)[0] == pat@[close as int]);
    }
    let pre = slice_take(pat, open);
    let inner = slice_range(pat, open + 1, close);
    let post = slice_range(pat, close + 1, pat.len());
    proof {
        assert(post@ =~= pat@.skip(close + 1));
    }
    let alts = split_char(inner.as_slice(), ',');
    let ghost salts = split_spec(inner@, ',');
    let ghost bound = (pat@.len() - 1) as nat;
    proof {
        lemma_split_pieces_shorter(inner@, ',');
    }
    let mut out: Vec<Vec<char>> = Vec::new();
    let mut k: usize = 0;
    while k < alts.len()
        invariant
            k <= alts@.len(),
            alts@.len() == salts.len(),
            forall|j: int| 0 <= j < alts@.len() ==> #[trigger] alts@[j]@ == salts[j],
            forall|j: int| 0 <= j < salts.len() ==> #[trigger] salts[j].len() <= inner@.len(),
            inner@.len() + post@.len() + 2 <= pat@.len(),
            bound == pat@.len() - 1,
            expand_spec(pat@) == views(out@) + expand_alts(pre@, salts, post@, bound, k as int),
        decreases alts@.len() - k,
    {
        let mut cand: Vec<char> = alts[k].clone();
        let mut post_copy = post.clone();
        cand.append(&mut post_copy);
        assert(cand@ =~= salts[k as int] + post@);
        assert(salts[k as int].len() <= inner@.len());
        let sub = expand_braces(cand.as_slice());
        let ghost before = views(out@);
        let mut j: usize = 0;
        while j < sub.len()
            invariant
                j <= sub@.len(),
                views(out@) == before + views(sub@.take(j as int)).map_values(
                    |t: Seq<char>| pre@ + t,
                ),
            decreases sub@.len() - j,
        {
            let mut item = pre.clone();
            let mut tail = sub[j].clone();
            item.append(&mut tail);
            let ghost old_out = out@;
            out.push(item);
            proof {
                assert(views(out@) =~= views(old_out).push(pre@ + sub@[j as int]@));
                assert(views(sub@.take(j + 1)).map_values(|t: Seq<char>| pre@ + t) =~= views(
                    sub@.take(j as int),
                ).map_values(|t: Seq<char>| pre@ + t).push(pre@ + sub@[j as int]@));
                assert(views(out@) =~= before + views(sub@.take(j + 1)).map_values(
                    |t: Seq<char>| pre@ + t,
                ));
            }
            j += 1;
        }
        proof {
            assert(sub@.take(sub@.len() as int) =~= sub@);
            let e = expand_spec(salts[k as int] + post@).map_values(|t: Seq<char>| pre@ + t);
            assert(expand_alts(pre@, salts, post@, bound, k as int) == e + expand_alts(
                pre@,
                salts,
                post@,
                bound,
                k + 1,
            ));
            assert(views(out@) =~= before + e);
        }
        k += 1;
    }
    proof {
        assert(views(out@) + expand_alts(pre@, salts, post@, bound, k as int) =~= views(out@));
    }
    out
}

/// `pat` (brace alternations expanded) matches `path`.
pub open spec fn glob_match_spec(pat: Seq<char>, path: Seq<char>) -> bool {
    exists|i: int| 0 <= i < expand_spec(pat).len() && glob_spec(#[trigger] expand_spec(pat)[i], path)
}

/// Whether the glob `pat` matches `path`.
pub fn glob_match(pat: &str, path: &str) -> (b: bool)
    ensures
        b == glob_match_spec(pat@, path@),
{
    let pc = chars_of(pat);
    let sc = chars_of(path);
    let pats = expand_braces(pc.as_slice());
    let mut i: usize = 0;
    while i < pats.len()
        invariant
            i <= pats@.len(),
            views(pats@) == expand_spec(pat@),
            sc@ == path@,
            forall|j: int| 0 <= j < i ==> !glob_spec(#[trigger] expand_spec(pat@)[j], path@),
        decreases pats@.len() - i,
    {
        assert(pats@[i as int]@ == expand_spec(pat@)[i as int]);
        if simple_match(pats[i].as_slice(), sc.as_slice(), 0, 0) {
            proof {
                assert(pats@[i as int]@.skip(0) =~= pats@[i as int]@);
                assert(sc@.skip(0) =~= sc@);
            }
            return true;
        }
        proof {
            assert(pats@[i as int]@.skip(0) =~= pats@[i as int]@);
            assert(sc@.skip(0) =~= sc@);
        }
        i += 1;
    }
    false
}

/// Same predicate under the name the launcher imports.
pub fn glob_matches(pat: &str, path: &str) -> (b: bool)
    ensures
        b == glob_match_spec(pat@, path@),
{
    glob_match(pat, path)
}

/// `t` holds neither `{` nor `}`.
pub open spec fn brace_free(t: Seq<char>) -> bool {
    forall|i: int| 0 <= i < t.len() ==> t[i] != '{' && t[i] != '}'
}

/// Read left to right (`inside` a group or not), the braces of `p` open and close
/// non-nested groups, and every group that opens closes.
pub open spec fn braces_closed(p: Seq<char>, inside: bool) -> bool
    decreases p.len(),
{
    if p.len() == 0 {
        !inside
    } else if p[0] == '{' {
        !inside && braces_closed(p.drop_first(), true)
    } else if p[0] == '}' {
        inside && braces_closed(p.drop_first(), false)
    } else {
        braces_closed(p.drop_first(), inside)
    }
}

proof fn lemma_outside_run(q: Seq<char>, m: int)
    requires
        0 <= m <= q.len(),
        braces_closed(q, false),
        forall|i: int| 0 <= i < m ==> q[i] != '{',
    ensures
        forall|i: int| 0 <= i < m ==> q[i] != '}',
        braces_closed(q.skip(m), false),
    decreases m,
{
    if m == 0 {
        assert(q.skip(0) =~= q);
    } else {
        let r = q.drop_first();
        assert(q[0] != '{');
        assert(braces_closed(r, false));
        assert forall|i: int| 0 <= i < m - 1 implies r[i] != '{' by {
            assert(r[i] == q[i + 1]);
        }
        lemma_outside_run(r, m - 1);
        assert forall|i: int| 0 <= i < m implies q[i] != '}' by {
            if i > 0 {
                assert(r[i - 1] == q[i]);
            }
        }
        assert(r.skip(m - 1) =~= q.skip(m));
    }
}

proof fn lemma_inside_run(q: Seq<char>, m: int)
    requires
        0 <= m <= q.len(),
        braces_closed(q, true),
        forall|i: int| 0 <= i < m ==> q[i] != '}',
    ensures
        forall|i: int| 0 <= i < m ==> q[i] != '{',
        braces_closed(q.skip(m), true),
    decreases m,
{
    if m == 0 {
        assert(q.skip(0) =~= q);
    } else {
        let r = q.drop_first();
        assert(q[0] != '}');
        assert(braces_closed(r, true));
        assert forall|i: int| 0 <= i < m - 1 implies r[i] != '}' by {
            assert(r[i] == q[i + 1]);
        }
        lemma_inside_run(r, m - 1);
        assert forall|i: int| 0 <= i < m implies q[i] != '{' by {
            if i > 0 {
                assert(r[i - 1] == q[i]);
            }
        }
        assert(r.skip(m - 1) =~= q.skip(m));
    }
}

proof fn lemma_prefix_closed(a: Seq<char>, b: Seq<char>)
    requires
        brace_free(a),
        braces_closed(b, false),
    ensures
        braces_closed(a + b, false),
    decreases a.len(),
{
    if a.len() > 0 {
        lemma_prefix_closed(a.drop_first(), b);
        assert((a + b).drop_first() =~= a.drop_first() + b);
        assert((a + b)[0] == a[0]);
    } else {
        assert(a + b =~= b);
    }
}

proof fn lemma_split_brace_free(s: Seq<char>, c: char)
    requires
        brace_free(s),
    ensures
        forall|k: int| 0 <= k < split_spec(s, c).len() ==> brace_free(#[trigger] split_spec(s, c)[k]),
    decreases s.len(),
{
    match find_from(s, seq![c], 0) {
        Some(i) => {
            if 0 <= i < s.len() {
                let rest = s.skip(i + 1);
                assert forall|j: int| 0 <= j < rest.len() implies rest[j] != '{' && rest[j] != '}' by {
                    assert(rest[j] == s[i + 1 + j]);
                }
                lemma_split_brace_free(rest, c);
                let r = split_spec(rest, c);
                assert(split_spec(s, c) == seq![s.take(i)] + r);
                assert forall|k: int| 0 <= k < split_spec(s, c).len() implies brace_free(
                    #[trigger] split_spec(s, c)[k],
                ) by {
                    if k == 0 {
                        assert(split_spec(s, c)[0] == s.take(i));
                        assert forall|j: int| 0 <= j < s.take(i).len() implies s.take(i)[j] != '{' && s.take(i)[j]
                            != '}' by {
                            assert(s.take(i)[j] == s[j]);
                        }
                    } else {
                        assert(split_spec(s, c)[k] == r[k - 1]);
                    }
                }
            }
        },
        None => {},
    }
}

proof fn lemma_occurs_char(h: Seq<char>, c: char, j: int)
    requires
        0 <= j < h.len(),
    ensures
        crate::text::occurs_at(h, seq![c], j) <==> h[j] == c,
{
    if h[j] == c {
        assert(h.subrange(j, j + 1) =~= seq![c]);
    } else {
        assert(h.subrange(j, j + 1)[0] == h[j]);
    }
}

proof fn lemma_expand_brace_free(p: Seq<char>)
    requires
        braces_closed(p, false),
    ensures
        forall|i: int| 0 <= i < expand_spec(p).len() ==> brace_free(#[trigger] expand_spec(p)[i]),
    decreases p.len(), 0int, 0int,
{
    lemma_find_from(p, seq!['{'], 0);
    assert forall|j: int| 0 <= j < p.len() implies (crate::text::occurs_at(p, seq!['{'], j) <==> p[j] == '{')
        && (crate::text::occurs_at(p, seq!['}'], j) <==> p[j] == '}') by {
        lemma_occurs_char(p, '{', j);
        lemma_occurs_char(p, '}', j);
    }
    match find_from(p, seq!['{'], 0) {
        None => {
            assert forall|i: int| 0 <= i < p.len() implies p[i] != '{' by {
                assert(!crate::text::occurs_at(p, seq!['{'], i));
            }
            lemma_outside_run(p, p.len() as int);
            assert(brace_free(p));
            assert(expand_spec(p) == seq![p]);
            assert(expand_spec(p)[0] == p);
        },
        Some(open) => {
            lemma_find_from(p, seq!['}'], open);
            assert(p[open] == '{');
            lemma_outside_run(p, open);
            let q = p.skip(open);
            assert(q[0] == '{');
            assert(q.drop_first() =~= p.skip(open + 1));
            let q1 = p.skip(open + 1);
            assert(braces_closed(q1, true));
            match find_from(p, seq!['}'], open) {
                None => {
                    assert forall|i: int| 0 <= i < q1.len() implies q1[i] != '}' by {
                        assert(q1[i] == p[open + 1 + i]);
                    }
                    lemma_inside_run(q1, q1.len() as int);
                    assert(q1.skip(q1.len() as int) =~= Seq::<char>::empty());
                    assert(false);
                },
                Some(close) => {
                    assert(p[close] == '}');
                    assert(close > open);
                    let m = close - open - 1;
                    assert forall|i: int| 0 <= i < m implies q1[i] != '}' by {
                        assert(q1[i] == p[open + 1 + i]);
                    }
                    lemma_inside_run(q1, m);
                    let q2 = q1.skip(m);
                    assert(q2 =~= p.skip(close));
                    assert(q2[0] == '}');
                    assert(q2.drop_first() =~= p.skip(close + 1));
                    let pre = p.take(open);
                    let inner = p.subrange(open + 1, close);
                    let post = p.skip(close + 1);
                    assert(braces_closed(post, false));
                    assert forall|i: int| 0 <= i < pre.len() implies pre[i] != '{' && pre[i] != '}' by {
                        assert(pre[i] == p[i]);
                    }
                    assert forall|i: int| 0 <= i < inner.len() implies inner[i] != '{' && inner[i] != '}' by {
                        assert(inner[i] == q1[i]);
                    }
                    lemma_split_brace_free(inner, ',');
                    let alts = split_spec(inner, ',');
                    lemma_alts_brace_free(pre, alts, post, (p.len() - 1) as nat, 0);
                    assert(close < p.len());
                    assert(expand_spec(p) == expand_alts(pre, alts, post, (p.len() - 1) as nat, 0));
                },
            }
        },
    }
}

proof fn lemma_alts_brace_free(pre: Seq<char>, alts: Seq<Seq<char>>, post: Seq<char>, bound: nat, k: int)
    requires
        brace_free(pre),
        forall|j: int| 0 <= j < alts.len() ==> brace_free(#[trigger] alts[j]),
        braces_closed(post, false),
    ensures
        forall|i: int|
            0 <= i < expand_alts(pre, alts, post, bound, k).len() ==> brace_free(
                #[trigger] expand_alts(pre, alts, post, bound, k)[i],
            ),
    decreases bound, 1int, alts.len() - k,
{
    if !(k < 0 || k >= alts.len() || alts[k].len() + post.len() > bound) {
        lemma_prefix_closed(alts[k], post);
        lemma_expand_brace_free(alts[k] + post);
        lemma_alts_brace_free(pre, alts, post, bound, k + 1);
        let e = expand_spec(alts[k] + post).map_values(|t: Seq<char>| pre + t);
        let rest = expand_alts(pre, alts, post, bound, k + 1);
        assert(expand_alts(pre, alts, post, bound, k) == e + rest);
        assert forall|i: int| 0 <= i < (e + rest).len() implies brace_free(#[trigger] (e + rest)[i]) by {
            if i < e.len() {
                let t = expand_spec(alts[k] + post)[i];
                assert((e + rest)[i] == pre + t);
                assert(brace_free(t));
                assert forall|j: int| 0 <= j < (pre + t).len() implies (pre + t)[j] != '{' && (pre + t)[j] != '}' by {
                    if j < pre.len() {
                        assert((pre + t)[j] == pre[j]);
                    } else {
                        assert((pre + t)[j] == t[j - pre.len()]);
                    }
                }
            } else {
                assert((e + rest)[i] == rest[i - e.len()]);
            }
        }
    }
}

/// Brace expansion leaves no group behind: when the braces of `p` open and close
/// non-nested groups, every pattern it expands to is free of `{` and `}` (every group,
/// not only the first, is expanded).
pub proof fn law_expansion_is_brace_free(p: Seq<char>)
    requires
        braces_closed(p, false),
    ensures
        forall|i: int| 0 <= i < expand_spec(p).len() ==> brace_free(#[trigger] expand_spec(p)[i]),
{
    lemma_expand_brace_free(p);
}

proof fn lemma_find_first(h: Seq<char>, n: Seq<char>, from: int, j: int)
    requires
        0 <= from <= j,
        crate::text::occurs_at(h, n, j),
        forall|i: int| from <= i < j ==> !crate::text::occurs_at(h, n, i),
    ensures
        find_from(h, n, from) == Some(j),
    decreases j - from,
{
    if from < j {
        lemma_find_first(h, n, from + 1, j);
    }
}

proof fn lemma_alts_member(pre: Seq<char>, alts: Seq<Seq<char>>, post: Seq<char>, bound: nat, k0: int, k: int, i: int)
    requires
        0 <= k0 <= k < alts.len(),
        forall|j: int| 0 <= j < alts.len() ==> #[trigger] alts[j].len() + post.len() <= bound,
        0 <= i < expand_spec(alts[k] + post).len(),
    ensures
        expand_alts(pre, alts, post, bound, k0).contains(pre + expand_spec(alts[k] + post)[i]),
    decreases k - k0,
{
    let e = expand_spec(alts[k0] + post).map_values(|t: Seq<char>| pre + t);
    let rest = expand_alts(pre, alts, post, bound, k0 + 1);
    assert(alts[k0].len() + post.len() <= bound);
    assert(expand_alts(pre, alts, post, bound, k0) == e + rest);
    if k == k0 {
        assert((e + rest)[i] == pre + expand_spec(alts[k] + post)[i]);
    } else {
        lemma_alts_member(pre, alts, post, bound, k0 + 1, k, i);
        let x = pre + expand_spec(alts[k] + post)[i];
        let w = choose|w: int| 0 <= w < rest.len() && rest[w] == x;
        assert((e + rest)[e.len() + w] == x);
    }
}

/// Brace expansion of `pre{inner}post` (with `pre` and `inner` free of braces) yields, for
/// every comma-separated alternative `a` of `inner`, `pre` followed by each expansion of
/// `a` + `post`: every alternative is kept, and the tail is expanded in turn.
pub proof fn law_expansion_keeps_alternatives(pre: Seq<char>, inner: Seq<char>, post: Seq<char>)
    requires
        brace_free(pre),
        brace_free(inner),
    ensures
        forall|k: int, i: int|
            0 <= k < split_spec(inner, ',').len() && 0 <= i < expand_spec(
                #[trigger] split_spec(inner, ',')[k] + post,
            ).len() ==> expand_spec(pre + seq!['{'] + inner + seq!['}'] + post).contains(
                pre + #[trigger] expand_spec(split_spec(inner, ',')[k] + post)[i],
            ),
{
    let p = pre + seq!['{'] + inner + seq!['}'] + post;
    let open = pre.len() as int;
    let close = open + 1 + inner.len();
    assert(p[open] == '{');
    assert(p[close] == '}');
    assert forall|j: int| 0 <= j < p.len() implies (crate::text::occurs_at(p, seq!['{'], j) <==> p[j] == '{')
        && (crate::text::occurs_at(p, seq!['}'], j) <==> p[j] == '}') by {
        lemma_occurs_char(p, '{', j);
        lemma_occurs_char(p, '}', j);
    }
    assert forall|j: int| 0 <= j < open implies !crate::text::occurs_at(p, seq!['{'], j) by {
        assert(p[j] == pre[j]);
    }
    lemma_find_first(p, seq!['{'], 0, open);
    assert forall|j: int| open <= j < close implies !crate::text::occurs_at(p, seq!['}'], j) by {
        if j > open {
            assert(p[j] == inner[j - open - 1]);
        }
    }
    lemma_find_first(p, seq!['}'], open, close);
    assert(p.subrange(open + 1, close) =~= inner);
    assert(p.skip(close + 1) =~= post);
    assert(p.take(open) =~= pre);
    let alts = split_spec(inner, ',');
    let bound = (p.len() - 1) as nat;
    assert(expand_spec(p) == expand_alts(pre, alts, post, bound, 0));
    lemma_split_pieces_shorter(inner, ',');
    assert forall|j: int| 0 <= j < alts.len() implies #[trigger] alts[j].len() + post.len() <= bound by {
        assert(alts[j].len() <= inner.len());
    }
    assert forall|k: int, i: int|
        0 <= k < alts.len() && 0 <= i < expand_spec(#[trigger] alts[k] + post).len() implies expand_spec(p).contains(
        pre + #[trigger] expand_spec(alts[k] + post)[i],
    ) by {
        lemma_alts_member(pre, alts, post, bound, 0, k, i);
    }
}

} // verus!
