//! Coverage thresholds are percentages written as decimals (`90`, `87.5`, `9e1`). They are held
//! exactly as `units / 10^scale` with at most nine fractional digits.

use vstd::prelude::*;

use crate::text::is_ascii_digit;

verus! {

/// `units / 10^scale`.
#[derive(Clone, Copy, PartialEq, Eq, Debug)]
pub struct Decimal {
    pub units: u64,
    pub scale: u32,
}

pub open spec fn pow10(n: nat) -> nat
    decreases n,
{
    if n == 0 {
        1
    } else {
        10 * pow10((n - 1) as nat)
    }
}

pub open spec fn all_digits(s: Seq<char>) -> bool {
    forall|i: int| 0 <= i < s.len() ==> is_ascii_digit(#[trigger] s[i])
}

/// Value of a run of decimal digits.
pub open spec fn digits_value(s: Seq<char>) -> nat
    decreases s.len(),
{
    if s.len() == 0 {
        0
    } else {
        digits_value(s.drop_last()) * 10 + ((s.last() as int) - ('0' as int)) as nat
    }
}

pub open spec fn sat_u64(v: nat) -> u64 {
    if v > u64::MAX {
        u64::MAX
    } else {
        v as u64
    }
}

/// The sign, integer digits and fractional digits of a decimal mantissa: optional sign,
/// digits, optional `.` and digits, at least one digit in all.
pub open spec fn mantissa_spec(s: Seq<char>) -> Option<(bool, Seq<char>, Seq<char>)> {
    let neg = s.len() > 0 && s[0] == '-';
    let body = if s.len() > 0 && (s[0] == '+' || s[0] == '-') {
        s.drop_first()
    } else {
        s
    };
    let int_part = match crate::text::find_from(body, seq!['.'], 0) {
        Some(d) => body.take(d),
        None => body,
    };
    let frac = match crate::text::find_from(body, seq!['.'], 0) {
        Some(d) => body.skip(d + 1),
        None => Seq::empty(),
    };
    if !all_digits(int_part) || !all_digits(frac) || int_part.len() + frac.len() == 0 {
        None
    } else {
        Some((neg, int_part, frac))
    }
}

pub open spec fn is_exp_mark(c: char) -> bool {
    c == 'e' || c == 'E'
}

/// The index of the first `e` or `E` from `i` on.
pub open spec fn exp_at(s: Seq<char>, i: int) -> Option<int>
    decreases s.len() - i,
{
    if i < 0 || i >= s.len() {
        None
    } else if is_exp_mark(s[i]) {
        Some(i)
    } else {
        exp_at(s, i + 1)
    }
}

/// An exponent: optional sign and at least one digit.
pub open spec fn exponent_spec(e: Seq<char>) -> Option<int> {
    let neg = e.len() > 0 && e[0] == '-';
    let ds = if e.len() > 0 && (e[0] == '+' || e[0] == '-') {
        e.drop_first()
    } else {
        e
    };
    if ds.len() > 0 && all_digits(ds) {
        Some(if neg { -(digits_value(ds) as int) } else { digits_value(ds) as int })
    } else {
        None
    }
}

/// The scale a threshold is held at: the fractional digits once the exponent `x` has moved
/// the point, at most nine.
pub open spec fn shifted_scale(k: int, x: int) -> int {
    if k - x < 0 {
        0
    } else if k - x > 9 {
        9
    } else {
        k - x
    }
}

/// The units of `all` (integer then fractional digits, `k` of them fractional) times
/// `10^x`, held at `shifted_scale(k, x)`: digits past the scale are dropped, and a value
/// past `u64::MAX` units saturates.
pub open spec fn shifted_units(all: Seq<char>, k: int, x: int) -> u64 {
    let e = shifted_scale(k, x) + x - k;
    if e >= 0 {
        sat_u64(digits_value(all) * pow10(e as nat))
    } else if all.len() + e <= 0 {
        0
    } else {
        sat_u64(digits_value(all.take(all.len() + e)))
    }
}

/// A threshold as written: a decimal mantissa (optional sign, digits, optional `.` and
/// digits, at least one digit in all) and an optional exponent (`e` or `E`, optional sign,
/// digits). The value is held at scale at most nine: digits past the ninth decimal are
/// dropped, values past `u64::MAX` units saturate, and a negative threshold (never
/// binding) reads as zero.
pub open spec fn parse_decimal_spec(s: Seq<char>) -> Option<Decimal> {
    let m = match exp_at(s, 0) {
        Some(a) => s.take(a),
        None => s,
    };
    let x = match exp_at(s, 0) {
        Some(a) => exponent_spec(s.skip(a + 1)),
        None => Some(0int),
    };
    match (mantissa_spec(m), x) {
        (Some((neg, ip, fr)), Some(x)) => if neg {
            Some(Decimal { units: 0, scale: 0 })
        } else {
            Some(Decimal { units: shifted_units(ip + fr, fr.len() as int, x), scale: shifted_scale(fr.len() as int, x) as u32 })
        },
        _ => None,
    }
}

/// Saturating value of an all-digit run.
fn digits_value_sat(s: &[char]) -> (r: u64)
    requires
        all_digits(s@),
    ensures
        r == sat_u64(digits_value(s@)),
{
    let mut a: u64 = 0;
    let mut i: usize = 0;
    assert(s@.take(0) =~= Seq::<char>::empty());
    while i < s.len()
        invariant
            i <= s.len(),
            all_digits(s@),
            a == sat_u64(digits_value(s@.take(i as int))),
        decreases s.len() - i,
    {
        assert(is_ascii_digit(s@[i as int]));
        let d = (s[i] as u32 - '0' as u32) as u64;
        let ghost v = digits_value(s@.take(i as int));
        proof {
            assert(s@.take(i + 1).drop_last() =~= s@.take(i as int));
            assert(s@.take(i + 1).last() == s@[i as int]);
            assert(digits_value(s@.take(i + 1)) == v * 10 + d);
        }
        if a > (u64::MAX - d) / 10 {
            proof {
                if v <= u64::MAX {
                    assert(a == v);
                }
                assert(v * 10 + d > u64::MAX) by (nonlinear_arith)
                    requires
                        v >= a,
                        a > (u64::MAX - d) / 10,
                        d <= 9,
                ;
            }
            a = u64::MAX;
        } else {
            proof {
                assert(v <= u64::MAX);
                assert(a * 10 + d <= u64::MAX) by (nonlinear_arith)
                    requires
                        a <= (u64::MAX - d) / 10,
                        d <= 9,
                ;
            }
            a = a * 10 + d;
        }
        i += 1;
    }
    assert(s@.take(s.len() as int) =~= s@);
    a
}

fn all_digits_exec(s: &[char]) -> (b: bool)
    ensures
        b == all_digits(s@),
{
    let mut i: usize = 0;
    while i < s.len()
        invariant
            i <= s@.len(),
            forall|j: int| 0 <= j < i ==> is_ascii_digit(#[trigger] s@[j]),
        decreases s@.len() - i,
    {
        if !('0' <= s[i] && s[i] <= '9') {
            return false;
        }
        i += 1;
    }
    true
}

/// The sign, integer digits and fractional digits of a mantissa (`mantissa_spec`).
fn split_mantissa(s: &[char]) -> (r: Option<(bool, Vec<char>, Vec<char>)>)
    ensures
        match r {
            Some((n, i, f)) => mantissa_spec(s@) == Some((n, i@, f@)),
            None => mantissa_spec(s@) is None,
        },
{
    let neg = s.len() > 0 && s[0] == '-';
    let start: usize = if s.len() > 0 && (s[0] == '+' || s[0] == '-') {
        1
    } else {
        0
    };
    let body = crate::text::slice_skip(s, start);
    assert(body@ == (if s@.len() > 0 && (s@[0] == '+' || s@[0] == '-') {
        s@.drop_first()
    } else {
        s@
    }));
    let dot: Vec<char> = vec!['.'];
    assert(dot@ =~= seq!['.']);
    let found = crate::text::find_at(body, dot.as_slice(), 0);
    let (int_part, frac) = match found {
        Some(d) => {
            proof {
                crate::text::lemma_find_from(body@, seq!['.'], 0);
            }
            (crate::text::slice_take(body, d), crate::text::slice_range(body, d + 1, body.len()))
        },
        None => (crate::text::slice_take(body, body.len()), Vec::new()),
    };
    proof {
        assert(body@.take(body@.len() as int) =~= body@);
        if let Some(d) = found {
            assert(body@.subrange(d + 1, body@.len() as int) =~= body@.skip(d + 1));
        }
        assert(frac@ =~= (match crate::text::find_from(body@, seq!['.'], 0) {
            Some(d) => body@.skip(d + 1),
            None => Seq::empty(),
        }));
    }
    if !all_digits_exec(int_part.as_slice()) || !all_digits_exec(frac.as_slice()) || int_part.len() + frac.len() == 0 {
        return None;
    }
    Some((neg, int_part, frac))
}

fn exp_at_exec(s: &[char]) -> (r: Option<usize>)
    ensures
        match r {
            Some(a) => exp_at(s@, 0) == Some(a as int) && a < s@.len(),
            None => exp_at(s@, 0) is None,
        },
{
    let mut i: usize = 0;
    while i < s.len()
        invariant
            i <= s@.len(),
            exp_at(s@, 0) == exp_at(s@, i as int),
        decreases s@.len() - i,
    {
        if s[i] == 'e' || s[i] == 'E' {
            return Some(i);
        }
        i += 1;
    }
    None
}

/// Saturating `u128` value of an all-digit run.
fn digits_value_sat128(s: &[char]) -> (r: u128)
    requires
        all_digits(s@),
    ensures
        r == (if digits_value(s@) > u128::MAX { u128::MAX as nat } else { digits_value(s@) }),
{
    let mut a: u128 = 0;
    let mut i: usize = 0;
    assert(s@.take(0) =~= Seq::<char>::empty());
    while i < s.len()
        invariant
            i <= s.len(),
            all_digits(s@),
            a == (if digits_value(s@.take(i as int)) > u128::MAX {
                u128::MAX as nat
            } else {
                digits_value(s@.take(i as int))
            }),
        decreases s.len() - i,
    {
        assert(is_ascii_digit(s@[i as int]));
        let d = (s[i] as u32 - '0' as u32) as u128;
        let ghost v = digits_value(s@.take(i as int));
        proof {
            assert(s@.take(i + 1).drop_last() =~= s@.take(i as int));
            assert(s@.take(i + 1).last() == s@[i as int]);
            assert(digits_value(s@.take(i + 1)) == v * 10 + d);
        }
        if a > (u128::MAX - d) / 10 {
            proof {
                if v <= u128::MAX {
                    assert(a == v);
                }
                assert(v * 10 + d > u128::MAX) by (nonlinear_arith)
                    requires
                        v >= a,
                        a > (u128::MAX - d) / 10,
                        d <= 9,
                ;
            }
            a = u128::MAX;
        } else {
            proof {
                assert(v <= u128::MAX);
                assert(a * 10 + d <= u128::MAX) by (nonlinear_arith)
                    requires
                        a <= (u128::MAX - d) / 10,
                        d <= 9,
                ;
            }
            a = a * 10 + d;
        }
        i += 1;
    }
    assert(s@.take(s.len() as int) =~= s@);
    a
}

/// An exponent's sign and saturating magnitude (`exponent_spec`).
fn split_exponent(e: &[char]) -> (r: Option<(bool, u128)>)
    ensures
        match r {
            Some((n, m)) => exponent_spec(e@) matches Some(x) && (n <==> x < 0) && (if m == u128::MAX {
                x >= u128::MAX || x <= -(u128::MAX as int)
            } else {
                x == (if n { -(m as int) } else { m as int })
            }),
            None => exponent_spec(e@) is None,
        },
{
    let neg = e.len() > 0 && e[0] == '-';
    let start: usize = if e.len() > 0 && (e[0] == '+' || e[0] == '-') {
        1
    } else {
        0
    };
    let ds = crate::text::slice_skip(e, start);
    assert(ds@ == (if e@.len() > 0 && (e@[0] == '+' || e@[0] == '-') {
        e@.drop_first()
    } else {
        e@
    }));
    if ds.len() == 0 || !all_digits_exec(ds) {
        return None;
    }
    let m = digits_value_sat128(ds);
    if m == 0 {
        return Some((false, 0));
    }
    Some((neg, m))
}

proof fn lemma_pow10_pos(n: nat)
    ensures
        pow10(n) >= 1,
    decreases n,
{
    if n > 0 {
        lemma_pow10_pos((n - 1) as nat);
    }
}

proof fn lemma_pow10_mono(a: nat, b: nat)
    requires
        a <= b,
    ensures
        pow10(a) <= pow10(b),
    decreases b,
{
    if a < b {
        lemma_pow10_mono(a, (b - 1) as nat);
        lemma_pow10_pos((b - 1) as nat);
    }
}

proof fn lemma_pow10_20()
    ensures
        pow10(20) > u64::MAX,
{
    reveal_with_fuel(pow10, 21);
}

/// `sat_u64(digits_value(s) * 10^e)`, from the saturated value of the digits.
fn scale_up(a: u64, s: Ghost<Seq<char>>, e: u128) -> (r: u64)
    requires
        a == sat_u64(digits_value(s@)),
    ensures
        r == sat_u64(digits_value(s@) * pow10(e as nat)),
{
    let ghost dv = digits_value(s@);
    if a == 0 {
        assert(dv == 0);
        assert(dv * pow10(e as nat) == 0);
        return 0;
    }
    if e >= 20 {
        proof {
            lemma_pow10_20();
            lemma_pow10_mono(20, e as nat);
            assert(dv >= 1);
            assert(dv * pow10(e as nat) >= pow10(e as nat)) by (nonlinear_arith)
                requires
                    dv >= 1,
                    pow10(e as nat) >= 1,
            ;
        }
        return u64::MAX;
    }
    assert(pow10(0) == 1);
    assert(dv * pow10(0) == dv) by (nonlinear_arith)
        requires
            pow10(0) == 1,
    ;
    let mut r = a;
    let mut j: u128 = 0;
    while j < e
        invariant
            j <= e,
            e < 20,
            dv == digits_value(s@),
            r == sat_u64(dv * pow10(j as nat)),
        decreases e - j,
    {
        let ghost p = pow10(j as nat);
        assert(pow10((j + 1) as nat) == 10 * p);
        assert(dv * pow10((j + 1) as nat) == 10 * (dv * p)) by (nonlinear_arith)
            requires
                pow10((j + 1) as nat) == 10 * p,
        ;
        if r > u64::MAX / 10 {
            r = u64::MAX;
        } else {
            assert(dv * p <= u64::MAX);
            r = r * 10;
        }
        j += 1;
    }
    r
}

/// Parse a threshold percentage (see `parse_decimal_spec`).
pub fn parse_decimal(s: &[char]) -> (r: Option<Decimal>)
    ensures
        r == parse_decimal_spec(s@),
{
    let at = exp_at_exec(s);
    let m: Vec<char> = match at {
        Some(a) => crate::text::slice_take(s, a),
        None => crate::text::slice_take(s, s.len()),
    };
    proof {
        assert(s@.take(s@.len() as int) =~= s@);
    }
    let xs: Option<(bool, u128)> = match at {
        Some(a) => split_exponent(crate::text::slice_skip(s, a + 1)),
        None => Some((false, 0)),
    };
    let (neg, ip, fr) = match split_mantissa(m.as_slice()) {
        Some(t) => t,
        None => return None,
    };
    let (xneg, xm) = match xs {
        Some(t) => t,
        None => return None,
    };
    let ghost x: int = match (match at {
        Some(a) => exponent_spec(s@.skip(a + 1)),
        None => Some(0int),
    }) {
        Some(v) => v,
        None => 0,
    };
    if neg {
        return Some(Decimal { units: 0, scale: 0 });
    }
    let mut all = ip.clone();
    let mut f2 = fr.clone();
    all.append(&mut f2);
    assert(all@ =~= ip@ + fr@);
    assert(all_digits(all@)) by {
        assert forall|q: int| 0 <= q < all@.len() implies is_ascii_digit(#[trigger] all@[q]) by {
            if q < ip@.len() {
                assert(all@[q] == ip@[q]);
            } else {
                assert(all@[q] == fr@[q - ip@.len()]);
            }
        }
    }
    let k = fr.len();
    let len = all.len();
    let big: u128 = 0x4_0000_0000_0000_0000;
    if xm > big {
        // An exponent this large moves the point past every digit.
        if xneg {
            proof {
                assert(x <= -(big as int));
                assert(shifted_scale(k as int, x) == 9);
                assert(all@.len() + (9 + x - k) <= 0);
            }
            return Some(Decimal { units: 0, scale: 9 });
        } else {
            proof {
                assert(x >= big);
                assert(shifted_scale(k as int, x) == 0);
            }
            let a = digits_value_sat(all.as_slice());
            let u = scale_up(a, Ghost(all@), 20);
            proof {
                if digits_value(all@) > 0 {
                    lemma_pow10_mono(20, (x - k) as nat);
                    lemma_pow10_20();
                    assert(digits_value(all@) * pow10((x - k) as nat) >= pow10((x - k) as nat)) by (nonlinear_arith)
                        requires
                            digits_value(all@) >= 1,
                            pow10((x - k) as nat) >= 1,
                    ;
                    assert(digits_value(all@) * pow10(20) >= pow10(20)) by (nonlinear_arith)
                        requires
                            digits_value(all@) >= 1,
                            pow10(20) >= 1,
                    ;
                } else {
                    assert(digits_value(all@) * pow10((x - k) as nat) == 0) by (nonlinear_arith)
                        requires
                            digits_value(all@) == 0,
                    ;
                    assert(digits_value(all@) * pow10(20) == 0) by (nonlinear_arith)
                        requires
                            digits_value(all@) == 0,
                    ;
                }
            }
            return Some(Decimal { units: u, scale: 0 });
        }
    }
    assert(x == (if xneg { -(xm as int) } else { xm as int }));
    let xi: i128 = if xneg { -(xm as i128) } else { xm as i128 };
    let ki: i128 = k as i128;
    let sc: i128 = if ki - xi < 0 {
        0
    } else if ki - xi > 9 {
        9
    } else {
        ki - xi
    };
    assert(sc == shifted_scale(k as int, x));
    let e: i128 = sc + xi - ki;
    let units: u64 = if e >= 0 {
        let a = digits_value_sat(all.as_slice());
        scale_up(a, Ghost(all@), e as u128)
    } else if (len as i128) + e <= 0 {
        0
    } else {
        let keep = ((len as i128) + e) as usize;
        let t = crate::text::slice_take(all.as_slice(), keep);
        assert(all_digits(t@)) by {
            assert forall|q: int| 0 <= q < t@.len() implies is_ascii_digit(#[trigger] t@[q]) by {
                assert(t@[q] == all@[q]);
            }
        }
        digits_value_sat(t.as_slice())
    };
    Some(Decimal { units, scale: sc as u32 })
}

} // verus!
