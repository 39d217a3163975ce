//! Double-precision numbers, known by their 64 bits alone: one sign bit,
//! eleven bits of exponent and 52 bits of fraction.
//!
//! The module says which value the bits encode, as an exact integer count of
//! the smallest step between such numbers, and on that footing compares two
//! numbers, negates one and takes the whole part of one. It gives each number
//! a signed integer key such that keys compare as the numbers do.

use vstd::prelude::*;
use vstd::arithmetic::div_mod::{
    lemma_basic_div, lemma_div_denominator, lemma_div_is_ordered, lemma_div_multiples_vanish,
    lemma_fundamental_div_mod, lemma_mod_bound,
};
use vstd::arithmetic::power2::{
    lemma2_to64, lemma2_to64_rest, lemma_pow2_adds, lemma_pow2_pos, lemma_pow2_strictly_increases,
    lemma_pow2_unfold, pow2,
};

verus! {

/// Weight of the sign bit: two to the power 63.
pub const SIGN: u64 = 0x8000_0000_0000_0000;

/// Weight of the lowest exponent bit: two to the power 52.
pub const HIDDEN: u64 = 0x10_0000_0000_0000;

/// Bits of positive infinity: every exponent bit set, no fraction bit.
pub const INFINITY: u64 = 0x7FF0_0000_0000_0000;

/// The sign bit is set.
pub open spec fn is_negative(bits: u64) -> bool {
    bits >= SIGN
}

/// Exponent and fraction together, as one number.
pub open spec fn magnitude(bits: u64) -> int {
    bits as int % SIGN as int
}

/// The bits encode a number: zero, a subnormal, a normal number or an
/// infinity, of either sign. All other patterns are not-a-number.
pub open spec fn is_number(bits: u64) -> bool {
    magnitude(bits) <= INFINITY
}

/// The absolute value that a magnitude encodes, in units of two to the power
/// minus 1074: the fraction itself where the exponent field is zero, else
/// the fraction with the hidden bit, doubled once for each step of the
/// exponent field above one. An infinity gets what this rule gives it, which
/// lies above every finite value.
pub open spec fn scaled_magnitude(m: int) -> int {
    let exponent = m / HIDDEN as int;
    let fraction = m % HIDDEN as int;
    if exponent <= 0 {
        fraction
    } else {
        (HIDDEN + fraction) * pow2((exponent - 1) as nat)
    }
}

/// The value that the bits encode, in units of two to the power minus 1074.
/// Both zeros have the value zero.
pub open spec fn scaled_value(bits: u64) -> int {
    if is_negative(bits) {
        -scaled_magnitude(magnitude(bits))
    } else {
        scaled_magnitude(magnitude(bits))
    }
}

/// The key of a number: its magnitude, negated where the sign bit is set.
/// What is not a number has no key.
pub open spec fn spec_ordered_key(bits: u64) -> Option<i64> {
    if !is_number(bits) {
        None
    } else if is_negative(bits) {
        Some((-magnitude(bits)) as i64)
    } else {
        Some(magnitude(bits) as i64)
    }
}

/// Computes the key of the double-precision number with the given bits.
pub fn ordered_key(bits: u64) -> (key: Option<i64>)
    ensures
        key == spec_ordered_key(bits),
{
    let magnitude: u64 = bits % SIGN;
    if magnitude > INFINITY {
        None
    } else if bits >= SIGN {
        Some(-(magnitude as i64))
    } else {
        Some(magnitude as i64)
    }
}

/// `a` is below `b`, as numbers. Nothing is below, or has below it, what is
/// not a number.
pub open spec fn spec_less(a: u64, b: u64) -> bool {
    is_number(a) && is_number(b) && scaled_value(a) < scaled_value(b)
}

/// `a` is below or equal to `b`, as numbers. What is not a number is not
/// even equal to itself.
pub open spec fn spec_at_most(a: u64, b: u64) -> bool {
    is_number(a) && is_number(b) && scaled_value(a) <= scaled_value(b)
}

/// Compares two double-precision numbers, given by their bits, with `<`.
pub fn less(a: u64, b: u64) -> (below: bool)
    ensures
        below == spec_less(a, b),
{
    proof {
        if is_number(a) && is_number(b) {
            lemma_keys_order_as_values(a, b);
        }
    }
    match ordered_key(a) {
        Some(x) => match ordered_key(b) {
            Some(y) => x < y,
            None => false,
        },
        None => false,
    }
}

/// Compares two double-precision numbers, given by their bits, with `<=`.
pub fn at_most(a: u64, b: u64) -> (below: bool)
    ensures
        below == spec_at_most(a, b),
{
    proof {
        if is_number(a) && is_number(b) {
            lemma_keys_order_as_values(a, b);
        }
    }
    match ordered_key(a) {
        Some(x) => match ordered_key(b) {
            Some(y) => x <= y,
            None => false,
        },
        None => false,
    }
}

/// The bits of the opposite number: the same magnitude under the other sign.
pub open spec fn spec_negated(bits: u64) -> u64 {
    if bits >= SIGN {
        (bits - SIGN) as u64
    } else {
        (bits + SIGN) as u64
    }
}

/// Negates a double-precision number, given by its bits. What is not a
/// number stays so.
pub fn negated(bits: u64) -> (opposite: u64)
    ensures
        opposite == spec_negated(bits),
        magnitude(opposite) == magnitude(bits),
        is_negative(opposite) != is_negative(bits),
        is_number(opposite) == is_number(bits),
        scaled_value(opposite) == -scaled_value(bits),
{
    if bits >= SIGN {
        bits - SIGN
    } else {
        bits + SIGN
    }
}

/// The whole part of the value that the bits encode: the value rounded
/// toward zero. One is two to the power 1074 of the units in which values
/// are counted.
pub open spec fn spec_whole(bits: u64) -> int {
    let whole = scaled_magnitude(magnitude(bits)) / (pow2(1074) as int);
    if is_negative(bits) {
        -whole
    } else {
        whole
    }
}

/// The whole part of a number, limited to the range of `i16`; zero for what
/// is not a number.
pub open spec fn spec_to_i16(bits: u64) -> i16 {
    if !is_number(bits) {
        0i16
    } else if spec_whole(bits) < i16::MIN {
        i16::MIN
    } else if spec_whole(bits) > i16::MAX {
        i16::MAX
    } else {
        spec_whole(bits) as i16
    }
}

/// Two to the power `n`.
fn power_of_two(n: u64) -> (p: u64)
    requires
        n <= 62,
    ensures
        p == pow2(n as nat),
{
    let mut p: u64 = 1;
    let mut i: u64 = 0;
    proof {
        lemma2_to64();
        lemma2_to64_rest();
    }
    while i < n
        invariant
            i <= n <= 62,
            p == pow2(i as nat),
            p <= pow2(62),
        decreases n - i,
    {
        proof {
            lemma_pow2_unfold((i + 1) as nat);
            lemma2_to64_rest();
            if i + 1 < 62 {
                lemma_pow2_strictly_increases((i + 1) as nat, 62);
            }
        }
        p = p * 2;
        i = i + 1;
    }
    p
}

/// Dividing a multiple of a power of two by a higher power of two.
proof fn lemma_shifted_quotient(m: int, a: nat, b: nat)
    requires
        m >= 0,
    ensures
        (m * pow2(a)) / (pow2(a + b) as int) == m / (pow2(b) as int),
{
    lemma_pow2_adds(a, b);
    lemma_pow2_pos(a);
    lemma_pow2_pos(b);
    let pa = pow2(a) as int;
    let pb = pow2(b) as int;
    assert(m * pa >= 0) by (nonlinear_arith)
        requires
            m >= 0,
            pa > 0,
    ;
    lemma_div_denominator(m * pa, pa, pb);
    lemma_div_multiples_vanish(m, pa);
    assert(m * pa == pa * m) by (nonlinear_arith);
}

/// Converts a double-precision number, given by its bits, to an `i16`: the
/// value rounded toward zero, the nearest limit of `i16` where that is out
/// of range, and zero for what is not a number.
pub fn to_i16(bits: u64) -> (whole: i16)
    ensures
        whole == spec_to_i16(bits),
{
    let m: u64 = bits % SIGN;
    let negative = bits >= SIGN;
    if m > INFINITY {
        return 0;
    }
    let e: u64 = m / HIDDEN;
    let f: u64 = m % HIDDEN;
    let ghost scaled = scaled_magnitude(m as int);
    let ghost one = pow2(1074) as int;
    proof {
        lemma2_to64_rest();
        lemma_pow2_pos(1074);
        lemma_fundamental_div_mod(m as int, HIDDEN as int);
    }
    if e < 1023 {
        proof {
            if e == 0 {
                lemma_pow2_strictly_increases(52, 1074);
            } else {
                let p = pow2((e - 1) as nat) as int;
                lemma_pow2_pos((e - 1) as nat);
                lemma_pow2_adds(53, (e - 1) as nat);
                if 52 + e < 1074 {
                    lemma_pow2_strictly_increases((52 + e) as nat, 1074);
                }
                assert(0 <= (HIDDEN + f) * p < pow2(53) * p) by (nonlinear_arith)
                    requires
                        0 <= HIDDEN + f < pow2(53),
                        p > 0,
                ;
            }
            lemma_basic_div(scaled, one);
        }
        0
    } else if e >= 1038 {
        proof {
            let p = pow2((e - 1) as nat) as int;
            lemma_pow2_pos((e - 1) as nat);
            lemma_pow2_adds(52, (e - 1) as nat);
            lemma_pow2_adds(15, 1074);
            lemma2_to64();
            if 1089 < 51 + e {
                lemma_pow2_strictly_increases(1089, (51 + e) as nat);
            }
            assert(pow2(52) * p <= (HIDDEN + f) * p) by (nonlinear_arith)
                requires
                    pow2(52) <= HIDDEN + f,
                    p > 0,
            ;
            lemma_div_is_ordered(32768 * one, scaled, one);
            lemma_div_multiples_vanish(32768, one);
            assert(32768 * one == one * 32768) by (nonlinear_arith);
        }
        if negative {
            i16::MIN
        } else {
            i16::MAX
        }
    } else {
        let k: u64 = e - 1023;
        let d: u64 = power_of_two(52 - k);
        let w: u64 = (HIDDEN + f) / d;
        proof {
            lemma_shifted_quotient((HIDDEN + f) as int, (e - 1) as nat, (52 - k) as nat);
            lemma_pow2_strictly_increases(37, (52 - k) as nat);
            lemma2_to64_rest();
            lemma_div_is_ordered((HIDDEN + f) as int, pow2(53) as int - 1, d as int);
            assert((pow2(53) as int - 1) / (d as int) < 32768) by (nonlinear_arith)
                requires
                    d >= 0x4000000000,
                    pow2(53) == 0x20000000000000,
            ;
        }
        if negative {
            -(w as i16)
        } else {
            w as i16
        }
    }
}

/// A larger magnitude encodes a larger absolute value.
pub proof fn lemma_magnitude_order(m1: int, m2: int)
    requires
        0 <= m1 < m2,
    ensures
        0 <= scaled_magnitude(m1) < scaled_magnitude(m2),
{
    let h = HIDDEN as int;
    let e1 = m1 / h;
    let f1 = m1 % h;
    let e2 = m2 / h;
    let f2 = m2 % h;
    assert(m1 == h * e1 + f1 && 0 <= f1 < h) by {
        lemma_fundamental_div_mod(m1, h);
        lemma_mod_bound(m1, h);
    }
    assert(m2 == h * e2 + f2 && 0 <= f2 < h) by {
        lemma_fundamental_div_mod(m2, h);
        lemma_mod_bound(m2, h);
    }
    assert(0 <= e1 <= e2) by (nonlinear_arith)
        requires
            m1 == h * e1 + f1,
            m2 == h * e2 + f2,
            0 <= f1 < h,
            0 <= f2 < h,
            0 <= m1 < m2,
            h > 0,
    ;
    if e1 == e2 {
        assert(f1 < f2);
        if e1 > 0 {
            let p = pow2((e1 - 1) as nat) as int;
            lemma_pow2_pos((e1 - 1) as nat);
            assert(0 <= (h + f1) * p < (h + f2) * p) by (nonlinear_arith)
                requires
                    0 <= f1 < f2,
                    h > 0,
                    p > 0,
            ;
        }
    } else {
        let p2 = pow2((e2 - 1) as nat) as int;
        lemma_pow2_pos((e2 - 1) as nat);
        assert(h * p2 <= (h + f2) * p2) by (nonlinear_arith)
            requires
                0 <= f2,
                h > 0,
                p2 > 0,
        ;
        if e1 == 0 {
            assert(h <= h * p2) by (nonlinear_arith)
                requires
                    h > 0,
                    p2 >= 1,
            ;
        } else {
            let p1 = pow2((e1 - 1) as nat) as int;
            lemma_pow2_pos((e1 - 1) as nat);
            lemma_pow2_unfold(e1 as nat);
            if e1 < e2 - 1 {
                lemma_pow2_strictly_increases(e1 as nat, (e2 - 1) as nat);
            }
            assert(pow2(e1 as nat) <= p2);
            assert(0 <= (h + f1) * p1 < h * (2 * p1)) by (nonlinear_arith)
                requires
                    0 <= f1 < h,
                    p1 > 0,
            ;
            assert(h * (2 * p1) <= h * p2) by (nonlinear_arith)
                requires
                    2 * p1 <= p2,
                    h > 0,
            ;
        }
    }
}

/// Keys compare as the numbers do: of two numbers, the one with the smaller
/// key is the smaller, and equal keys mean equal values. The two zeros, equal
/// in value, share the key zero.
pub proof fn lemma_keys_order_as_values(a: u64, b: u64)
    requires
        is_number(a),
        is_number(b),
    ensures
        spec_ordered_key(a) is Some,
        spec_ordered_key(b) is Some,
        spec_ordered_key(a).unwrap() < spec_ordered_key(b).unwrap() <==> scaled_value(a)
            < scaled_value(b),
        spec_ordered_key(a).unwrap() == spec_ordered_key(b).unwrap() <==> scaled_value(a)
            == scaled_value(b),
{
    let ma = magnitude(a);
    let mb = magnitude(b);
    assert(scaled_magnitude(0) == 0);
    if ma > 0 {
        lemma_magnitude_order(0, ma);
    }
    if mb > 0 {
        lemma_magnitude_order(0, mb);
    }
    if ma < mb {
        lemma_magnitude_order(ma, mb);
    } else if mb < ma {
        lemma_magnitude_order(mb, ma);
    }
}

} // verus!
