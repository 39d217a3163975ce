//! The generator behind sampling jitter and scatter directions.
//!
//! A linear congruential generator on 64 bits. Its draws are functions of
//! the seed alone, so a pass with a given seed can be repeated exactly. A
//! draw is an integer below two to the power 53; as a fraction of that range
//! it is a double-precision number in `[0, 1)`, which is handed out by its
//! bits.

use vstd::prelude::*;
use vstd::arithmetic::div_mod::{lemma_fundamental_div_mod_converse, lemma_small_mod};
use vstd::arithmetic::power2::{
    lemma2_to64, lemma2_to64_rest, lemma_pow2_adds, lemma_pow2_pos, lemma_pow2_strictly_increases,
    lemma_pow2_unfold, pow2,
};
use crate::double::{is_negative, is_number, scaled_value, HIDDEN};

verus! {

/// Multiplier of the recurrence.
pub const MULTIPLIER: u64 = 6364136223846793005;

/// Increment of the recurrence.
pub const INCREMENT: u64 = 1442695040888963407;

/// Number of values that a draw can take: two to the power 53.
pub const DRAW_RANGE: u64 = 9007199254740992;

/// The state that follows `state`.
pub open spec fn spec_advance(state: u64) -> u64 {
    ((state * MULTIPLIER + INCREMENT) % 0x1_0000_0000_0000_0000) as u64
}

/// The draw that a state gives: its upper 53 bits.
pub open spec fn spec_draw(state: u64) -> u64 {
    state / 2048
}

/// The value of the fraction `draw / DRAW_RANGE`, in the units in which the
/// values of double-precision numbers are counted, two to the power minus
/// 1074 each.
pub open spec fn spec_fraction_value(draw: u64) -> int {
    draw * pow2(1021)
}

/// Gives the double-precision number `draw / DRAW_RANGE` by its bits. Every
/// such fraction is a double-precision number exactly, so nothing is rounded.
pub fn fraction(draw: u64) -> (bits: u64)
    requires
        draw < DRAW_RANGE,
    ensures
        is_number(bits),
        !is_negative(bits),
        scaled_value(bits) == spec_fraction_value(draw),
        0 <= scaled_value(bits) < pow2(1074),
{
    proof {
        lemma2_to64();
        lemma2_to64_rest();
        lemma_pow2_adds(53, 1021);
        lemma_pow2_pos(1021);
        assert(0 <= draw * pow2(1021) < pow2(53) * pow2(1021)) by (nonlinear_arith)
            requires
                0 <= draw < pow2(53),
                pow2(1021) > 0,
        ;
    }
    if draw == 0 {
        assert(0u64 / HIDDEN == 0 && 0u64 % HIDDEN == 0);
        return 0;
    }
    let mut m: u64 = draw;
    let mut s: u64 = 0;
    while m < HIDDEN
        invariant
            0 < m < DRAW_RANGE,
            s <= 52,
            m == draw * pow2(s as nat),
            draw >= 1,
        decreases 52 - s,
    {
        proof {
            lemma2_to64_rest();
            lemma_pow2_unfold((s + 1) as nat);
            lemma_pow2_pos(s as nat);
            assert(draw * (2 * pow2(s as nat)) == 2 * (draw * pow2(s as nat))) by (nonlinear_arith);
            if s >= 52 {
                if s > 52 {
                    lemma_pow2_strictly_increases(52, s as nat);
                }
                assert(draw * pow2(s as nat) >= pow2(s as nat)) by (nonlinear_arith)
                    requires
                        draw >= 1,
                        pow2(s as nat) > 0,
                ;
            }
        }
        m = m * 2;
        s = s + 1;
    }
    let e: u64 = 1022 - s;
    let bits: u64 = e * HIDDEN + (m - HIDDEN);
    proof {
        let h = HIDDEN as int;
        lemma_fundamental_div_mod_converse(bits as int, h, e as int, (m - HIDDEN) as int);
        lemma_small_mod(bits as nat, 0x8000_0000_0000_0000);
        lemma_pow2_adds(s as nat, (1021 - s) as nat);
        assert(m * pow2((e - 1) as nat) == draw * pow2(1021)) by (nonlinear_arith)
            requires
                m == draw * pow2(s as nat),
                pow2(s as nat) * pow2((e - 1) as nat) == pow2(1021),
        ;
    }
    bits
}

/// A source of uniform draws.
#[derive(Clone, Copy, Debug)]
pub struct Random {
    state: u64,
}

impl Random {
    /// The generator's state.
    pub closed spec fn state(&self) -> u64 {
        self.state
    }

    /// A generator started from `seed`.
    pub fn new(seed: u64) -> (rng: Random)
        ensures
            rng.state() == seed,
    {
        Random { state: seed }
    }

    /// Advances the generator and returns a draw below `DRAW_RANGE`; the
    /// draw divided by `DRAW_RANGE` is a fraction in `[0, 1)`.
    pub fn next_draw(&mut self) -> (draw: u64)
        ensures
            final(self).state() == spec_advance(old(self).state()),
            draw == spec_draw(final(self).state()),
            draw < DRAW_RANGE,
    {
        let next: u64 = self.state.wrapping_mul(MULTIPLIER).wrapping_add(INCREMENT);
        proof {
            let m = 0x1_0000_0000_0000_0000int;
            let a = self.state as int * MULTIPLIER as int;
            assert(next as int == ((a % m) + INCREMENT as int) % m);
            assert(((a % m) + INCREMENT as int) % m == (a + INCREMENT as int) % m) by {
                vstd::arithmetic::div_mod::lemma_add_mod_noop(a, INCREMENT as int, m);
                lemma_small_mod(INCREMENT as nat, m as nat);
            }
        }
        self.state = next;
        next / 2048
    }

    /// Advances the generator and returns a uniform double-precision number
    /// in `[0, 1)`, by its bits: the draw as a fraction of `DRAW_RANGE`.
    pub fn normal_random(&mut self) -> (bits: u64)
        ensures
            final(self).state() == spec_advance(old(self).state()),
            is_number(bits),
            !is_negative(bits),
            scaled_value(bits) == spec_fraction_value(spec_draw(final(self).state())),
            0 <= scaled_value(bits) < pow2(1074),
    {
        let draw = self.next_draw();
        fraction(draw)
    }
}

} // verus!
