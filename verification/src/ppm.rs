//! Plain-text raster encoding: a three-line header, then one line per image
//! row holding that row's pixels as decimal triplets.
//!
//! Every function appends to a byte buffer and says exactly which bytes it
//! appends; nothing here can fail.

use vstd::prelude::*;
use vstd::arithmetic::div_mod::lemma_fundamental_div_mod;
use vstd::arithmetic::power2::{lemma2_to64, lemma2_to64_rest, lemma_pow2_adds, lemma_pow2_pos, pow2};
use crate::double::{
    is_negative, magnitude, scaled_magnitude, scaled_value, spec_at_most, spec_less, spec_to_i16,
    spec_whole, to_i16,
};
use crate::image::Image;

verus! {

/// ASCII code of the decimal digit `d`.
pub open spec fn digit(d: nat) -> u8
    recommends
        d < 10,
{
    (48 + d) as u8
}

/// Decimal numeral of `n`, most significant digit first, without leading
/// zeros.
pub open spec fn decimal(n: nat) -> Seq<u8>
    decreases n,
{
    if n < 10 {
        seq![digit(n)]
    } else {
        decimal(n / 10).push(digit(n % 10))
    }
}

/// Decimal numeral of `n`, with a leading minus sign when `n` is negative.
pub open spec fn signed_decimal(n: int) -> Seq<u8> {
    if n < 0 {
        seq![45u8] + decimal((-n) as nat)
    } else {
        decimal(n as nat)
    }
}

/// The header: the magic line of a plain-text pixmap, a line with width and
/// height, and a line with the channel maximum `255`.
pub open spec fn header_text(width: int, height: int) -> Seq<u8> {
    seq![80u8, 51u8, 10u8] + signed_decimal(width) + seq![32u8] + signed_decimal(height)
        + seq![10u8, 50u8, 53u8, 53u8, 10u8]
}

/// One pixel: red, green and blue in decimal, each followed by a space.
pub open spec fn color_text(r: i16, g: i16, b: i16) -> Seq<u8> {
    signed_decimal(r as int) + seq![32u8] + signed_decimal(g as int) + seq![32u8] + signed_decimal(
        b as int,
    ) + seq![32u8]
}

/// Appends the decimal numeral of `n`.
fn push_decimal(w: &mut Vec<u8>, n: u32)
    ensures
        final(w)@ == old(w)@ + decimal(n as nat),
    decreases n,
{
    if n >= 10 {
        push_decimal(w, n / 10);
    }
    let low: u32 = n % 10;
    w.push(48u8 + low as u8);
    proof {
        if n >= 10 {
            assert(final(w)@ =~= old(w)@ + decimal((n / 10) as nat).push(digit((n % 10) as nat)));
        } else {
            assert(final(w)@ =~= old(w)@ + seq![digit(n as nat)]);
        }
    }
}

/// Appends the decimal numeral of `n`, signed.
fn push_signed(w: &mut Vec<u8>, n: i32)
    ensures
        final(w)@ == old(w)@ + signed_decimal(n as int),
{
    if n < 0 {
        w.push(45u8);
        let wide: i64 = -(n as i64);
        push_decimal(w, wide as u32);
        assert(final(w)@ =~= old(w)@ + (seq![45u8] + decimal((-n) as nat)));
    } else {
        push_decimal(w, n as u32);
    }
}

/// Appends the raster header for `img`.
pub fn header(w: &mut Vec<u8>, img: &Image)
    ensures
        final(w)@ == old(w)@ + header_text(img.width as int, img.height as int),
{
    w.push(80u8);
    w.push(51u8);
    w.push(10u8);
    push_signed(w, img.width);
    w.push(32u8);
    push_signed(w, img.height);
    w.push(10u8);
    w.push(50u8);
    w.push(53u8);
    w.push(53u8);
    w.push(10u8);
    assert(final(w)@ =~= old(w)@ + header_text(img.width as int, img.height as int));
}

/// Appends one pixel. Each channel is a double-precision number, given by
/// its bits and already scaled to the channel range; what is written is its
/// whole part.
pub fn write_color(w: &mut Vec<u8>, r: u64, g: u64, b: u64)
    ensures
        final(w)@ == old(w)@ + color_text(spec_to_i16(r), spec_to_i16(g), spec_to_i16(b)),
{
    push_signed(w, to_i16(r) as i32);
    w.push(32u8);
    push_signed(w, to_i16(g) as i32);
    w.push(32u8);
    push_signed(w, to_i16(b) as i32);
    w.push(32u8);
    assert(final(w)@ =~= old(w)@ + color_text(spec_to_i16(r), spec_to_i16(g), spec_to_i16(b)));
}

/// Bits of the number 256, one more than the channel maximum.
pub const CHANNEL_RANGE: u64 = 0x4070_0000_0000_0000;

/// A channel that is at least zero and below 256 is written as an integer
/// from 0 to 255.
pub proof fn lemma_channel_in_range(channel: u64)
    requires
        spec_at_most(0, channel),
        spec_less(channel, CHANNEL_RANGE),
    ensures
        0 <= spec_to_i16(channel) <= 255,
        spec_to_i16(channel) == spec_whole(channel),
{
    let one = pow2(1074) as int;
    let x = scaled_magnitude(magnitude(channel));
    lemma_pow2_pos(1074);
    lemma2_to64();
    lemma2_to64_rest();
    lemma_pow2_adds(52, 1030);
    lemma_pow2_adds(8, 1074);
    assert(magnitude(CHANNEL_RANGE) / 0x10_0000_0000_0000 == 1031);
    assert(magnitude(CHANNEL_RANGE) % 0x10_0000_0000_0000 == 0);
    assert(scaled_value(CHANNEL_RANGE) == 256 * one);
    assert(scaled_value(0) == 0);
    lemma_fundamental_div_mod(x, one);
    if is_negative(channel) {
        assert(x == 0);
    }
    assert(0 <= x / one < 256) by (nonlinear_arith)
        requires
            0 <= x < 256 * one,
            one > 0,
            x == one * (x / one) + (x % one),
            0 <= x % one < one,
    ;
}

/// Ends the current row with a line feed.
pub fn new_line(w: &mut Vec<u8>)
    ensures
        final(w)@ == old(w)@ + seq![10u8],
{
    w.push(10u8);
    assert(final(w)@ =~= old(w)@ + seq![10u8]);
}

} // verus!
