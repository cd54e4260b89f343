//! Exact arithmetic behind the duotone mapping: channel extraction from a
//! packed `0xRRGGBB` color, the scaled luminance of a pixel, and the linear
//! blend of the two gradient endpoints at that luminance.
//!
//! Luminance is the standard perceptual weighting
//! `(0.30*R + 0.59*G + 0.11*B) / 255`. All arithmetic here is carried out
//! exactly over integers: the luminance is kept scaled by `25500`
//! (`100 * 255`), so a blend `low*(1-L) + high*L` truncated to an integer is
//! `(low*(25500-L') + high*L') / 25500` with `L'` the scaled luminance.

use vstd::prelude::*;

verus! {

/// Red channel of a packed `0xRRGGBB` color.
pub open spec fn red_of(color: u32) -> u32 {
    (color >> 16) & 0xff
}

/// Green channel of a packed `0xRRGGBB` color.
pub open spec fn green_of(color: u32) -> u32 {
    (color >> 8) & 0xff
}

/// Blue channel of a packed `0xRRGGBB` color.
pub open spec fn blue_of(color: u32) -> u32 {
    color & 0xff
}

/// Luminance of an RGB pixel, scaled by `25500`: exactly
/// `25500 * (0.30*r + 0.59*g + 0.11*b) / 255`.
pub open spec fn luma_num(r: u8, g: u8, b: u8) -> int {
    30 * r + 59 * g + 11 * b
}

/// One channel of the duotone blend: `low*(1-L) + high*L` truncated, with
/// `L = luma / 25500` carried exactly as a rational.
pub open spec fn duo_channel(low: int, high: int, luma: int) -> int {
    (low * (25500 - luma) + high * luma) / 25500
}

/// Extracts the channel byte of a packed color at a given shift
/// (16 for red, 8 for green, 0 for blue).
pub fn channel_byte(color: u32, shift: u32) -> (r: u32)
    requires
        shift == 16 || shift == 8 || shift == 0,
    ensures
        r <= 255,
        shift == 16 ==> r == red_of(color),
        shift == 8 ==> r == green_of(color),
        shift == 0 ==> r == blue_of(color),
{
    proof {
        assert((color >> shift) & 0xff <= 255) by (bit_vector);
        assert((color >> 0u32) & 0xff == color & 0xff) by (bit_vector);
    }
    (color >> shift) & 0xff
}

/// Computes one duotone output channel in exact integer arithmetic.
pub fn duo_apply(low: u32, high: u32, luma: u32) -> (r: u8)
    requires
        low <= 255,
        high <= 255,
        luma <= 25500,
    ensures
        r as int == duo_channel(low as int, high as int, luma as int),
{
    proof {
        assert(low * (25500 - luma) + high * luma <= 255 * 25500) by (nonlinear_arith)
            requires
                low <= 255,
                high <= 255,
                luma <= 25500,
        ;
    }
    let num: u32 = low * (25500 - luma) + high * luma;
    proof {
        vstd::arithmetic::div_mod::lemma_div_is_ordered(num as int, 255int * 25500, 25500);
    }
    (num / 25500) as u8
}

/// At luminance 0 (a black input pixel) the blend is exactly the low
/// endpoint's channel; at full luminance (a white input pixel) it is exactly
/// the high endpoint's channel.
pub proof fn lemma_duotone_boundary(low: int, high: int)
    requires
        0 <= low <= 255,
        0 <= high <= 255,
    ensures
        duo_channel(low, high, luma_num(0, 0, 0)) == low,
        duo_channel(low, high, luma_num(255, 255, 255)) == high,
{
    assert(luma_num(0, 0, 0) == 0);
    assert(luma_num(255, 255, 255) == 25500);
    assert((low * 25500 + high * 0) / 25500 == low) by (nonlinear_arith)
        requires
            0 <= low,
    ;
    assert((low * 0 + high * 25500) / 25500 == high) by (nonlinear_arith)
        requires
            0 <= high,
    ;
}

/// When both gradient endpoints share a channel value, the blend collapses to
/// that value at every luminance: a repeated identical gradient is a
/// constant map.
pub proof fn lemma_duotone_constant(c: int, luma: int)
    requires
        0 <= c <= 255,
        0 <= luma <= 25500,
    ensures
        duo_channel(c, c, luma) == c,
{
    assert((c * (25500 - luma) + c * luma) / 25500 == c) by (nonlinear_arith)
        requires
            0 <= c,
            0 <= luma <= 25500,
    ;
}

/// With the gradient running from black (`0x000000`) to white (`0xFFFFFF`)
/// the duotone map is a pure grayscale conversion: every output channel is
/// the same value, `255 * L` truncated, with `L` the pixel's luminance.
pub proof fn lemma_duotone_grayscale(r: u8, g: u8, b: u8)
    ensures
        duo_channel(red_of(0x000000) as int, red_of(0xFFFFFF) as int, luma_num(r, g, b)) == (255
            * luma_num(r, g, b)) / 25500,
        duo_channel(green_of(0x000000) as int, green_of(0xFFFFFF) as int, luma_num(r, g, b)) == (
        255 * luma_num(r, g, b)) / 25500,
        duo_channel(blue_of(0x000000) as int, blue_of(0xFFFFFF) as int, luma_num(r, g, b)) == (255
            * luma_num(r, g, b)) / 25500,
{
    assert((0x000000u32 >> 16) & 0xff == 0 && (0x000000u32 >> 8) & 0xff == 0 && 0x000000u32 & 0xff
        == 0) by (bit_vector);
    assert((0xFFFFFFu32 >> 16) & 0xff == 255 && (0xFFFFFFu32 >> 8) & 0xff == 255 && 0xFFFFFFu32
        & 0xff == 255) by (bit_vector);
}

} // verus!
