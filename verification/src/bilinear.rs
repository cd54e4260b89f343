//! Exact arithmetic behind bilinear resampling.
//!
//! A destination pixel `(row, col)` of a resample to `dw x dh` maps to the
//! fractional source coordinate `(col * (sw-1) / (dw-1), row * (sh-1) / (dh-1))`,
//! so that the corners of the destination land exactly on the corners of the
//! source. The coordinate is carried exactly as an integer part plus a
//! remainder over the denominator `dw-1` (resp. `dh-1`), and the blend
//! `a*(1-t) + b*t` of two samples at offset `t = n/d` is carried scaled by
//! `d`, so the final truncation to an integer channel value is a single exact
//! division.

use vstd::prelude::*;

verus! {

use vstd::arithmetic::div_mod::{
    lemma_div_multiples_vanish,
    lemma_div_by_multiple,
    lemma_mod_multiples_basic,
    lemma_fundamental_div_mod,
    lemma_fundamental_div_mod_converse,
    lemma_div_is_ordered,
    lemma_div_pos_is_pos,
    lemma_mod_bound,
    lemma_multiply_divide_lt,
};
use vstd::arithmetic::mul::{
    lemma_mul_inequality,
    lemma_mul_is_commutative,
    lemma_mul_is_associative,
    lemma_mul_strictly_positive,
    lemma_mul_nonnegative,
};

/// Integer part of the fractional source coordinate that destination index
/// `t` maps to: `floor(t * (src_dim - 1) / (dst_dim - 1))`.
pub open spec fn coord_base(t: int, src_dim: int, dst_dim: int) -> int {
    (t * (src_dim - 1)) / (dst_dim - 1)
}

/// Remainder of that division: the fractional offset from the integer
/// coordinate is `coord_rem / (dst_dim - 1)`.
pub open spec fn coord_rem(t: int, src_dim: int, dst_dim: int) -> int {
    (t * (src_dim - 1)) % (dst_dim - 1)
}

/// The blend `a*(1-t) + b*t` at offset `t = n/d`, scaled by `d` to stay in
/// the integers: `a*(d-n) + b*n`.
pub open spec fn lerp_num(a: int, b: int, n: int, d: int) -> int {
    a * (d - n) + b * n
}

/// The bilinear blend of four samples (top-left, top-right, bottom-left,
/// bottom-right) at horizontal offset `xn/xd` and vertical offset `yn/yd`,
/// truncated to an integer: two horizontal blends scaled by `xd`, one
/// vertical blend scaling further by `yd`, then one exact division.
pub open spec fn bilerp(
    tl: int,
    tr: int,
    bl: int,
    br: int,
    xn: int,
    xd: int,
    yn: int,
    yd: int,
) -> int {
    lerp_num(lerp_num(tl, tr, xn, xd), lerp_num(bl, br, xn, xd), yn, yd) / (xd * yd)
}

/// Byte offset of channel `c` of pixel `(x, y)` in a row-major interleaved
/// RGB buffer of width `w`.
pub open spec fn byte_index(w: int, x: int, y: int, c: int) -> int {
    (y * w + x) * 3 + c
}

/// The next coordinate toward the bottom-right neighbor, clamped so the last
/// row or column does not read out of bounds.
pub open spec fn clamp_succ(v: int, hi: int) -> int {
    if v + 1 <= hi {
        v + 1
    } else {
        hi
    }
}

/// Channel `c` of destination pixel `(row, col)` when a `sw x sh` RGB buffer
/// `pixels` is resampled to `dw x dh`.
pub open spec fn resampled_channel(
    pixels: Seq<u8>,
    sw: int,
    sh: int,
    dw: int,
    dh: int,
    row: int,
    col: int,
    c: int,
) -> int {
    let x0 = coord_base(col, sw, dw);
    let y0 = coord_base(row, sh, dh);
    let x1 = clamp_succ(x0, sw - 1);
    let y1 = clamp_succ(y0, sh - 1);
    bilerp(
        pixels[byte_index(sw, x0, y0, c)] as int,
        pixels[byte_index(sw, x1, y0, c)] as int,
        pixels[byte_index(sw, x0, y1, c)] as int,
        pixels[byte_index(sw, x1, y1, c)] as int,
        coord_rem(col, sw, dw),
        dw - 1,
        coord_rem(row, sh, dh),
        dh - 1,
    )
}

/// The same value addressed by a flat destination byte offset `i`, decoded as
/// channel `i % 3` of destination pixel number `i / 3`.
pub open spec fn resampled_at(
    pixels: Seq<u8>,
    sw: int,
    sh: int,
    dw: int,
    dh: int,
    i: int,
) -> int {
    resampled_channel(pixels, sw, sh, dw, dh, (i / 3) / dw, (i / 3) % dw, i % 3)
}

/// A byte offset built from an in-range pixel coordinate lies inside the
/// buffer.
pub proof fn lemma_byte_index_bounds(w: int, h: int, x: int, y: int, c: int)
    requires
        0 <= x < w,
        0 <= y < h,
        0 <= c < 3,
    ensures
        0 <= byte_index(w, x, y, c) < w * h * 3,
{
    assert(0 <= (y * w + x) * 3 + c < w * h * 3) by (nonlinear_arith)
        requires
            0 <= x < w,
            0 <= y < h,
            0 <= c < 3,
    ;
}

/// Encoding a pixel coordinate as a flat byte offset and decoding it again
/// round-trips.
pub proof fn lemma_byte_index_decode(w: int, row: int, col: int, c: int)
    requires
        1 <= w,
        0 <= row,
        0 <= col < w,
        0 <= c < 3,
    ensures
        byte_index(w, col, row, c) / 3 == row * w + col,
        byte_index(w, col, row, c) % 3 == c,
        (row * w + col) / w == row,
        (row * w + col) % w == col,
{
    lemma_fundamental_div_mod_converse((row * w + col) * 3 + c, 3, row * w + col, c);
    lemma_mul_is_commutative(row, w);
    lemma_fundamental_div_mod_converse(row * w + col, w, row, col);
}

/// The mapped source coordinate of an in-range destination index stays inside
/// the source: its integer part is at most `src_dim - 1`, and when the index
/// is the last one (`dst_dim - 1`) it is exactly `src_dim - 1` with no
/// fractional part.
pub proof fn lemma_coord_bounds(t: int, src_dim: int, dst_dim: int)
    requires
        1 <= src_dim,
        2 <= dst_dim,
        0 <= t <= dst_dim - 1,
    ensures
        0 <= coord_base(t, src_dim, dst_dim) <= src_dim - 1,
        0 <= coord_rem(t, src_dim, dst_dim) < dst_dim - 1,
        t == 0 ==> coord_base(t, src_dim, dst_dim) == 0 && coord_rem(t, src_dim, dst_dim) == 0,
        t == dst_dim - 1 ==> coord_base(t, src_dim, dst_dim) == src_dim - 1 && coord_rem(
            t,
            src_dim,
            dst_dim,
        ) == 0,
{
    let d = dst_dim - 1;
    lemma_mul_nonnegative(t, src_dim - 1);
    lemma_div_pos_is_pos(t * (src_dim - 1), d);
    lemma_mul_inequality(t, d, src_dim - 1);
    lemma_div_is_ordered(t * (src_dim - 1), d * (src_dim - 1), d);
    lemma_div_multiples_vanish(src_dim - 1, d);
    assert(coord_rem(t, src_dim, dst_dim) == (t * (src_dim - 1)) % d);
    vstd::arithmetic::div_mod::lemma_mod_division_less_than_divisor(t * (src_dim - 1), d);
    if t == 0 {
        lemma_div_by_multiple(0, d);
        lemma_mod_multiples_basic(0, d);
    }
    if t == d {
        lemma_mod_multiples_basic(src_dim - 1, d);
        lemma_mul_is_commutative(src_dim - 1, d);
    }
}

/// A bilinear blend of samples in `0..=255`, with both offsets proper
/// fractions, stays in `0..=255`; the two scaled horizontal blends stay in
/// `0..=255*xd`.
pub proof fn lemma_bilerp_bounds(
    tl: int,
    tr: int,
    bl: int,
    br: int,
    xn: int,
    xd: int,
    yn: int,
    yd: int,
)
    requires
        0 <= tl <= 255,
        0 <= tr <= 255,
        0 <= bl <= 255,
        0 <= br <= 255,
        0 <= xn < xd,
        0 <= yn < yd,
    ensures
        0 <= lerp_num(tl, tr, xn, xd) <= 255 * xd,
        0 <= lerp_num(bl, br, xn, xd) <= 255 * xd,
        0 <= lerp_num(lerp_num(tl, tr, xn, xd), lerp_num(bl, br, xn, xd), yn, yd) <= 255 * (xd
            * yd),
        0 <= bilerp(tl, tr, bl, br, xn, xd, yn, yd) <= 255,
{
    let top = lerp_num(tl, tr, xn, xd);
    let bot = lerp_num(bl, br, xn, xd);
    assert(0 <= top <= 255 * xd && 0 <= bot <= 255 * xd) by (nonlinear_arith)
        requires
            0 <= tl <= 255,
            0 <= tr <= 255,
            0 <= bl <= 255,
            0 <= br <= 255,
            0 <= xn < xd,
            top == tl * (xd - xn) + tr * xn,
            bot == bl * (xd - xn) + br * xn,
    ;
    let num = lerp_num(top, bot, yn, yd);
    assert(0 <= num <= 255 * (xd * yd)) by (nonlinear_arith)
        requires
            0 <= top <= 255 * xd,
            0 <= bot <= 255 * xd,
            0 <= yn < yd,
            num == top * (yd - yn) + bot * yn,
    ;
    lemma_mul_strictly_positive(xd, yd);
    lemma_div_pos_is_pos(num, xd * yd);
    lemma_div_is_ordered(num, 255 * (xd * yd), xd * yd);
    lemma_div_multiples_vanish(255, xd * yd);
    lemma_mul_is_commutative(xd * yd, 255);
}

/// Resampling at the source's own dimensions is the identity: with both
/// scale factors equal to 1 every destination pixel maps onto a source pixel
/// with zero fractional offset, and the blend returns that sample exactly.
pub proof fn lemma_resample_identity(
    pixels: Seq<u8>,
    sw: int,
    sh: int,
    row: int,
    col: int,
    c: int,
)
    requires
        2 <= sw,
        2 <= sh,
        0 <= row < sh,
        0 <= col < sw,
        0 <= c < 3,
        pixels.len() == sw * sh * 3,
    ensures
        resampled_channel(pixels, sw, sh, sw, sh, row, col, c) == pixels[byte_index(
            sw,
            col,
            row,
            c,
        )] as int,
{
    lemma_div_by_multiple(col, sw - 1);
    lemma_mod_multiples_basic(col, sw - 1);
    lemma_div_by_multiple(row, sh - 1);
    lemma_mod_multiples_basic(row, sh - 1);
    assert(coord_base(col, sw, sw) == col && coord_rem(col, sw, sw) == 0);
    assert(coord_base(row, sh, sh) == row && coord_rem(row, sh, sh) == 0);
    lemma_bilerp_at_zero_offset(
        pixels[byte_index(sw, col, row, c)] as int,
        pixels[byte_index(sw, clamp_succ(col, sw - 1), row, c)] as int,
        pixels[byte_index(sw, col, clamp_succ(row, sh - 1), c)] as int,
        pixels[byte_index(sw, clamp_succ(col, sw - 1), clamp_succ(row, sh - 1), c)] as int,
        sw - 1,
        sh - 1,
    );
}

/// With zero fractional offsets the bilinear blend is exactly the top-left
/// sample, whatever the other three are.
pub proof fn lemma_bilerp_at_zero_offset(tl: int, tr: int, bl: int, br: int, xd: int, yd: int)
    requires
        1 <= xd,
        1 <= yd,
        0 <= tl,
    ensures
        bilerp(tl, tr, bl, br, 0, xd, 0, yd) == tl,
{
    assert(lerp_num(tl, tr, 0, xd) == tl * xd);
    assert(lerp_num(lerp_num(tl, tr, 0, xd), lerp_num(bl, br, 0, xd), 0, yd) == (tl * xd) * yd);
    lemma_mul_is_associative(tl, xd, yd);
    lemma_mul_strictly_positive(xd, yd);
    lemma_mul_is_commutative(xd * yd, tl);
    lemma_div_by_multiple(tl, xd * yd);
}

/// Identity resample over the whole buffer: at the source's own dimensions
/// every byte of the destination is the corresponding source byte, so the
/// resample reproduces the pixel buffer exactly.
pub proof fn lemma_resample_identity_buffer(pixels: Seq<u8>, sw: int, sh: int)
    requires
        2 <= sw,
        2 <= sh,
        pixels.len() == sw * sh * 3,
    ensures
        forall|i: int|
            0 <= i < pixels.len() ==> resampled_at(pixels, sw, sh, sw, sh, i) == pixels[i] as int,
{
    assert forall|i: int| 0 <= i < pixels.len() implies resampled_at(pixels, sw, sh, sw, sh, i)
        == pixels[i] as int by {
        let pi = i / 3;
        let c = i % 3;
        let row = pi / sw;
        let col = pi % sw;
        lemma_mod_bound(i, 3);
        lemma_fundamental_div_mod(i, 3);
        assert(pi < sw * sh);
        lemma_mod_bound(pi, sw);
        lemma_fundamental_div_mod(pi, sw);
        lemma_mul_is_commutative(sh, sw);
        lemma_multiply_divide_lt(pi, sw, sh);
        lemma_div_pos_is_pos(pi, sw);
        lemma_mul_is_commutative(sw, row);
        assert(byte_index(sw, col, row, c) == i);
        lemma_resample_identity(pixels, sw, sh, row, col, c);
    }
}

/// Corner preservation: the first destination pixel is exactly the first
/// source pixel, and the last destination pixel (bottom-right corner) is
/// exactly the last source pixel, for every channel.
pub proof fn lemma_resample_corners(
    pixels: Seq<u8>,
    sw: int,
    sh: int,
    dw: int,
    dh: int,
    c: int,
)
    requires
        1 <= sw,
        1 <= sh,
        2 <= dw,
        2 <= dh,
        0 <= c < 3,
        pixels.len() == sw * sh * 3,
    ensures
        resampled_channel(pixels, sw, sh, dw, dh, 0, 0, c) == pixels[byte_index(
            sw,
            0,
            0,
            c,
        )] as int,
        resampled_channel(pixels, sw, sh, dw, dh, dh - 1, dw - 1, c) == pixels[byte_index(
            sw,
            sw - 1,
            sh - 1,
            c,
        )] as int,
{
    lemma_coord_bounds(0, sw, dw);
    lemma_coord_bounds(0, sh, dh);
    lemma_coord_bounds(dw - 1, sw, dw);
    lemma_coord_bounds(dh - 1, sh, dh);
    lemma_bilerp_at_zero_offset(
        pixels[byte_index(sw, 0, 0, c)] as int,
        pixels[byte_index(sw, clamp_succ(0, sw - 1), 0, c)] as int,
        pixels[byte_index(sw, 0, clamp_succ(0, sh - 1), c)] as int,
        pixels[byte_index(sw, clamp_succ(0, sw - 1), clamp_succ(0, sh - 1), c)] as int,
        dw - 1,
        dh - 1,
    );
    lemma_bilerp_at_zero_offset(
        pixels[byte_index(sw, sw - 1, sh - 1, c)] as int,
        pixels[byte_index(sw, clamp_succ(sw - 1, sw - 1), sh - 1, c)] as int,
        pixels[byte_index(sw, sw - 1, clamp_succ(sh - 1, sh - 1), c)] as int,
        pixels[byte_index(sw, clamp_succ(sw - 1, sw - 1), clamp_succ(sh - 1, sh - 1), c)] as int,
        dw - 1,
        dh - 1,
    );
}

} // verus!
