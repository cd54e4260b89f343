//! The raster transform engine: an owned buffer of interleaved 8-bit RGB
//! triples with its dimensions, resampled by bilinear interpolation and
//! remapped onto a two-color gradient by luminance.

use vstd::prelude::*;

verus! {

use crate::TransformError;
use crate::bilinear::{
    coord_base,
    coord_rem,
    lerp_num,
    bilerp,
    byte_index,
    clamp_succ,
    resampled_channel,
    resampled_at,
    lemma_byte_index_bounds,
    lemma_byte_index_decode,
    lemma_coord_bounds,
    lemma_bilerp_bounds,
};
use crate::duotone::{
    red_of,
    green_of,
    blue_of,
    luma_num,
    duo_channel,
    channel_byte,
    duo_apply,
};
use vstd::arithmetic::mul::{
    lemma_mul_nonnegative,
    lemma_mul_upper_bound,
    lemma_mul_is_associative,
};

/// Holds a destination pixel exactly when it carries the duotone blend of the
/// corresponding source pixel: each channel is the gradient endpoint blend at
/// the source pixel's luminance, with endpoints unpacked from the packed
/// `0xRRGGBB` colors `upper` (luminance 1) and `lower` (luminance 0).
pub open spec fn duotone_maps_pixel(
    src: Seq<u8>,
    dst: Seq<u8>,
    p: int,
    upper: u32,
    lower: u32,
) -> bool {
    let lum = luma_num(src[3 * p], src[3 * p + 1], src[3 * p + 2]);
    &&& dst[3 * p] as int == duo_channel(red_of(lower) as int, red_of(upper) as int, lum)
    &&& dst[3 * p + 1] as int == duo_channel(green_of(lower) as int, green_of(upper) as int, lum)
    &&& dst[3 * p + 2] as int == duo_channel(blue_of(lower) as int, blue_of(upper) as int, lum)
}

/// An RGB raster of `width * height` pixels, stored row-major as
/// `width * height * 3` interleaved bytes. Methods are meant to be chained to
/// perform manipulations of the image source.
#[derive(Debug)]
pub struct Thumbnail {
    data: Vec<u8>,
    width: usize,
    height: usize,
}

impl Thumbnail {
    /// The raster's width in pixels.
    pub closed spec fn spec_width(&self) -> usize {
        self.width
    }

    /// The raster's height in pixels.
    pub closed spec fn spec_height(&self) -> usize {
        self.height
    }

    /// The pixel bytes, row-major, channels interleaved as R, G, B.
    pub closed spec fn pixels(&self) -> Seq<u8> {
        self.data@
    }

    /// The raster invariant: positive dimensions and a buffer of exactly
    /// `width * height * 3` bytes, so that channel `c` of pixel `(row, col)`
    /// lives at byte `(row * width + col) * 3 + c`.
    pub open spec fn wf(&self) -> bool {
        &&& 1 <= self.spec_width()
        &&& 1 <= self.spec_height()
        &&& self.pixels().len() == self.spec_width() * self.spec_height() * 3
    }

    /// Creates a zero-filled (black) raster of the given dimensions.
    pub fn new(width: usize, height: usize) -> (r: Thumbnail)
        requires
            1 <= width,
            1 <= height,
            width * height * 3 <= usize::MAX,
        ensures
            r.wf(),
            r.spec_width() == width,
            r.spec_height() == height,
            forall|i: int| 0 <= i < r.pixels().len() ==> r.pixels()[i] == 0u8,
    {
        proof {
            lemma_mul_nonnegative(width as int, height as int);
        }
        let n: usize = width * height * 3;
        let mut data: Vec<u8> = Vec::new();
        while data.len() < n
            invariant
                data@.len() <= n,
                forall|i: int| 0 <= i < data@.len() ==> data@[i] == 0u8,
            decreases n - data@.len(),
        {
            data.push(0u8);
        }
        Thumbnail { data, width, height }
    }

    /// Takes ownership of an externally decoded byte sequence, validating the
    /// dimensions and the buffer length before accepting it.
    pub fn from_byte_arr(width: usize, height: usize, data: Vec<u8>) -> (r: Result<
        Thumbnail,
        TransformError,
    >)
        ensures
            match r {
                Ok(t) => {
                    &&& 1 <= width && 1 <= height
                    &&& data@.len() == width * height * 3
                    &&& t.wf()
                    &&& t.spec_width() == width
                    &&& t.spec_height() == height
                    &&& t.pixels() == data@
                },
                Err(e) => {
                    &&& (e == TransformError::InvalidDimension <==> (width == 0 || height == 0))
                    &&& (e == TransformError::MalformedBuffer <==> (width >= 1 && height >= 1
                        && data@.len() != width * height * 3))
                },
            },
    {
        if width == 0 || height == 0 {
            return Err(TransformError::InvalidDimension);
        }
        let len = data.len();
        proof {
            lemma_mul_nonnegative(width as int, height as int);
        }
        match width.checked_mul(height) {
            None => Err(TransformError::MalformedBuffer),
            Some(p) => match p.checked_mul(3) {
                None => Err(TransformError::MalformedBuffer),
                Some(n) => {
                    if len != n {
                        Err(TransformError::MalformedBuffer)
                    } else {
                        Ok(Thumbnail { data, width, height })
                    }
                },
            },
        }
    }

    /// Reads channel `c` of source pixel `(x, y)`.
    fn sample(&self, x: usize, y: usize, c: usize) -> (r: u8)
        requires
            self.wf(),
            x < self.spec_width(),
            y < self.spec_height(),
            c < 3,
        ensures
            r == self.pixels()[byte_index(self.spec_width() as int, x as int, y as int, c as int)],
    {
        proof {
            lemma_byte_index_bounds(
                self.spec_width() as int,
                self.spec_height() as int,
                x as int,
                y as int,
                c as int,
            );
            assert(self.data.len() == self.pixels().len());
        }
        self.data[(y * self.width + x) * 3 + c]
    }

    /// Resamples the raster to the given dimensions by bilinear
    /// interpolation, leaving the source unchanged. The scale factors are
    /// `(src_dim - 1) / (dst_dim - 1)`, so corner pixels map exactly onto
    /// corner pixels; a target width or height below 2 would put a zero in
    /// that denominator and is rejected as `InvalidDimension` before any
    /// pixel work.
    pub fn resize_image(&self, width: usize, height: usize) -> (r: Result<
        Thumbnail,
        TransformError,
    >)
        requires
            self.wf(),
            width * height * 3 <= usize::MAX,
        ensures
            match r {
                Ok(out) => {
                    &&& 2 <= width && 2 <= height
                    &&& out.wf()
                    &&& out.spec_width() == width
                    &&& out.spec_height() == height
                    &&& forall|row: int, col: int, c: int|
                        0 <= row < height && 0 <= col < width && 0 <= c < 3
                            ==> out.pixels()[byte_index(width as int, col, row, c)] as int
                            == resampled_channel(
                            self.pixels(),
                            self.spec_width() as int,
                            self.spec_height() as int,
                            width as int,
                            height as int,
                            row,
                            col,
                            c,
                        )
                },
                Err(e) => e == TransformError::InvalidDimension && (width < 2 || height < 2),
            },
    {
        if width < 2 || height < 2 {
            return Err(TransformError::InvalidDimension);
        }
        let ghost src = self.pixels();
        let ghost swi = self.spec_width() as int;
        let ghost shi = self.spec_height() as int;
        let ghost wi = width as int;
        let ghost hi = height as int;
        proof {
            lemma_mul_nonnegative(wi, hi);
            lemma_mul_upper_bound(wi - 1, wi, hi - 1, hi);
        }
        let mut data: Vec<u8> = Vec::new();
        let mut row: usize = 0;
        while row < height
            invariant
                self.wf(),
                2 <= width,
                2 <= height,
                width * height * 3 <= usize::MAX,
                src == self.pixels(),
                swi == self.spec_width() as int,
                shi == self.spec_height() as int,
                wi == width as int,
                hi == height as int,
                row <= height,
                data@.len() == row * width * 3,
                forall|i: int|
                    0 <= i < data@.len() ==> data@[i] as int == resampled_at(
                        src,
                        swi,
                        shi,
                        wi,
                        hi,
                        i,
                    ),
            decreases height - row,
        {
            let (y0, yn) = Self::coord(row, self.height, height);
            let y1 = if y0 + 1 <= self.height - 1 {
                y0 + 1
            } else {
                self.height - 1
            };
            let mut col: usize = 0;
            while col < width
                invariant
                    self.wf(),
                    2 <= width,
                    2 <= height,
                    width * height * 3 <= usize::MAX,
                    src == self.pixels(),
                    swi == self.spec_width() as int,
                    shi == self.spec_height() as int,
                    wi == width as int,
                    hi == height as int,
                    row < height,
                    col <= width,
                    y0 as int == coord_base(row as int, shi, hi),
                    yn as int == coord_rem(row as int, shi, hi),
                    y0 < self.spec_height(),
                    y1 as int == clamp_succ(y0 as int, shi - 1),
                    y1 < self.spec_height(),
                    yn < (height - 1) as u128,
                    data@.len() == (row * width + col) * 3,
                    forall|i: int|
                        0 <= i < data@.len() ==> data@[i] as int == resampled_at(
                            src,
                            swi,
                            shi,
                            wi,
                            hi,
                            i,
                        ),
                decreases width - col,
            {
                let (x0, xn) = Self::coord(col, self.width, width);
                let x1 = if x0 + 1 <= self.width - 1 {
                    x0 + 1
                } else {
                    self.width - 1
                };
                proof {
                    assert((row * width + col) * 3 + 3 <= width * height * 3) by (nonlinear_arith)
                        requires
                            0 <= row < height,
                            0 <= col < width,
                    ;
                    lemma_mul_upper_bound(wi - 1, wi, hi - 1, hi);
                }
                let mut c: usize = 0;
                while c < 3
                    invariant
                        self.wf(),
                        2 <= width,
                        2 <= height,
                        width * height * 3 <= usize::MAX,
                        src == self.pixels(),
                        swi == self.spec_width() as int,
                        shi == self.spec_height() as int,
                        wi == width as int,
                        hi == height as int,
                        row < height,
                        col < width,
                        c <= 3,
                        x0 as int == coord_base(col as int, swi, wi),
                        xn as int == coord_rem(col as int, swi, wi),
                        y0 as int == coord_base(row as int, shi, hi),
                        yn as int == coord_rem(row as int, shi, hi),
                        x0 < self.spec_width(),
                        y0 < self.spec_height(),
                        x1 as int == clamp_succ(x0 as int, swi - 1),
                        y1 as int == clamp_succ(y0 as int, shi - 1),
                        x1 < self.spec_width(),
                        y1 < self.spec_height(),
                        xn < (width - 1) as u128,
                        yn < (height - 1) as u128,
                        data@.len() == (row * width + col) * 3 + c,
                        (row * width + col) * 3 + 3 <= width * height * 3,
                        forall|i: int|
                            0 <= i < data@.len() ==> data@[i] as int == resampled_at(
                                src,
                                swi,
                                shi,
                                wi,
                                hi,
                                i,
                            ),
                    decreases 3 - c,
                {
                    let tl = self.sample(x0, y0, c);
                    let tr = self.sample(x1, y0, c);
                    let bl = self.sample(x0, y1, c);
                    let br = self.sample(x1, y1, c);
                    proof {
                        lemma_mul_nonnegative(wi, hi);
                        lemma_mul_upper_bound(wi - 1, wi, hi - 1, hi);
                        assert((wi - 1) * (hi - 1) * 255 <= u128::MAX);
                    }
                    let v = Self::blend_channel(
                        tl,
                        tr,
                        bl,
                        br,
                        xn,
                        (width - 1) as u128,
                        yn,
                        (height - 1) as u128,
                    );
                    proof {
                        let i = data@.len() as int;
                        lemma_byte_index_decode(wi, row as int, col as int, c as int);
                        assert(i == byte_index(wi, col as int, row as int, c as int));
                        assert(v as int == resampled_channel(
                            src,
                            swi,
                            shi,
                            wi,
                            hi,
                            row as int,
                            col as int,
                            c as int,
                        ));
                        assert(resampled_at(src, swi, shi, wi, hi, i) == v as int);
                    }
                    data.push(v);
                    c = c + 1;
                }
                col = col + 1;
            }
            proof {
                assert((row * width + width) * 3 == (row + 1) * width * 3) by (nonlinear_arith);
            }
            row = row + 1;
        }
        proof {
            vstd::arithmetic::mul::lemma_mul_is_commutative(hi, wi);
            assert(data@.len() == wi * hi * 3);
            lemma_mul_nonnegative(wi, hi);
        }
        let out = Thumbnail { data, width, height };
        proof {
            assert forall|row: int, col: int, c: int|
                0 <= row < height && 0 <= col < width && 0 <= c < 3 implies out.pixels()[byte_index(
                wi,
                col,
                row,
                c,
            )] as int == resampled_channel(src, swi, shi, wi, hi, row, col, c) by {
                lemma_byte_index_decode(wi, row, col, c);
                assert(0 <= byte_index(wi, col, row, c) < out.pixels().len()) by (nonlinear_arith)
                    requires
                        0 <= row < hi,
                        0 <= col < wi,
                        0 <= c < 3,
                        out.pixels().len() == wi * hi * 3,
                        byte_index(wi, col, row, c) == (row * wi + col) * 3 + c,
                ;
            }
        }
        Ok(out)
    }

    /// Maps destination index `t` to its fractional source coordinate:
    /// integer part and remainder over the denominator `dst_dim - 1`.
    fn coord(t: usize, src_dim: usize, dst_dim: usize) -> (r: (usize, u128))
        requires
            1 <= src_dim,
            2 <= dst_dim,
            t < dst_dim,
        ensures
            r.0 as int == coord_base(t as int, src_dim as int, dst_dim as int),
            r.1 as int == coord_rem(t as int, src_dim as int, dst_dim as int),
            r.0 < src_dim,
            r.1 < (dst_dim - 1) as u128,
    {
        proof {
            lemma_coord_bounds(t as int, src_dim as int, dst_dim as int);
            lemma_mul_upper_bound(t as int, u64::MAX as int, src_dim as int - 1, u64::MAX as int);
            assert(u64::MAX as int * (u64::MAX as int) <= u128::MAX);
        }
        let num: u128 = (t as u128) * ((src_dim - 1) as u128);
        let den: u128 = (dst_dim - 1) as u128;
        ((num / den) as usize, num % den)
    }

    /// Blends four channel samples bilinearly at horizontal offset `xn/xd`
    /// and vertical offset `yn/yd`, truncating the exact result to a byte.
    fn blend_channel(tl: u8, tr: u8, bl: u8, br: u8, xn: u128, xd: u128, yn: u128, yd: u128) -> (r:
        u8)
        requires
            xn < xd,
            yn < yd,
            xd as int * (yd as int) * 255 <= u128::MAX,
        ensures
            r as int == bilerp(
                tl as int,
                tr as int,
                bl as int,
                br as int,
                xn as int,
                xd as int,
                yn as int,
                yd as int,
            ),
    {
        proof {
            lemma_bilerp_bounds(
                tl as int,
                tr as int,
                bl as int,
                br as int,
                xn as int,
                xd as int,
                yn as int,
                yd as int,
            );
            lemma_mul_is_associative(xd as int, yd as int, 255);
            assert(xd as int * 255 <= xd as int * (yd as int) * 255) by (nonlinear_arith)
                requires
                    1 <= yd,
                    0 <= xd,
            ;
            lemma_mul_upper_bound(tl as int, 255, xd as int - xn as int, xd as int);
            lemma_mul_upper_bound(tr as int, 255, xn as int, xd as int);
            lemma_mul_upper_bound(bl as int, 255, xd as int - xn as int, xd as int);
            lemma_mul_upper_bound(br as int, 255, xn as int, xd as int);
        }
        let top: u128 = (tl as u128) * (xd - xn) + (tr as u128) * xn;
        let bot: u128 = (bl as u128) * (xd - xn) + (br as u128) * xn;
        proof {
            assert(top as int == lerp_num(tl as int, tr as int, xn as int, xd as int));
            assert(bot as int == lerp_num(bl as int, br as int, xn as int, xd as int));
            lemma_mul_upper_bound(top as int, 255 * (xd as int), yd as int - yn as int, yd as int);
            lemma_mul_upper_bound(bot as int, 255 * (xd as int), yn as int, yd as int);
            lemma_mul_is_associative(255, xd as int, yd as int);
            lemma_mul_upper_bound(xd as int, xd as int, yd as int, yd as int);
        }
        let num: u128 = top * (yd - yn) + bot * yn;
        let den: u128 = xd * yd;
        let q: u128 = num / den;
        proof {
            assert(q as int == bilerp(
                tl as int,
                tr as int,
                bl as int,
                br as int,
                xn as int,
                xd as int,
                yn as int,
                yd as int,
            ));
        }
        q as u8
    }

    /// Remaps every pixel onto the gradient between `lower` (luminance 0) and
    /// `upper` (luminance 1), packed as `0xRRGGBB`: each channel becomes the
    /// blend of the two endpoints' channels at the pixel's luminance
    /// `(0.30*R + 0.59*G + 0.11*B) / 255`, truncated to a byte.
    pub fn color_map(self, upper: u32, lower: u32) -> (r: Thumbnail)
        requires
            self.wf(),
        ensures
            r.wf(),
            r.spec_width() == self.spec_width(),
            r.spec_height() == self.spec_height(),
            r.pixels().len() == self.pixels().len(),
            forall|p: int|
                0 <= p < self.spec_width() * self.spec_height() ==> duotone_maps_pixel(
                    self.pixels(),
                    r.pixels(),
                    p,
                    upper,
                    lower,
                ),
    {
        let hi_r = channel_byte(upper, 16);
        let hi_g = channel_byte(upper, 8);
        let hi_b = channel_byte(upper, 0);
        let lo_r = channel_byte(lower, 16);
        let lo_g = channel_byte(lower, 8);
        let lo_b = channel_byte(lower, 0);
        let Thumbnail { mut data, width, height } = self;
        let ghost src = data@;
        let n: usize = data.len();
        proof {
            lemma_mul_nonnegative(width as int, height as int);
        }
        let total: usize = width * height;
        let mut p: usize = 0;
        while p < total
            invariant
                p <= total,
                total == width * height,
                data@.len() == src.len(),
                src.len() == total * 3,
                src.len() == n,
                forall|q: int| 0 <= q < p ==> duotone_maps_pixel(src, data@, q, upper, lower),
                forall|i: int| 3 * p <= i < data@.len() ==> data@[i] == src[i],
                hi_r == red_of(upper) && hi_g == green_of(upper) && hi_b == blue_of(upper),
                lo_r == red_of(lower) && lo_g == green_of(lower) && lo_b == blue_of(lower),
                hi_r <= 255 && hi_g <= 255 && hi_b <= 255,
                lo_r <= 255 && lo_g <= 255 && lo_b <= 255,
            decreases total - p,
        {
            let ghost data0 = data@;
            let i: usize = p * 3;
            let r0 = data[i];
            let g0 = data[i + 1];
            let b0 = data[i + 2];
            let lum: u32 = 30 * (r0 as u32) + 59 * (g0 as u32) + 11 * (b0 as u32);
            let vr = duo_apply(lo_r, hi_r, lum);
            let vg = duo_apply(lo_g, hi_g, lum);
            let vb = duo_apply(lo_b, hi_b, lum);
            data[i] = vr;
            data[i + 1] = vg;
            data[i + 2] = vb;
            proof {
                assert forall|q: int| 0 <= q < p + 1 implies duotone_maps_pixel(
                    src,
                    data@,
                    q,
                    upper,
                    lower,
                ) by {
                    if q == p {
                        assert(data@[3 * q] == vr);
                        assert(data@[3 * q + 1] == vg);
                        assert(data@[3 * q + 2] == vb);
                        assert(r0 == src[3 * q] && g0 == src[3 * q + 1] && b0 == src[3 * q + 2]);
                    } else {
                        assert(data@[3 * q] == data0[3 * q]);
                        assert(data@[3 * q + 1] == data0[3 * q + 1]);
                        assert(data@[3 * q + 2] == data0[3 * q + 2]);
                        assert(duotone_maps_pixel(src, data0, q, upper, lower));
                    }
                }
            }
            p = p + 1;
        }
        Thumbnail { data, width, height }
    }

    /// Borrows the pixel bytes, row-major, channels interleaved as R, G, B.
    pub fn get_bytes(&self) -> (r: &[u8])
        ensures
            r@ == self.pixels(),
    {
        self.data.as_slice()
    }
}

} // verus!
