use vstd::prelude::*;

use std::rc::Rc;

use crate::config::{HISTOGRAM_SIZE, RIGHT_SHIFT};
use crate::pixel_encoding::PixelEncoding;
use crate::types::{opaque_spec, white_spec, ColorChannel, Pixel};
use crate::util::{color_index_from, index_of};
use crate::vbox::VBox;

verus! {

/// Number of whole pixels in the buffer.
pub open spec fn pixel_count(px: Seq<u8>, enc: PixelEncoding) -> int {
    px.len() as int / enc.stride_spec() as int
}

/// A channel value reduced to its cube coordinate.
pub open spec fn quantize(c: u8) -> int {
    c as int / 8
}

/// Cube coordinate of a pixel on one axis.
pub open spec fn coordinate(p: Pixel, c: ColorChannel) -> int {
    match c {
        ColorChannel::R => quantize(p.r),
        ColorChannel::G => quantize(p.g),
        ColorChannel::B => quantize(p.b),
    }
}

/// Histogram cell of a pixel.
pub open spec fn cell_of(p: Pixel) -> int {
    index_of(quantize(p.r), quantize(p.g), quantize(p.b))
}

/// The pixel at position `p` counts: it is opaque and, where white pixels are
/// ignored, not white.
pub open spec fn accepted(px: Seq<u8>, enc: PixelEncoding, p: int, ignore_white: bool) -> bool {
    let pixel = enc.pixel_at(px, p);
    opaque_spec(pixel) && !(ignore_white && white_spec(pixel))
}

/// Number of accepted pixels in cell `i` among the samples at positions
/// `p, p + q, p + 2q, ...` below the pixel count.
pub open spec fn tally(
    px: Seq<u8>,
    enc: PixelEncoding,
    q: int,
    ignore_white: bool,
    i: int,
    p: int,
) -> int
    decreases pixel_count(px, enc) + q - p,
    when q > 0
{
    if p >= pixel_count(px, enc) {
        0
    } else {
        (if accepted(px, enc, p, ignore_white) && cell_of(enc.pixel_at(px, p)) == i {
            1int
        } else {
            0int
        }) + tally(px, enc, q, ignore_white, i, p + q)
    }
}

/// Smallest coordinate on axis `c` among the accepted samples from position
/// `p` on; 255 when there is none.
pub open spec fn low(
    px: Seq<u8>,
    enc: PixelEncoding,
    q: int,
    ignore_white: bool,
    c: ColorChannel,
    p: int,
) -> int
    decreases pixel_count(px, enc) + q - p,
    when q > 0
{
    if p >= pixel_count(px, enc) {
        255
    } else {
        let rest = low(px, enc, q, ignore_white, c, p + q);
        let v = coordinate(enc.pixel_at(px, p), c);
        if accepted(px, enc, p, ignore_white) && v < rest {
            v
        } else {
            rest
        }
    }
}

/// Largest coordinate on axis `c` among the accepted samples from position
/// `p` on; 0 when there is none.
pub open spec fn high(
    px: Seq<u8>,
    enc: PixelEncoding,
    q: int,
    ignore_white: bool,
    c: ColorChannel,
    p: int,
) -> int
    decreases pixel_count(px, enc) + q - p,
    when q > 0
{
    if p >= pixel_count(px, enc) {
        0
    } else {
        let rest = high(px, enc, q, ignore_white, c, p + q);
        let v = coordinate(enc.pixel_at(px, p), c);
        if accepted(px, enc, p, ignore_white) && v > rest {
            v
        } else {
            rest
        }
    }
}

pub(crate) proof fn lemma_tally_bound(
    px: Seq<u8>,
    enc: PixelEncoding,
    q: int,
    ignore_white: bool,
    i: int,
    p: int,
)
    requires
        q > 0,
        0 <= p,
    ensures
        0 <= tally(px, enc, q, ignore_white, i, p),
        p <= pixel_count(px, enc) ==> tally(px, enc, q, ignore_white, i, p) <= pixel_count(px, enc) - p,
        p > pixel_count(px, enc) ==> tally(px, enc, q, ignore_white, i, p) == 0,
    decreases pixel_count(px, enc) + q - p,
{
    if p < pixel_count(px, enc) {
        lemma_tally_bound(px, enc, q, ignore_white, i, p + q);
    }
}

proof fn lemma_low_high_bounds(
    px: Seq<u8>,
    enc: PixelEncoding,
    q: int,
    ignore_white: bool,
    c: ColorChannel,
    p: int,
)
    requires
        q > 0,
    ensures
        0 <= low(px, enc, q, ignore_white, c, p) <= 255,
        0 <= high(px, enc, q, ignore_white, c, p) < 32,
    decreases pixel_count(px, enc) + q - p,
{
    if p < pixel_count(px, enc) {
        lemma_low_high_bounds(px, enc, q, ignore_white, c, p + q);
    }
}

/// Reduces a channel value to its cube coordinate.
fn quantize_channel(c: u8) -> (v: u8)
    ensures
        v == quantize(c),
        v < 32,
{
    assert(c >> 3u8 == c / 8) by (bit_vector);
    c >> RIGHT_SHIFT
}

pub open spec fn min_int(a: int, b: int) -> int {
    if a < b {
        a
    } else {
        b
    }
}

pub open spec fn max_int(a: int, b: int) -> int {
    if a > b {
        a
    } else {
        b
    }
}

/// After the sample at `p`, the running bounds `lo`, `hi` on axis `c` still
/// combine with what the later samples give into the bounds of all samples.
proof fn lemma_bounds_step(
    px: Seq<u8>,
    enc: PixelEncoding,
    q: int,
    ignore_white: bool,
    c: ColorChannel,
    p: int,
    lo: int,
    hi: int,
    new_lo: int,
    new_hi: int,
)
    requires
        q > 0,
        0 <= p < pixel_count(px, enc),
        min_int(lo, low(px, enc, q, ignore_white, c, p)) == low(px, enc, q, ignore_white, c, 0),
        max_int(hi, high(px, enc, q, ignore_white, c, p)) == high(px, enc, q, ignore_white, c, 0),
        accepted(px, enc, p, ignore_white) ==> new_lo == min_int(lo, coordinate(enc.pixel_at(px, p), c)),
        accepted(px, enc, p, ignore_white) ==> new_hi == max_int(hi, coordinate(enc.pixel_at(px, p), c)),
        !accepted(px, enc, p, ignore_white) ==> new_lo == lo && new_hi == hi,
    ensures
        min_int(new_lo, low(px, enc, q, ignore_white, c, p + q)) == low(px, enc, q, ignore_white, c, 0),
        max_int(new_hi, high(px, enc, q, ignore_white, c, p + q)) == high(px, enc, q, ignore_white, c, 0),
{
}

/// After the sample at `p`, the histogram so far plus what the later samples
/// add is still the histogram of all samples.
proof fn lemma_histogram_step(
    px: Seq<u8>,
    enc: PixelEncoding,
    q: int,
    ignore_white: bool,
    p: int,
    h: Seq<u64>,
    new_h: Seq<u64>,
)
    requires
        q > 0,
        0 <= p < pixel_count(px, enc),
        h.len() == 32768,
        new_h.len() == 32768,
        forall|i: int|
            0 <= i < 32768 ==> h[i] + tally(px, enc, q, ignore_white, i, p) == tally(
                px,
                enc,
                q,
                ignore_white,
                i,
                0,
            ),
        accepted(px, enc, p, ignore_white) ==> 0 <= cell_of(enc.pixel_at(px, p)) < 32768,
        accepted(px, enc, p, ignore_white) ==> new_h == h.update(
            cell_of(enc.pixel_at(px, p)),
            (h[cell_of(enc.pixel_at(px, p))] + 1) as u64,
        ),
        accepted(px, enc, p, ignore_white) ==> h[cell_of(enc.pixel_at(px, p))] + 1 <= u64::MAX,
        !accepted(px, enc, p, ignore_white) ==> new_h == h,
    ensures
        forall|i: int|
            0 <= i < 32768 ==> new_h[i] + tally(px, enc, q, ignore_white, i, p + q) == tally(
                px,
                enc,
                q,
                ignore_white,
                i,
                0,
            ),
{
    assert forall|i: int| 0 <= i < 32768 implies new_h[i] + tally(px, enc, q, ignore_white, i, p + q)
        == tally(px, enc, q, ignore_white, i, 0) by {
        assert(h[i] + tally(px, enc, q, ignore_white, i, p) == tally(px, enc, q, ignore_white, i, 0));
    }
}

/// Widens `lo..=hi` to take in `v`.
fn widen(lo: u8, hi: u8, v: u8) -> (r: (u8, u8))
    ensures
        r.0 == min_int(lo as int, v as int),
        r.1 == max_int(hi as int, v as int),
{
    (if v < lo { v } else { lo }, if v > hi { v } else { hi })
}

/// Samples every `quality`-th pixel of `pixels` and returns the box that
/// bounds the accepted samples, over the histogram of their cells.
pub fn create_histogram_and_vbox(
    pixels: &[u8],
    encoding: PixelEncoding,
    quality: u8,
    ignore_white: bool,
) -> (v: VBox)
    requires
        quality >= 1,
    ensures
        v.wf(),
        v@.r_min == low(pixels@, encoding, quality as int, ignore_white, ColorChannel::R, 0),
        v@.r_max == high(pixels@, encoding, quality as int, ignore_white, ColorChannel::R, 0),
        v@.g_min == low(pixels@, encoding, quality as int, ignore_white, ColorChannel::G, 0),
        v@.g_max == high(pixels@, encoding, quality as int, ignore_white, ColorChannel::G, 0),
        v@.b_min == low(pixels@, encoding, quality as int, ignore_white, ColorChannel::B, 0),
        v@.b_max == high(pixels@, encoding, quality as int, ignore_white, ColorChannel::B, 0),
        forall|i: int|
            0 <= i < 32768 ==> v.hist()[i] == tally(
                pixels@,
                encoding,
                quality as int,
                ignore_white,
                i,
                0,
            ),
{
    let ghost px = pixels@;
    let ghost q = quality as int;
    let mut histogram: Vec<u64> = vec![0; HISTOGRAM_SIZE];
    let mut r_min: u8 = 255;
    let mut r_max: u8 = 0;
    let mut g_min: u8 = 255;
    let mut g_max: u8 = 0;
    let mut b_min: u8 = 255;
    let mut b_max: u8 = 0;
    let stride = encoding.stride();
    let len = pixels.len();
    let n_pixels = len / stride as usize;
    let quality_stride = quality as usize;
    let mut idx: usize = 0;
    proof {
        vstd::arithmetic::div_mod::lemma_div_is_ordered_by_denominator(len as int, 3, stride as int);
        lemma_low_high_bounds(px, encoding, q, ignore_white, ColorChannel::R, 0);
        lemma_low_high_bounds(px, encoding, q, ignore_white, ColorChannel::G, 0);
        lemma_low_high_bounds(px, encoding, q, ignore_white, ColorChannel::B, 0);
    }
    while idx < n_pixels
        invariant
            q == quality,
            q == quality_stride,
            q >= 1,
            px == pixels@,
            len == px.len(),
            stride == encoding.stride_spec(),
            n_pixels == pixel_count(px, encoding),
            n_pixels <= len / 3,
            histogram@.len() == 32768,
            forall|i: int|
                0 <= i < 32768 ==> histogram@[i] + tally(px, encoding, q, ignore_white, i, idx as int)
                    == tally(px, encoding, q, ignore_white, i, 0),
            min_int(r_min as int, low(px, encoding, q, ignore_white, ColorChannel::R, idx as int))
                == low(px, encoding, q, ignore_white, ColorChannel::R, 0),
            max_int(r_max as int, high(px, encoding, q, ignore_white, ColorChannel::R, idx as int))
                == high(px, encoding, q, ignore_white, ColorChannel::R, 0),
            min_int(g_min as int, low(px, encoding, q, ignore_white, ColorChannel::G, idx as int))
                == low(px, encoding, q, ignore_white, ColorChannel::G, 0),
            max_int(g_max as int, high(px, encoding, q, ignore_white, ColorChannel::G, idx as int))
                == high(px, encoding, q, ignore_white, ColorChannel::G, 0),
            min_int(b_min as int, low(px, encoding, q, ignore_white, ColorChannel::B, idx as int))
                == low(px, encoding, q, ignore_white, ColorChannel::B, 0),
            max_int(b_max as int, high(px, encoding, q, ignore_white, ColorChannel::B, idx as int))
                == high(px, encoding, q, ignore_white, ColorChannel::B, 0),
            r_max < 32,
            g_max < 32,
            b_max < 32,
        decreases n_pixels + q - idx,
    {
        proof {
            assert((idx + 1) * (stride as int) <= px.len()) by (nonlinear_arith)
                requires
                    idx < n_pixels,
                    n_pixels == px.len() as int / (stride as int),
                    stride >= 3,
            ;
        }
        let p = encoding.extract_pixel(pixels, idx);
        let ghost old_h = histogram@;
        let ghost (lr, hr, lg, hg, lb, hb) = (r_min, r_max, g_min, g_max, b_min, b_max);
        if p.is_opaque() && !(ignore_white && p.is_white()) {
            let shifted_r = quantize_channel(p.r);
            let shifted_g = quantize_channel(p.g);
            let shifted_b = quantize_channel(p.b);
            let wr = widen(r_min, r_max, shifted_r);
            let wg = widen(g_min, g_max, shifted_g);
            let wb = widen(b_min, b_max, shifted_b);
            r_min = wr.0;
            r_max = wr.1;
            g_min = wg.0;
            g_max = wg.1;
            b_min = wb.0;
            b_max = wb.1;
            let index = color_index_from(shifted_r, shifted_g, shifted_b) as usize;
            proof {
                lemma_tally_bound(px, encoding, q, ignore_white, index as int, 0);
                lemma_tally_bound(px, encoding, q, ignore_white, index as int, idx + q);
                assert(histogram@[index as int] + tally(px, encoding, q, ignore_white, index as int, idx as int)
                    == tally(px, encoding, q, ignore_white, index as int, 0));
            }
            let x = histogram[index];
            histogram.set(index, x + 1);
        }
        proof {
            lemma_histogram_step(px, encoding, q, ignore_white, idx as int, old_h, histogram@);
            lemma_bounds_step(px, encoding, q, ignore_white, ColorChannel::R, idx as int, lr as int, hr as int, r_min as int, r_max as int);
            lemma_bounds_step(px, encoding, q, ignore_white, ColorChannel::G, idx as int, lg as int, hg as int, g_min as int, g_max as int);
            lemma_bounds_step(px, encoding, q, ignore_white, ColorChannel::B, idx as int, lb as int, hb as int, b_min as int, b_max as int);
        }
        idx = idx + quality_stride;
    }
    proof {
        lemma_low_high_bounds(px, encoding, q, ignore_white, ColorChannel::R, idx as int);
    }
    VBox::new(r_min, r_max, g_min, g_max, b_min, b_max, Rc::new(histogram))
}

} // verus!
