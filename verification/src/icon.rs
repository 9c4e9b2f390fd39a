use vstd::prelude::*;

use crate::raster::{
    expand_to_rgba, expanded_rgba, pixel_count, frame_view, header_view, png_expanded_frame, png_expanded_header,
    read_png_frame, read_png_header, PixelLayout, PngFrame, PngHeader,
};
use crate::binary32::{
    lemma_pow2_160, lemma_rounded_int, lemma_rounded_quotient, round_int, round_quotient, rounded_int,
    rounded_quotient,
};
use crate::sampling::{resample, resampled, sample_pos, sample_pos_of};
use crate::ui::{is_rgba_layout, UiImage};
use vstd::arithmetic::power2::pow2;

verus! {

/// Side length, in pixels, of every application icon.
pub const ICON_SIZE: u32 = 48;

/// The longer side of a `w` by `h` image.
pub open spec fn longer_side(w: int, h: int) -> int {
    if w < h { h } else { w }
}

/// 48 divided by a side `n`, at 24 significant bits (the side rounded first),
/// in units of 2^-64.
pub open spec fn side_scale(n: int) -> int {
    rounded_quotient(0x30_0000_0000_0000_0000int, rounded_int(n))
}

/// The scale that fits a `w` by `h` image into 48x48: the smaller of the two
/// side scales, in units of 2^-64.
pub open spec fn icon_scale(w: int, h: int) -> int {
    let a = side_scale(w);
    let b = side_scale(h);
    if a < b { a } else { b }
}

/// Length of the side `n` of a `w` by `h` image once scaled to fit 48x48: the
/// side times the scale, at 24 significant bits, rounded to the nearest pixel
/// (halves up), and at least one pixel.
pub open spec fn fitted_extent(n: int, w: int, h: int) -> int {
    let p = rounded_quotient(rounded_int(n) * icon_scale(w, h), 1);
    let t = (p + 0x8000_0000_0000_0000) / 0x1_0000_0000_0000_0000;
    if t < 1 { 1 } else { t }
}

/// Byte `ch` of the icon pixel at `(row, col)`: the image is scaled to fit 48x48
/// keeping its aspect, centered, and the margin is transparent black.
pub open spec fn fitted_icon_byte(p: Seq<u8>, w: int, h: int, row: int, col: int, ch: int) -> int {
    let tw = fitted_extent(w, w, h);
    let th = fitted_extent(h, w, h);
    let ox = (48 - tw) / 2;
    let oy = (48 - th) / 2;
    if oy <= row < oy + th && ox <= col < ox + tw {
        resampled(p, w, h, sample_pos(col - ox, icon_scale(w, h), w), sample_pos(row - oy, icon_scale(w, h), h), ch)
    } else {
        0
    }
}

/// The 48x48 RGBA8 icon made from a `w` by `h` RGBA8 image.
pub open spec fn fitted_icon(p: Seq<u8>, w: int, h: int) -> Seq<u8> {
    Seq::new(9216, |k: int| fitted_icon_byte(p, w, h, k / 192, (k % 192) / 4, k % 4) as u8)
}

pub(crate) proof fn lemma_side_scale(n: int)
    requires
        1 <= n <= 0xffff_ffff,
    ensures
        rounded_int(n) * 0x800000 * side_scale(n) <= 48 * 0x1_0000_0000_0000_0000 * 0x800001,
        rounded_int(n) * 0x800000 * side_scale(n) > 48 * 0x1_0000_0000_0000_0000 * 0x7fffff,
        0x1_0000_0000 <= side_scale(n) <= 96 * 0x1_0000_0000_0000_0000,
{
    let f = rounded_int(n);
    lemma_rounded_int(n);
    lemma_pow2_160();
    assert(0x30_0000_0000_0000_0000int < pow2(160) * f) by (nonlinear_arith)
        requires pow2(160) >= 0x80000000000000000000000000, f >= 1;
    lemma_rounded_quotient(0x30_0000_0000_0000_0000int, f);
    let sn = side_scale(n);
    assert(0x1_0000_0000 <= sn) by (nonlinear_arith)
        requires
            f * 0x800000 * sn > 48 * 0x1_0000_0000_0000_0000 * 0x7fffff,
            1 <= f <= 0x2_0000_0000;
    assert(sn <= 96 * 0x1_0000_0000_0000_0000) by (nonlinear_arith)
        requires
            f * 0x800000 * sn <= 48 * 0x1_0000_0000_0000_0000 * 0x800001,
            1 <= f;
}

pub(crate) proof fn lemma_extent_bounds(n: int, w: int, h: int)
    requires
        1 <= w <= 0xffff_ffff,
        1 <= h <= 0xffff_ffff,
        n == w || n == h,
    ensures
        1 <= fitted_extent(n, w, h) <= 48,
        0x1_0000_0000 <= icon_scale(w, h) <= 96 * 0x1_0000_0000_0000_0000,
        rounded_int(n) * icon_scale(w, h) <= 49 * 0x1_0000_0000_0000_0000,
        rounded_int(n) * icon_scale(w, h) >= 0x800000,
        rounded_quotient(rounded_int(n) * icon_scale(w, h), 1) < 49 * 0x1_0000_0000_0000_0000,
{
    lemma_side_scale(w);
    lemma_side_scale(h);
    lemma_rounded_int(n);
    let f = rounded_int(n);
    let sc = icon_scale(w, h);
    let sn = side_scale(n);
    assert(sc <= sn);
    assert(f * 0x800000 * sc <= 48 * 0x1_0000_0000_0000_0000 * 0x800001) by (nonlinear_arith)
        requires
            f * 0x800000 * sn <= 48 * 0x1_0000_0000_0000_0000 * 0x800001,
            sc <= sn,
            f >= 1;
    let x = f * sc;
    assert(x * 0x800000 <= 48 * 0x1_0000_0000_0000_0000 * 0x800001) by (nonlinear_arith)
        requires f * 0x800000 * sc <= 48 * 0x1_0000_0000_0000_0000 * 0x800001, x == f * sc;
    assert(x <= 49 * 0x1_0000_0000_0000_0000) by (nonlinear_arith)
        requires f * 0x800000 * sc <= 48 * 0x1_0000_0000_0000_0000 * 0x800001, x == f * sc;
    assert(x >= 0x800000) by (nonlinear_arith)
        requires x == f * sc, f >= 1, sc >= 0x1_0000_0000;
    lemma_pow2_160();
    assert(x < pow2(160) * 1);
    lemma_rounded_quotient(x, 1);
    let p = rounded_quotient(x, 1);
    assert(p * 0x800000 * 0x800000 <= 48 * 0x1_0000_0000_0000_0000 * 0x800001 * 0x800001) by (nonlinear_arith)
        requires
            1 * 0x800000 * p <= x * 0x800001,
            x * 0x800000 <= 48 * 0x1_0000_0000_0000_0000 * 0x800001,
            x == f * sc;
    assert(p + 0x8000_0000_0000_0000 < 49 * 0x1_0000_0000_0000_0000) by (nonlinear_arith)
        requires p * 0x800000 * 0x800000 <= 48 * 0x1_0000_0000_0000_0000 * 0x800001 * 0x800001;
}

/// The longer side of an image fills the icon: it scales to exactly 48 pixels.
pub(crate) proof fn lemma_longer_side_fills(w: int, h: int)
    requires
        1 <= w <= 0xffff_ffff,
        1 <= h <= 0xffff_ffff,
    ensures
        fitted_extent(longer_side(w, h), w, h) == 48,
{
    let m = longer_side(w, h);
    let o = if w < h { w } else { h };
    lemma_extent_bounds(m, w, h);
    lemma_side_scale(m);
    lemma_side_scale(o);
    lemma_rounded_int(m);
    lemma_rounded_int(o);
    let k = 0x30_0000_0000_0000_0000int;
    let fm = rounded_int(m);
    let fo = rounded_int(o);
    let sm = side_scale(m);
    let so = side_scale(o);
    let sc = icon_scale(w, h);
    assert(sc == sm || sc == so);
    assert(fo * 0x7fffff <= fm * 0x800001) by (nonlinear_arith)
        requires
            0x800000 * fm >= m * 0x7fffff,
            0x800000 * fo <= o * 0x800001,
            o <= m,
            fo >= 1;
    assert(fm * 0x800000 * so * 0x800001 > k * 0x7fffff * 0x7fffff) by (nonlinear_arith)
        requires
            fo * 0x800000 * so > k * 0x7fffff,
            fo * 0x7fffff <= fm * 0x800001,
            so > 0,
            k > 0;
    let x = fm * sc;
    assert(x * 0x800000 * 0x800001 > k * 0x7fffff * 0x7fffff) by (nonlinear_arith)
        requires
            x == fm * sc,
            sc == sm || sc == so,
            fm * 0x800000 * so * 0x800001 > k * 0x7fffff * 0x7fffff,
            fm * 0x800000 * sm > k * 0x7fffff,
            k > 0;
    assert(x >= 0x800000) by (nonlinear_arith)
        requires x == fm * sc, fm >= 1, sc >= 0x1_0000_0000;
    lemma_pow2_160();
    assert(x < pow2(160) * 1);
    lemma_rounded_quotient(x, 1);
    let p = rounded_quotient(x, 1);
    assert(p * 0x800000 * 0x800000 * 0x800001 > k * 0x7fffff * 0x7fffff * 0x7fffff) by (nonlinear_arith)
        requires
            1 * 0x800000 * p > x * 0x7fffff,
            x * 0x800000 * 0x800001 > k * 0x7fffff * 0x7fffff,
            k > 0;
    assert(p + 0x8000_0000_0000_0000 >= 48 * 0x1_0000_0000_0000_0000) by (nonlinear_arith)
        requires
            p * 0x800000 * 0x800000 * 0x800001 > k * 0x7fffff * 0x7fffff * 0x7fffff,
            k == 0x30_0000_0000_0000_0000int;
}

/// Offset of channel `ch` of the icon pixel at `(row, col)`.
pub open spec fn icon_cell(row: int, col: int, ch: int) -> int {
    row * 192 + col * 4 + ch
}

/// Whether the icon pixel at `(row, col)` lies in the fitted image and comes
/// before target position `(x, y)` in row-major order.
spec fn placed(row: int, col: int, oy: int, ox: int, th: int, tw: int, y: int, x: int) -> bool {
    &&& oy <= row < oy + th
    &&& ox <= col < ox + tw
    &&& (row - oy < y || (row - oy == y && col - ox < x))
}

proof fn lemma_cell_unique(r1: int, c1: int, h1: int, r2: int, c2: int, h2: int)
    requires
        0 <= r1 < 48,
        0 <= c1 < 48,
        0 <= h1 < 4,
        0 <= r2 < 48,
        0 <= c2 < 48,
        0 <= h2 < 4,
        icon_cell(r1, c1, h1) == icon_cell(r2, c2, h2),
    ensures
        r1 == r2 && c1 == c2 && h1 == h2,
{
}

fn side_scale_of(n: u32) -> (s: u128)
    requires
        n > 0,
    ensures
        s == side_scale(n as int),
{
    let f = round_int(n);
    proof {
        lemma_rounded_int(n as int);
        assert(0x800000 * f <= 0x30_0000_0000_0000_0000);
    }
    round_quotient(0x30_0000_0000_0000_0000, f).0
}

fn icon_scale_of(w: u32, h: u32) -> (s: u128)
    requires
        0 < w,
        0 < h,
    ensures
        s == icon_scale(w as int, h as int),
        0x100000000 <= s <= 0x600000000000000000,
{
    proof {
        lemma_extent_bounds(w as int, w as int, h as int);
    }
    let a = side_scale_of(w);
    let b = side_scale_of(h);
    if a < b { a } else { b }
}

fn fitted_extent_of(n: u32, w: u32, h: u32) -> (t: u32)
    requires
        0 < w,
        0 < h,
        n == w || n == h,
    ensures
        t == fitted_extent(n as int, w as int, h as int),
        1 <= t <= 48,
{
    proof {
        lemma_extent_bounds(n as int, w as int, h as int);
    }
    let a = side_scale_of(w);
    let b = side_scale_of(h);
    let scale = if a < b { a } else { b };
    let x = round_int(n) * scale;
    let p = round_quotient(x, 1).0;
    let t = (p + 0x8000_0000_0000_0000) / 0x1_0000_0000_0000_0000;
    if t < 1 { 1 } else { t as u32 }
}

/// Scales an RGBA8 image to fit a 48x48 icon, keeping its aspect ratio and
/// centering it, with bilinear, alpha-weighted sampling at binary32 precision.
/// Refuses an empty size and a byte count other than `width * height * 4`.
/// Sides are at most 2^23 pixels, where every side and coordinate is exact.
pub fn fit_rgba_icon(width: u32, height: u32, pixels: &[u8]) -> (r: Option<UiImage>)
    requires
        is_rgba_layout(width as int, height as int, pixels@.len() as int) ==> width <= 0x800000 && height <= 0x800000,
    ensures
        r is Some <==> is_rgba_layout(width as int, height as int, pixels@.len() as int),
        r matches Some(img) ==> {
            &&& img.wf()
            &&& img.spec_width() == ICON_SIZE
            &&& img.spec_height() == ICON_SIZE
            &&& img.spec_pixels() == fitted_icon(pixels@, width as int, height as int)
        },
{
    let len = pixels.len();
    if width == 0 || height == 0 {
        return None;
    }
    let expected = match (width as u64).checked_mul(height as u64) {
        Some(n) => match n.checked_mul(4) {
            Some(n4) => n4,
            None => {
                assert(len < width * height * 4);
                return None;
            },
        },
        None => {
            assert(width * height * 4 > u64::MAX) by (nonlinear_arith)
                requires width * height > u64::MAX;
            return None;
        },
    };
    if len as u64 != expected {
        return None;
    }
    let ghost p = pixels@;
    let ghost (wi, hi) = (width as int, height as int);
    let scale = icon_scale_of(width, height);
    let tw = fitted_extent_of(width, width, height);
    let th = fitted_extent_of(height, width, height);
    let ox = (48 - tw) / 2;
    let oy = (48 - th) / 2;
    let mut output: Vec<u8> = vec![0u8; 9216];
    assert forall|row: int, col: int, ch: int|
        0 <= row < 48 && 0 <= col < 48 && 0 <= ch < 4 implies
        output@[#[trigger] icon_cell(row, col, ch)] == (if placed(row, col, oy as int, ox as int, th as int, tw as int, 0, 0) {
            fitted_icon_byte(p, wi, hi, row, col, ch) as u8
        } else {
            0u8
        }) by {
        assert(0 <= icon_cell(row, col, ch) < 9216);
    }
    let mut y: u32 = 0;
    while y < th
        invariant
            p == pixels@,
            is_rgba_layout(wi, hi, p.len() as int),
            wi == width,
            hi == height,
            scale as int == icon_scale(wi, hi),
            0x100000000 <= scale <= 0x600000000000000000,
            width <= 0x800000,
            height <= 0x800000,
            tw as int == fitted_extent(wi, wi, hi),
            th as int == fitted_extent(hi, wi, hi),
            1 <= tw <= 48,
            1 <= th <= 48,
            ox == (48 - tw) / 2,
            oy == (48 - th) / 2,
            y <= th,
            output@.len() == 9216,
            forall|row: int, col: int, ch: int|
                0 <= row < 48 && 0 <= col < 48 && 0 <= ch < 4 ==>
                output@[#[trigger] icon_cell(row, col, ch)] == (if placed(row, col, oy as int, ox as int, th as int, tw as int, y as int, 0) {
                    fitted_icon_byte(p, wi, hi, row, col, ch) as u8
                } else {
                    0u8
                }),
        decreases th - y,
    {
        let sy = sample_pos_of(y, scale, height);
        let mut x: u32 = 0;
        while x < tw
            invariant
                p == pixels@,
                is_rgba_layout(wi, hi, p.len() as int),
                wi == width,
                hi == height,
                scale as int == icon_scale(wi, hi),
                0x100000000 <= scale <= 0x600000000000000000,
                width <= 0x800000,
                height <= 0x800000,
                tw as int == fitted_extent(wi, wi, hi),
                th as int == fitted_extent(hi, wi, hi),
                1 <= tw <= 48,
                1 <= th <= 48,
                ox == (48 - tw) / 2,
                oy == (48 - th) / 2,
                y < th,
                x <= tw,
                sy == sample_pos(y as int, scale as int, hi),
                sy / 0x800000000000 <= height - 1,
                output@.len() == 9216,
                forall|row: int, col: int, ch: int|
                    0 <= row < 48 && 0 <= col < 48 && 0 <= ch < 4 ==>
                    output@[#[trigger] icon_cell(row, col, ch)] == (if placed(row, col, oy as int, ox as int, th as int, tw as int, y as int, x as int) {
                        fitted_icon_byte(p, wi, hi, row, col, ch) as u8
                    } else {
                        0u8
                    }),
            decreases tw - x,
        {
            let sx = sample_pos_of(x, scale, width);
            let px = resample(pixels, width, height, sx, sy);
            let row = oy + y;
            let col = ox + x;
            let target = (row as usize) * 192 + (col as usize) * 4;
            let ghost before = output@;
            output.set(target, px.0);
            output.set(target + 1, px.1);
            output.set(target + 2, px.2);
            output.set(target + 3, px.3);
            proof {
                let (r0, c0) = (row as int, col as int);
                assert forall|ch: int| 0 <= ch < 4 implies
                    output@[icon_cell(r0, c0, ch)] == fitted_icon_byte(p, wi, hi, r0, c0, ch) as u8 by {
                    assert(icon_cell(r0, c0, ch) == target + ch);
                }
                assert forall|r: int, c: int, ch: int|
                    0 <= r < 48 && 0 <= c < 48 && 0 <= ch < 4 implies
                    output@[#[trigger] icon_cell(r, c, ch)] == (if placed(r, c, oy as int, ox as int, th as int, tw as int, y as int, x + 1) {
                        fitted_icon_byte(p, wi, hi, r, c, ch) as u8
                    } else {
                        0u8
                    }) by {
                    if r == r0 && c == c0 {
                    } else {
                        assert forall|k: int| 0 <= k < 4 implies icon_cell(r, c, ch) != #[trigger] icon_cell(r0, c0, k) by {
                            if icon_cell(r, c, ch) == icon_cell(r0, c0, k) {
                                lemma_cell_unique(r, c, ch, r0, c0, k);
                            }
                        }
                        assert(output@[icon_cell(r, c, ch)] == before[icon_cell(r, c, ch)]);
                    }
                }
            }
            x = x + 1;
        }
        y = y + 1;
    }
    proof {
        assert forall|k: int| 0 <= k < 9216 implies output@[k] == #[trigger] fitted_icon(p, wi, hi)[k] by {
            let (r, c, ch) = (k / 192, (k % 192) / 4, k % 4);
            assert(k == icon_cell(r, c, ch));
        }
        assert(output@ =~= fitted_icon(p, wi, hi));
    }
    UiImage::from_rgba(ICON_SIZE, ICON_SIZE, output)
}


/// Largest width or height of a PNG icon that is decoded.
pub const MAX_ICON_DIMENSION: u32 = 512;

/// The abstract content of an image.
pub open spec fn image_view(img: UiImage) -> (u32, u32, Seq<u8>) {
    (img.spec_width(), img.spec_height(), img.spec_pixels())
}

/// The buffer an icon frame is decoded into: both sides between 1 and 512
/// pixels, and the decoded frame no larger than four bytes per pixel.
pub open spec fn icon_buffer_len(h: Option<(u32, u32, Option<usize>)>) -> Option<usize> {
    match h {
        None => None,
        Some((w, hh, out)) => {
            if w == 0 || hh == 0 || w > MAX_ICON_DIMENSION || hh > MAX_ICON_DIMENSION {
                None
            } else {
                match out {
                    None => None,
                    Some(n) => if n > w * hh * 4 { None } else { Some(n) },
                }
            }
        },
    }
}

/// The icon made from a decoded frame: widened to RGBA8, then fitted to 48x48.
pub open spec fn icon_from_frame_spec(f: Option<(u32, u32, PixelLayout, Seq<u8>)>) -> Option<(u32, u32, Seq<u8>)> {
    match f {
        None => None,
        Some((fw, fh, layout, data)) => match expanded_rgba(layout, data) {
            None => None,
            Some(rgba) => if is_rgba_layout(fw as int, fh as int, rgba.len() as int) {
                Some((ICON_SIZE, ICON_SIZE, fitted_icon(rgba, fw as int, fh as int)))
            } else {
                None
            },
        },
    }
}

/// The icon a PNG file decodes to.
pub open spec fn decoded_png_icon(bytes: Seq<u8>) -> Option<(u32, u32, Seq<u8>)> {
    match icon_buffer_len(png_expanded_header(bytes)) {
        None => None,
        Some(n) => icon_from_frame_spec(png_expanded_frame(bytes, n)),
    }
}

/// The buffer size an icon frame is decoded into, or `None` when the header is
/// missing, a side is empty or over 512 pixels, or the frame does not fit four
/// bytes per pixel.
pub fn icon_buffer_size(header: Option<PngHeader>) -> (r: Option<usize>)
    ensures
        r == icon_buffer_len(match header {
            Some(h) => Some(header_view(h)),
            None => None,
        }),
{
    let h = match header {
        Some(h) => h,
        None => return None,
    };
    if h.width == 0 || h.height == 0 || h.width > MAX_ICON_DIMENSION || h.height > MAX_ICON_DIMENSION {
        return None;
    }
    assert(h.width * h.height * 4 <= 512 * 512 * 4) by (nonlinear_arith)
        requires h.width <= 512, h.height <= 512;
    let max_bytes = (h.width as usize) * (h.height as usize) * 4;
    match h.output_size {
        None => None,
        Some(n) => if n > max_bytes { None } else { Some(n) },
    }
}

/// The 48x48 icon made from a decoded frame of at most 8 MiB.
pub fn icon_from_frame(frame: Option<PngFrame>) -> (r: Option<UiImage>)
    requires
        frame matches Some(f) ==> f.data@.len() <= 0x800000,
    ensures
        (match r {
            Some(img) => Some(image_view(img)),
            None => None,
        }) == icon_from_frame_spec(match frame {
            Some(f) => Some(frame_view(f)),
            None => None,
        }),
        r matches Some(img) ==> img.wf(),
{
    let frame = match frame {
        Some(f) => f,
        None => return None,
    };
    let rgba = match expand_to_rgba(frame.layout, frame.data.as_slice()) {
        Some(v) => v,
        None => return None,
    };
    proof {
        let n = frame.data@.len() as int;
        assert(rgba@.len() <= 4 * n) by {
            if frame.layout != PixelLayout::Rgba {
                assert(pixel_count(frame.layout, n) <= n);
            }
        }
        if is_rgba_layout(frame.width as int, frame.height as int, rgba@.len() as int) {
            assert(frame.width <= 0x800000 && frame.height <= 0x800000) by (nonlinear_arith)
                requires
                    frame.width * frame.height * 4 <= 4 * 0x800000,
                    frame.width >= 1,
                    frame.height >= 1;
        }
    }
    fit_rgba_icon(frame.width, frame.height, rgba.as_slice())
}

/// Decodes a PNG icon file and fits it to 48x48.
pub fn decode_png_icon(bytes: &[u8]) -> (r: Option<UiImage>)
    ensures
        (match r {
            Some(img) => Some(image_view(img)),
            None => None,
        }) == decoded_png_icon(bytes@),
        r matches Some(img) ==> img.wf(),
{
    let header = read_png_header(bytes);
    let n = match icon_buffer_size(header) {
        Some(n) => n,
        None => return None,
    };
    proof {
        assert(n <= 512 * 512 * 4) by (nonlinear_arith)
            requires
                n <= header.unwrap().width * header.unwrap().height * 4,
                header.unwrap().width <= 512,
                header.unwrap().height <= 512;
    }
    icon_from_frame(read_png_frame(bytes, n))
}

} // verus!
