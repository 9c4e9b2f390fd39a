use vstd::prelude::*;

use std::io::Cursor;

verus! {

/// Pixel layout of decoded PNG data, at eight bits per sample.
#[derive(Clone, Copy, Debug, PartialEq, Eq, Structural)]
pub enum PixelLayout {
    Grayscale,
    Rgb,
    Indexed,
    GrayscaleAlpha,
    Rgba,
}

/// Image header of a PNG stream, read with palette expansion and 16-bit stripping.
#[derive(Clone, Copy, Debug, PartialEq, Eq, Structural)]
pub struct PngHeader {
    pub width: u32,
    pub height: u32,
    /// Bytes needed for one decoded frame, when that fits in memory.
    pub output_size: Option<usize>,
}

/// The first frame of a PNG stream, decoded with palette expansion and 16-bit stripping.
#[derive(Clone, Debug)]
pub struct PngFrame {
    pub width: u32,
    pub height: u32,
    pub layout: PixelLayout,
    /// The decoded rows, packed.
    pub data: Vec<u8>,
}

/// The header `png` reads from `bytes` (with `EXPAND | STRIP_16`), or `None` when it fails.
pub uninterp spec fn png_expanded_header(bytes: Seq<u8>) -> Option<(u32, u32, Option<usize>)>;

/// The first frame `png` decodes from `bytes` (with `EXPAND | STRIP_16`) into a
/// buffer of `buffer_len` bytes, or `None` when it fails.
pub uninterp spec fn png_expanded_frame(bytes: Seq<u8>, buffer_len: usize) -> Option<(u32, u32, PixelLayout, Seq<u8>)>;

/// The abstract content of a header.
pub open spec fn header_view(h: PngHeader) -> (u32, u32, Option<usize>) {
    (h.width, h.height, h.output_size)
}

/// The abstract content of a frame.
pub open spec fn frame_view(f: PngFrame) -> (u32, u32, PixelLayout, Seq<u8>) {
    (f.width, f.height, f.layout, f.data@)
}

/// `png::Decoder::read_info` with `EXPAND | STRIP_16`, then `Reader::info` and
/// `Reader::output_buffer_size`: the header of `bytes`, named `png_expanded_header`.
#[verifier::external_body]
pub(crate) fn read_png_header(bytes: &[u8]) -> (r: Option<PngHeader>)
    ensures
        (match r {
            Some(h) => Some(header_view(h)),
            None => None,
        }) == png_expanded_header(bytes@),
{
    let mut decoder = png::Decoder::new(Cursor::new(bytes));
    decoder.set_transformations(png::Transformations::EXPAND | png::Transformations::STRIP_16);
    match decoder.read_info() {
        Ok(reader) => Some(PngHeader {
            width: reader.info().width,
            height: reader.info().height,
            output_size: reader.output_buffer_size(),
        }),
        Err(_) => None,
    }
}

/// `png::Reader::next_frame` into a zeroed buffer of `buffer_len` bytes, after
/// `read_info` with `EXPAND | STRIP_16`: the first frame of `bytes`, its rows cut
/// to `OutputInfo::buffer_size`, named `png_expanded_frame`.
#[verifier::external_body]
pub(crate) fn read_png_frame(bytes: &[u8], buffer_len: usize) -> (r: Option<PngFrame>)
    ensures
        (match r {
            Some(f) => Some(frame_view(f)),
            None => None,
        }) == png_expanded_frame(bytes@, buffer_len),
        r matches Some(f) ==> f.data@.len() <= buffer_len,
{
    let mut decoder = png::Decoder::new(Cursor::new(bytes));
    decoder.set_transformations(png::Transformations::EXPAND | png::Transformations::STRIP_16);
    let mut reader = match decoder.read_info() { Ok(reader) => reader, Err(_) => return None };
    let mut buffer = vec![0u8; buffer_len];
    let info = match reader.next_frame(&mut buffer) { Ok(info) => info, Err(_) => return None };
    buffer.truncate(info.buffer_size());
    let layout = match info.color_type {
        png::ColorType::Grayscale => PixelLayout::Grayscale,
        png::ColorType::Rgb => PixelLayout::Rgb,
        png::ColorType::Indexed => PixelLayout::Indexed,
        png::ColorType::GrayscaleAlpha => PixelLayout::GrayscaleAlpha,
        png::ColorType::Rgba => PixelLayout::Rgba,
    };
    Some(PngFrame { width: info.width, height: info.height, layout, data: buffer })
}

/// Number of whole pixels in `data` for a layout.
pub open spec fn pixel_count(layout: PixelLayout, len: int) -> int {
    match layout {
        PixelLayout::Grayscale => len,
        PixelLayout::Rgb => len / 3,
        PixelLayout::GrayscaleAlpha => len / 2,
        _ => len / 4,
    }
}

/// Channel `c` of pixel `j` of `data` once widened to RGBA8.
pub open spec fn rgba_byte(layout: PixelLayout, data: Seq<u8>, j: int, c: int) -> u8 {
    match layout {
        PixelLayout::Grayscale => if c < 3 { data[j] } else { 255u8 },
        PixelLayout::Rgb => if c < 3 { data[3 * j + c] } else { 255u8 },
        PixelLayout::GrayscaleAlpha => if c < 3 { data[2 * j] } else { data[2 * j + 1] },
        _ => data[4 * j + c],
    }
}

/// `data` widened to RGBA8: gray is copied to the three color channels, missing
/// alpha is opaque, and a trailing partial pixel is dropped. Paletted data has
/// no RGBA form.
pub open spec fn expanded_rgba(layout: PixelLayout, data: Seq<u8>) -> Option<Seq<u8>> {
    match layout {
        PixelLayout::Indexed => None,
        PixelLayout::Rgba => Some(data),
        _ => Some(Seq::new((pixel_count(layout, data.len() as int) * 4) as nat, |k: int| rgba_byte(layout, data, k / 4, k % 4))),
    }
}

/// Widens decoded PNG data to RGBA8; `None` for paletted data.
pub fn expand_to_rgba(layout: PixelLayout, data: &[u8]) -> (r: Option<Vec<u8>>)
    ensures
        (match r {
            Some(v) => Some(v@),
            None => None,
        }) == expanded_rgba(layout, data@),
{
    match layout {
        PixelLayout::Indexed => return None,
        PixelLayout::Rgba => return Some(vstd::slice::slice_to_vec(data)),
        _ => {},
    }
    let len = data.len();
    let n = match layout {
        PixelLayout::Grayscale => len,
        PixelLayout::Rgb => len / 3,
        _ => len / 2,
    };
    let ghost d = data@;
    let mut out: Vec<u8> = Vec::new();
    let mut j: usize = 0;
    while j < n
        invariant
            d == data@,
            len == d.len(),
            layout != PixelLayout::Indexed && layout != PixelLayout::Rgba,
            n == pixel_count(layout, len as int),
            j <= n,
            out@.len() == 4 * j,
            forall|i: int, c: int| 0 <= i < j && 0 <= c < 4 ==> out@[4 * i + c] == rgba_byte(layout, d, i, c),
        decreases n - j,
    {
        let ghost before = out@;
        let (r, g, b, a) = match layout {
            PixelLayout::Grayscale => (data[j], data[j], data[j], 255u8),
            PixelLayout::Rgb => (data[3 * j], data[3 * j + 1], data[3 * j + 2], 255u8),
            _ => (data[2 * j], data[2 * j], data[2 * j], data[2 * j + 1]),
        };
        out.push(r);
        out.push(g);
        out.push(b);
        out.push(a);
        assert forall|i: int, c: int| 0 <= i < j + 1 && 0 <= c < 4 implies out@[4 * i + c] == rgba_byte(layout, d, i, c) by {
            if i < j {
                assert(out@[4 * i + c] == before[4 * i + c]);
            }
        }
        j = j + 1;
    }
    proof {
        assert forall|k: int| 0 <= k < 4 * n implies out@[k] == rgba_byte(layout, d, k / 4, k % 4) by {
            assert(k == 4 * (k / 4) + k % 4);
        }
        assert(out@ =~= expanded_rgba(layout, d).unwrap());
    }
    Some(out)
}

} // verus!
