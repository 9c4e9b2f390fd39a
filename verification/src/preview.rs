use vstd::prelude::*;

use base64::Engine;

use crate::desktop::{WorkspaceId, WorkspacePreview};
use crate::raster::{
    expand_to_rgba, expanded_rgba, frame_view, header_view, png_expanded_frame, png_expanded_header,
    read_png_frame, read_png_header, PixelLayout, PngFrame, PngHeader,
};
use crate::ui::{is_rgba_layout, UiImage, WorkspacePreviewImage};
use vstd::utf8::encode_utf8;

verus! {

/// Width of every requested workspace preview.
pub const PREVIEW_WIDTH: u32 = 320;

/// Height of every requested workspace preview.
pub const PREVIEW_HEIGHT: u32 = 180;

/// Most pixels a preview may decode to.
pub const MAX_PREVIEW_PIXELS: u64 = 57600;

/// Most bytes of base64 text a preview may carry.
pub const MAX_PREVIEW_BASE64_LENGTH: usize = 524288;

/// Most workspaces previews are requested for per snapshot.
pub const MAX_PREVIEWS: usize = 10;

/// The bytes that the standard base64 engine (with padding) decodes `input` to,
/// or `None` when it rejects the input.
pub uninterp spec fn base64_standard_decode(input: Seq<u8>) -> Option<Seq<u8>>;

/// `base64::engine::general_purpose::STANDARD.decode`: named `base64_standard_decode`.
#[verifier::external_body]
fn decode_base64(input: &[u8]) -> (r: Option<Vec<u8>>)
    ensures
        (match r {
            Some(v) => Some(v@),
            None => None,
        }) == base64_standard_decode(input@),
{
    match base64::engine::general_purpose::STANDARD.decode(input) {
        Ok(bytes) => Some(bytes),
        Err(_) => None,
    }
}

/// The abstract content of a decoded preview.
pub open spec fn preview_view(p: WorkspacePreviewImage) -> (WorkspaceId, u32, u32, Seq<u8>) {
    (p.workspace, p.image.spec_width(), p.image.spec_height(), p.image.spec_pixels())
}

/// The buffer a preview frame is decoded into: the header must describe between
/// one and 57,600 pixels, and the decoded frame must fit in four bytes per pixel.
pub open spec fn preview_buffer_len(h: Option<(u32, u32, Option<usize>)>) -> Option<usize> {
    match h {
        None => None,
        Some((w, hh, out)) => {
            let px = w * hh;
            if px == 0 || px > MAX_PREVIEW_PIXELS {
                None
            } else {
                match out {
                    None => None,
                    Some(n) => if n > px * 4 { None } else { Some(n) },
                }
            }
        },
    }
}

/// A decoded frame becomes the preview of `workspace` when it has the requested
/// size and widens to RGBA8.
pub open spec fn preview_from_frame(
    workspace: WorkspaceId,
    width: u32,
    height: u32,
    f: Option<(u32, u32, PixelLayout, Seq<u8>)>,
) -> Option<(WorkspaceId, u32, u32, Seq<u8>)> {
    match f {
        None => None,
        Some((fw, fh, layout, data)) => {
            if fw != width || fh != height {
                None
            } else {
                match expanded_rgba(layout, data) {
                    None => None,
                    Some(rgba) => if is_rgba_layout(fw as int, fh as int, rgba.len() as int) {
                        Some((workspace, fw, fh, rgba))
                    } else {
                        None
                    },
                }
            }
        },
    }
}

/// A preview decodes when it has the requested 320x180 size, at most 512 KiB of
/// base64 text that decodes, a PNG header within the pixel bound, and a first
/// frame of the same size that widens to RGBA8.
pub open spec fn decoded_preview(p: WorkspacePreview) -> Option<(WorkspaceId, u32, u32, Seq<u8>)> {
    let text = encode_utf8(p.png_base64@);
    if p.width != PREVIEW_WIDTH || p.height != PREVIEW_HEIGHT {
        None
    } else if text.len() > MAX_PREVIEW_BASE64_LENGTH {
        None
    } else {
        match base64_standard_decode(text) {
            None => None,
            Some(bytes) => match preview_buffer_len(png_expanded_header(bytes)) {
                None => None,
                Some(n) => preview_from_frame(p.workspace, p.width, p.height, png_expanded_frame(bytes, n)),
            },
        }
    }
}

/// The buffer size a preview frame is decoded into, or `None` when the header
/// is missing, empty, too large, or does not fit four bytes per pixel.
pub fn preview_buffer_size(header: Option<PngHeader>) -> (r: Option<usize>)
    ensures
        r == preview_buffer_len(match header {
            Some(h) => Some(header_view(h)),
            None => None,
        }),
{
    let h = match header {
        Some(h) => h,
        None => return None,
    };
    assert((h.width as u64) * (h.height as u64) <= 0xffff_ffffu64 * 0xffff_ffffu64) by (nonlinear_arith)
        requires h.width <= 0xffff_ffffu32, h.height <= 0xffff_ffffu32;
    let px = (h.width as u64) * (h.height as u64);
    if px == 0 || px > MAX_PREVIEW_PIXELS {
        return None;
    }
    let max_bytes = (px * 4) as usize;
    match h.output_size {
        None => None,
        Some(n) => if n > max_bytes { None } else { Some(n) },
    }
}

/// The preview of `workspace` made from a decoded frame, when it has the
/// requested size and widens to RGBA8.
pub fn preview_image(workspace: WorkspaceId, width: u32, height: u32, frame: Option<PngFrame>) -> (r: Option<WorkspacePreviewImage>)
    ensures
        (match r {
            Some(p) => Some(preview_view(p)),
            None => None,
        }) == preview_from_frame(workspace, width, height, match frame {
            Some(f) => Some(frame_view(f)),
            None => None,
        }),
        r matches Some(p) ==> p.image.wf(),
{
    let frame = match frame {
        Some(f) => f,
        None => return None,
    };
    if frame.width != width || frame.height != height {
        return None;
    }
    let rgba = match expand_to_rgba(frame.layout, frame.data.as_slice()) {
        Some(v) => v,
        None => return None,
    };
    match UiImage::from_rgba(frame.width, frame.height, rgba) {
        Some(image) => Some(WorkspacePreviewImage { workspace, image }),
        None => None,
    }
}

/// Decodes a compositor preview into an RGBA8 image, refusing anything other
/// than the requested size and anything beyond the size bounds.
pub fn decode_preview(preview: WorkspacePreview) -> (r: Option<WorkspacePreviewImage>)
    ensures
        (match r {
            Some(p) => Some(preview_view(p)),
            None => None,
        }) == decoded_preview(preview),
        r matches Some(p) ==> p.image.wf(),
{
    if preview.width != PREVIEW_WIDTH || preview.height != PREVIEW_HEIGHT {
        return None;
    }
    let text = preview.png_base64.as_str().as_bytes();
    if text.len() > MAX_PREVIEW_BASE64_LENGTH {
        return None;
    }
    let encoded = match decode_base64(text) {
        Some(bytes) => bytes,
        None => return None,
    };
    let header = read_png_header(encoded.as_slice());
    let n = match preview_buffer_size(header) {
        Some(n) => n,
        None => return None,
    };
    let frame = read_png_frame(encoded.as_slice(), n);
    preview_image(preview.workspace, preview.width, preview.height, frame)
}

} // verus!
