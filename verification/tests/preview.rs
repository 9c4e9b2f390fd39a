use base64::Engine;
use knave_shell::desktop::{WorkspaceId, WorkspacePreview};
use knave_shell::preview::{decode_preview, preview_buffer_size, PREVIEW_HEIGHT, PREVIEW_WIDTH};
use knave_shell::raster::PngHeader;

fn encoded_preview(width: u32, height: u32) -> String {
    let mut encoded = Vec::new();
    {
        let mut encoder = png::Encoder::new(&mut encoded, width, height);
        encoder.set_color(png::ColorType::Rgba);
        encoder.set_depth(png::BitDepth::Eight);
        let mut writer = encoder.write_header().unwrap();
        writer
            .write_image_data(&vec![17; (width * height * 4) as usize])
            .unwrap();
    }
    base64::engine::general_purpose::STANDARD.encode(encoded)
}

#[test]
fn preview_decoder_accepts_bounded_rgba_png() {
    let preview = decode_preview(WorkspacePreview {
        workspace: WorkspaceId(1),
        width: PREVIEW_WIDTH,
        height: PREVIEW_HEIGHT,
        png_base64: encoded_preview(PREVIEW_WIDTH, PREVIEW_HEIGHT),
    })
    .unwrap();

    assert_eq!(preview.workspace, WorkspaceId(1));
    assert_eq!(preview.image.width(), PREVIEW_WIDTH);
    assert_eq!(preview.image.height(), PREVIEW_HEIGHT);
    assert_eq!(
        preview.image.pixels().len(),
        (PREVIEW_WIDTH * PREVIEW_HEIGHT * 4) as usize
    );
}

#[test]
fn preview_decoder_rejects_unrequested_dimensions() {
    assert!(
        decode_preview(WorkspacePreview {
            workspace: WorkspaceId(1),
            width: 64,
            height: 36,
            png_base64: String::new(),
        })
        .is_none()
    );
}

#[test]
fn preview_pixels_are_decoded() {
    let preview = decode_preview(WorkspacePreview {
        workspace: WorkspaceId(3),
        width: PREVIEW_WIDTH,
        height: PREVIEW_HEIGHT,
        png_base64: encoded_preview(PREVIEW_WIDTH, PREVIEW_HEIGHT),
    })
    .unwrap();
    assert!(preview.image.pixels().iter().all(|b| *b == 17));
}

#[test]
fn preview_with_other_frame_size_is_rejected() {
    assert!(
        decode_preview(WorkspacePreview {
            workspace: WorkspaceId(1),
            width: PREVIEW_WIDTH,
            height: PREVIEW_HEIGHT,
            png_base64: encoded_preview(64, 36),
        })
        .is_none()
    );
}

#[test]
fn preview_with_bad_base64_is_rejected() {
    assert!(
        decode_preview(WorkspacePreview {
            workspace: WorkspaceId(1),
            width: PREVIEW_WIDTH,
            height: PREVIEW_HEIGHT,
            png_base64: "***not base64***".to_string(),
        })
        .is_none()
    );
}

#[test]
fn preview_with_oversized_text_is_rejected() {
    assert!(
        decode_preview(WorkspacePreview {
            workspace: WorkspaceId(1),
            width: PREVIEW_WIDTH,
            height: PREVIEW_HEIGHT,
            png_base64: "A".repeat(512 * 1024 + 4),
        })
        .is_none()
    );
}

#[test]
fn preview_buffer_bounds() {
    let header = |w, h, out| Some(PngHeader { width: w, height: h, output_size: out });
    assert_eq!(preview_buffer_size(header(320, 180, Some(230400))), Some(230400));
    assert_eq!(preview_buffer_size(header(320, 180, Some(230401))), None);
    assert_eq!(preview_buffer_size(header(321, 180, Some(10))), None);
    assert_eq!(preview_buffer_size(header(0, 180, Some(0))), None);
}
