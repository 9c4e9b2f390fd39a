use knave_shell::icon::{decode_png_icon, fit_rgba_icon, icon_buffer_size, ICON_SIZE};
use knave_shell::raster::{expand_to_rgba, PixelLayout, PngHeader};
use knave_shell::ui::UiImage;

fn encode_png(width: u32, height: u32, color: png::ColorType, data: &[u8]) -> Vec<u8> {
    let mut encoded = Vec::new();
    {
        let mut encoder = png::Encoder::new(&mut encoded, width, height);
        encoder.set_color(color);
        encoder.set_depth(png::BitDepth::Eight);
        let mut writer = encoder.write_header().unwrap();
        writer.write_image_data(data).unwrap();
    }
    encoded
}

#[test]
fn icon_fit_smoothly_resamples_edges() {
    let icon = fit_rgba_icon(2, 1, &[0, 0, 0, 255, 255, 255, 255, 255]).unwrap();
    let row = &icon.pixels()[12 * 48 * 4..13 * 48 * 4];
    assert!(
        row.chunks(4)
            .any(|pixel| pixel.len() == 4 && pixel[0] > 0 && pixel[0] < 255)
    );
}

#[test]
fn icon_fit_preserves_aspect_and_bounds_pixels() {
    let pixels = vec![255; 96 * 48 * 4];
    let icon = fit_rgba_icon(96, 48, &pixels).unwrap();
    assert_eq!((icon.width(), icon.height()), (48, 48));
    assert_eq!(icon.pixels().len(), 48 * 48 * 4);
    assert_eq!(icon.pixels()[0], 0);
    assert_eq!(icon.pixels()[24 * 48 * 4], 255);
}

#[test]
fn icon_fit_rejects_mismatched_buffers() {
    assert!(fit_rgba_icon(0, 4, &[]).is_none());
    assert!(fit_rgba_icon(2, 2, &[0; 15]).is_none());
    assert!(fit_rgba_icon(u32::MAX, u32::MAX, &[0; 4]).is_none());
}

#[test]
fn icon_fit_centers_a_tall_image() {
    let pixels = vec![200; 10 * 20 * 4];
    let icon = fit_rgba_icon(10, 20, &pixels).unwrap();
    let px = icon.pixels();
    // 10x20 becomes 24x48, centered horizontally at columns 12..36.
    assert_eq!(px[(5 * 48 + 11) * 4 + 3], 0);
    assert_eq!(px[(5 * 48 + 12) * 4 + 3], 200);
    assert_eq!(px[(5 * 48 + 35) * 4 + 3], 200);
    assert_eq!(px[(5 * 48 + 36) * 4 + 3], 0);
    assert_eq!(px[(5 * 48 + 20) * 4], 200);
}

#[test]
fn icon_fit_blends_by_alpha() {
    // Opaque red beside a transparent green pixel: color stays red where alpha is mixed.
    let icon = fit_rgba_icon(2, 1, &[255, 0, 0, 255, 0, 255, 0, 0]).unwrap();
    let px = icon.pixels();
    let mid = (12 * 48 + 24) * 4;
    assert_eq!(px[mid], 255);
    assert_eq!(px[mid + 1], 0);
    assert!(px[mid + 3] > 0 && px[mid + 3] < 255);
}

#[test]
fn icon_fit_exact_sample_value() {
    // Black then white: target column 12 samples 2/96 of the way to white.
    let icon = fit_rgba_icon(2, 1, &[0, 0, 0, 255, 255, 255, 255, 255]).unwrap();
    let px = icon.pixels();
    assert_eq!(px[(12 * 48 + 12) * 4], 5);
    assert_eq!(px[(12 * 48 + 12) * 4 + 3], 255);
}

#[test]
fn rgba_expansion_of_each_layout() {
    assert_eq!(expand_to_rgba(PixelLayout::Grayscale, &[7, 9]).unwrap(), vec![7, 7, 7, 255, 9, 9, 9, 255]);
    assert_eq!(expand_to_rgba(PixelLayout::Rgb, &[1, 2, 3, 4]).unwrap(), vec![1, 2, 3, 255]);
    assert_eq!(expand_to_rgba(PixelLayout::GrayscaleAlpha, &[5, 6, 7]).unwrap(), vec![5, 5, 5, 6]);
    assert_eq!(expand_to_rgba(PixelLayout::Rgba, &[1, 2, 3, 4]).unwrap(), vec![1, 2, 3, 4]);
    assert!(expand_to_rgba(PixelLayout::Indexed, &[1, 2, 3]).is_none());
}

#[test]
fn png_icon_decodes_to_48_square() {
    let data = vec![90u8; 16 * 8 * 3];
    let png = encode_png(16, 8, png::ColorType::Rgb, &data);
    let icon = decode_png_icon(&png).unwrap();
    assert_eq!((icon.width(), icon.height()), (ICON_SIZE, ICON_SIZE));
    assert_eq!(icon.pixels()[(24 * 48 + 24) * 4], 90);
    assert_eq!(icon.pixels()[(24 * 48 + 24) * 4 + 3], 255);
    assert_eq!(icon.pixels()[3], 0);
}

#[test]
fn png_icon_rejects_large_and_broken_files() {
    let data = vec![0u8; 600 * 1];
    let png = encode_png(600, 1, png::ColorType::Grayscale, &data);
    assert!(decode_png_icon(&png).is_none());
    assert!(decode_png_icon(b"not a png").is_none());
}

#[test]
fn icon_buffer_bounds() {
    let header = |w, h, out| Some(PngHeader { width: w, height: h, output_size: out });
    assert_eq!(icon_buffer_size(header(4, 4, Some(64))), Some(64));
    assert_eq!(icon_buffer_size(header(4, 4, Some(65))), None);
    assert_eq!(icon_buffer_size(header(513, 4, Some(10))), None);
    assert_eq!(icon_buffer_size(header(0, 4, Some(0))), None);
    assert_eq!(icon_buffer_size(header(4, 4, None)), None);
    assert_eq!(icon_buffer_size(None), None);
}

#[test]
fn images_check_their_layout() {
    assert!(UiImage::from_rgba(2, 2, vec![0; 16]).is_some());
    assert!(UiImage::from_rgba(2, 2, vec![0; 15]).is_none());
    assert!(UiImage::from_rgba(0, 2, vec![]).is_none());
    let image = UiImage::from_rgba(1, 1, vec![1, 2, 3, 4]).unwrap();
    assert_eq!((image.width(), image.height(), image.pixels()), (1, 1, &[1u8, 2, 3, 4][..]));
}

#[test]
fn icon_fit_rounds_extents_at_single_precision() {
    let pixels = vec![255; 608 * 95 * 4];
    let icon = fit_rgba_icon(608, 95, &pixels).unwrap();
    let alpha = |row: usize, col: usize| icon.pixels()[(row * 48 + col) * 4 + 3];
    assert_eq!(alpha(19, 0), 0);
    assert_eq!(alpha(20, 0), 255);
    assert_eq!(alpha(26, 47), 255);
    assert_eq!(alpha(27, 0), 0);
}

fn icon_checksum(width: u32, height: u32, a: u64, b: u64) -> u64 {
    let pixels: Vec<u8> = (0..(width * height * 4) as u64).map(|i| ((i * a + b) % 256) as u8).collect();
    let icon = fit_rgba_icon(width, height, &pixels).unwrap();
    icon.pixels()
        .iter()
        .enumerate()
        .fold(0u64, |sum, (i, &v)| (sum + (i as u64 + 1) * v as u64) % (1u64 << 32))
}

#[test]
fn icon_fit_samples_at_single_precision() {
    let icon = fit_rgba_icon(2, 1, &[255, 255, 255, 1, 0, 0, 0, 3]).unwrap();
    assert_eq!(icon.pixels()[(12 * 48 + 22) * 4], 76);
    assert_eq!(icon_checksum(3, 2, 73, 41), 3278739626);
    assert_eq!(icon_checksum(5, 7, 37, 11), 3817415918);
    assert_eq!(icon_checksum(13, 4, 101, 7), 1637423122);
    assert_eq!(icon_checksum(47, 9, 59, 3), 960811093);
}
