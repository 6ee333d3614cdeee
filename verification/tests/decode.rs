use std::io::Cursor;

use rust_viewer_pro::decode::{decode_bytes, needs_downscale, MAX_ALLOC_BYTES, MAX_DIMENSION};

fn png_bytes(width: u32, height: u32) -> Vec<u8> {
    let mut bytes = Vec::new();
    image::RgbaImage::from_pixel(width, height, image::Rgba([10, 20, 30, 255]))
        .write_to(&mut Cursor::new(&mut bytes), image::ImageFormat::Png)
        .unwrap();
    bytes
}

#[test]
fn decodes_a_valid_image_and_downscales() {
    let bytes = png_bytes(200, 100);

    // No downscale needed.
    let full = decode_bytes(&bytes, 4096).unwrap();
    assert_eq!([full.width, full.height], [200, 100]);

    // Downscaled to fit within 50 px on the longest edge.
    let small = decode_bytes(&bytes, 50).unwrap();
    assert!(small.width <= 50 && small.height <= 50);
}

#[test]
fn rejects_garbage_without_panicking() {
    // Must return an error, not panic or hang.
    assert!(decode_bytes(b"this is definitely not an image", 4096).is_err());
}

#[test]
fn downscale_keeps_the_aspect_ratio() {
    let bytes = png_bytes(200, 100);
    let small = decode_bytes(&bytes, 50).unwrap();
    assert_eq!([small.width, small.height], [50, 25]);
    assert_eq!(small.rgba.len(), 50 * 25 * 4);
    assert_eq!(&small.rgba[0..4], &[10, 20, 30, 255]);
}

#[test]
fn exact_fit_is_not_resized() {
    let bytes = png_bytes(64, 32);
    let p = decode_bytes(&bytes, 64).unwrap();
    assert_eq!([p.width, p.height], [64, 32]);
    assert_eq!(p.rgba.len(), 64 * 32 * 4);
}

#[test]
fn needs_downscale_compares_the_longest_edge() {
    assert!(!needs_downscale(200, 100, 4096));
    assert!(!needs_downscale(200, 100, 200));
    assert!(needs_downscale(200, 100, 199));
    assert!(needs_downscale(100, 201, 200));
    assert!(needs_downscale(1, 1, 0));
}

#[test]
fn limits_are_the_documented_ones() {
    assert_eq!(MAX_DIMENSION, 30_000);
    assert_eq!(MAX_ALLOC_BYTES, 1 << 30);
}

#[test]
fn oversized_dimensions_are_rejected() {
    let bytes = png_bytes(30_001, 1);
    let err = decode_bytes(&bytes, 4096).unwrap_err();
    assert!(!err.is_empty());
}

#[test]
fn error_message_comes_from_the_decoder() {
    let err = decode_bytes(b"\x89PNG\r\n\x1a\nbroken", 4096).unwrap_err();
    assert!(!err.is_empty());
}

#[test]
fn icon_decodes_or_is_empty() {
    let icon = rust_viewer_pro::decode::icon_pixels(&png_bytes(16, 8));
    assert_eq!([icon.width, icon.height], [16, 8]);
    assert_eq!(icon.rgba.len(), 16 * 8 * 4);
    let none = rust_viewer_pro::decode::icon_pixels(b"nope");
    assert_eq!([none.width, none.height], [0, 0]);
    assert!(none.rgba.is_empty());
}

fn gradient_png(width: u32, height: u32) -> (Vec<u8>, image::DynamicImage) {
    let img = image::RgbaImage::from_fn(width, height, |x, y| {
        image::Rgba([(x * 40) as u8, (y * 60) as u8, ((x + y) * 10) as u8, 255])
    });
    let mut bytes = Vec::new();
    img.write_to(&mut Cursor::new(&mut bytes), image::ImageFormat::Png).unwrap();
    (bytes, image::DynamicImage::ImageRgba8(img))
}

#[test]
fn pixels_are_those_of_the_decoded_image() {
    let (bytes, original) = gradient_png(5, 3);
    let p = decode_bytes(&bytes, 4096).unwrap();
    assert_eq!([p.width, p.height], [5, 3]);
    assert_eq!(p.rgba, original.to_rgba8().into_raw());
    // The same bytes give the same pixels.
    assert_eq!(decode_bytes(&bytes, 4096).unwrap().rgba, p.rgba);
}

#[test]
fn downscaling_uses_the_triangle_filter() {
    let (bytes, original) = gradient_png(6, 4);
    let p = decode_bytes(&bytes, 3).unwrap();
    let expected = original.resize(3, 3, image::imageops::FilterType::Triangle).to_rgba8();
    assert_eq!([p.width, p.height], [expected.width(), expected.height()]);
    assert_eq!(p.rgba, expected.into_raw());
    let nearest = original.resize(3, 3, image::imageops::FilterType::Nearest).to_rgba8();
    assert_ne!(p.rgba, nearest.into_raw());
}

#[test]
fn icon_holds_the_decoded_pixels() {
    let (bytes, original) = gradient_png(4, 2);
    let icon = rust_viewer_pro::decode::icon_pixels(&bytes);
    assert_eq!(icon.rgba, original.to_rgba8().into_raw());
}
