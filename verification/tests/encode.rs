use clip_llm::files::decode_png_rgba;
use clip_llm::images::decode::decode_rgba;
use clip_llm::images::encode::box_resample;
use clip_llm::images::encode::check_pixel_budget;
use clip_llm::images::encode::downscale_rgba;
use clip_llm::images::encode::encode_for_upload;
use clip_llm::images::encode::encode_rgba_for_upload;
use clip_llm::images::encode::rgba_to_png;
use clip_llm::images::encode::MAX_IMAGE_LONG_EDGE;
use clip_llm::images::encode::MAX_IMAGE_PIXELS;
use clip_llm::images::scale::Ratio;
use clip_llm::images::ImageMime;
use clip_llm::images::ImageOrigin;
use clip_llm::ClipboardError;

// -- rgba_to_png tests --

#[test]
fn encode_rgba_to_png_valid_data() {
    // 2x2 RGBA pixels (16 bytes)
    let pixels: Vec<u8> = vec![
        255, 0, 0, 255, 0, 255, 0, 255, 0, 0, 255, 255, 255, 255, 255, 255,
    ];
    let png = rgba_to_png(&pixels, 2, 2).unwrap();

    // PNG signature: 0x89 P N G
    assert!(png.len() > 8);
    assert_eq!(&png[..4], &[0x89, 0x50, 0x4E, 0x47]);
}

#[test]
fn encode_rgba_to_png_invalid_dimensions() {
    // 3 bytes is not enough for any valid RGBA image
    let result = rgba_to_png(&[0, 0, 0], 2, 2);
    assert!(matches!(result, Err(ClipboardError::ImageEncodeFailed(_))));
}

// -- downscale_rgba tests --

/// Build a solid-color RGBA buffer for testing (cheap, no need for varied pixels).
fn solid_rgba(width: u32, height: u32, color: [u8; 4]) -> Vec<u8> {
    let mut buf = Vec::with_capacity((width * height * 4) as usize);
    for _ in 0..(width * height) {
        buf.extend_from_slice(&color);
    }
    buf
}

#[test]
fn encode_downscale_rgba_noop_for_small_image() {
    let pixels = solid_rgba(100, 50, [10, 20, 30, 255]);
    let result = downscale_rgba(&pixels, 100, 50);
    assert!(result.is_none());
}

#[test]
fn encode_downscale_rgba_noop_at_exact_threshold() {
    // Long edge exactly at the cap must not be resampled.
    let pixels = solid_rgba(MAX_IMAGE_LONG_EDGE, 100, [1, 2, 3, 255]);
    let result = downscale_rgba(&pixels, MAX_IMAGE_LONG_EDGE, 100);
    assert!(result.is_none());
}

#[test]
fn encode_downscale_rgba_scales_down_preserving_aspect_ratio() {
    // 2x oversized square-ish image: long edge should land exactly on the cap.
    let width = MAX_IMAGE_LONG_EDGE * 2;
    let height = MAX_IMAGE_LONG_EDGE;
    let pixels = solid_rgba(width, height, [200, 100, 50, 255]);

    let (resized, new_w, new_h) = downscale_rgba(&pixels, width, height).unwrap();

    assert_eq!(new_w, MAX_IMAGE_LONG_EDGE);
    assert_eq!(new_h, MAX_IMAGE_LONG_EDGE / 2);
    assert_eq!(resized.len(), (new_w * new_h * 4) as usize);

    // Aspect ratio preserved (within rounding).
    let orig_ratio = width as f64 / height as f64;
    let new_ratio = new_w as f64 / new_h as f64;
    assert!((orig_ratio - new_ratio).abs() < 0.01);
}

#[test]
fn encode_downscale_rgba_solid_color_preserved() {
    // A solid-color image should downscale to the same solid color (box
    // filter averaging a uniform region yields that same value).
    let width = MAX_IMAGE_LONG_EDGE * 2;
    let height = MAX_IMAGE_LONG_EDGE;
    let color = [77, 88, 99, 255];
    let pixels = solid_rgba(width, height, color);

    let (resized, new_w, new_h) = downscale_rgba(&pixels, width, height).unwrap();

    for chunk in resized.chunks_exact(4) {
        assert_eq!(chunk, color);
    }
    assert_eq!(resized.len(), (new_w * new_h * 4) as usize);
}

#[test]
fn encode_downscale_rgba_degenerate_1px_wide() {
    // Extremely tall, 1px-wide image: width must stay clamped to at least 1
    // after scaling, height clamped to the cap.
    let width = 1;
    let height = MAX_IMAGE_LONG_EDGE * 10;
    let pixels = solid_rgba(width, height, [5, 6, 7, 255]);

    let (resized, new_w, new_h) = downscale_rgba(&pixels, width, height).unwrap();

    assert_eq!(new_w, 1);
    assert_eq!(new_h, MAX_IMAGE_LONG_EDGE);
    assert_eq!(resized.len(), (new_w * new_h * 4) as usize);
}

#[test]
fn encode_downscale_rgba_zero_dimension_is_noop() {
    // Degenerate zero-sized image must not panic or divide by zero.
    assert!(downscale_rgba(&[], 0, 0).is_none());
    assert!(downscale_rgba(&[], 0, 100).is_none());
}

// --- resampling ---

#[test]
fn a_box_is_the_mean_of_its_pixels() {
    let src = [0, 0, 0, 0, 10, 20, 30, 40, 20, 40, 60, 80, 30, 60, 90, 120];
    assert_eq!(box_resample(&src, 2, 2, 1, 1), vec![15, 30, 45, 60]);
    assert_eq!(box_resample(&src, 2, 2, 2, 2), src.to_vec());
}

#[test]
fn ratios_scale_as_doubles_do() {
    for (a, b) in [(1568u32, 3001u32), (1568, 1569), (3, 7), (49, 49), (1568, 4095), (1000, 3)] {
        let ratio = a as f64 / b as f64;
        let exact = Ratio::new(a, b);
        for d in [1u32, 2, 3, 7, 49, 50, 98, 1568, 1569, 3001, 4095, 100_000, 16_777_217] {
            let product = d as f64 * ratio;
            assert_eq!(exact.floor(d), product.floor() as u128, "{d} * {a}/{b}");
            assert_eq!(exact.ceil(d), product.ceil() as u128, "{d} * {a}/{b}");
            assert_eq!(exact.round(d), product.round() as u128, "{d} * {a}/{b}");
        }
    }
}

// --- uploading ---

#[test]
fn an_image_that_is_too_large_is_refused() {
    assert!(check_pixel_budget(1000, 1000).is_ok());
    let side = 20_000u32;
    assert!(u64::from(side) * u64::from(side) > MAX_IMAGE_PIXELS);
    assert!(matches!(
        check_pixel_budget(side, side),
        Err(ClipboardError::ImageTooLarge { width: 20_000, height: 20_000 })
    ));
}

#[test]
fn an_upload_is_a_png_of_the_sent_size() {
    let small = solid_rgba(4, 2, [1, 2, 3, 255]);
    let png = encode_rgba_for_upload(small.clone(), 4, 2).unwrap();
    let (rgba, w, h) = decode_png_rgba(&png).unwrap().unwrap();
    assert_eq!((rgba, w, h), (small, 4, 2));

    let width = MAX_IMAGE_LONG_EDGE * 2;
    let large = solid_rgba(width, 10, [1, 2, 3, 255]);
    let sent = encode_for_upload(large, width, 10, ImageOrigin::Clipboard).unwrap();
    assert_eq!((sent.width, sent.height), (MAX_IMAGE_LONG_EDGE, 5));
    assert_eq!((sent.source_width, sent.source_height), (width, 10));
    assert_eq!(sent.mime, ImageMime::Png);
    assert_eq!(sent.origin, ImageOrigin::Clipboard);
    assert!(sent.is_resized());
    let (_, w, h) = decode_png_rgba(&sent.bytes).unwrap().unwrap();
    assert_eq!((w, h), (MAX_IMAGE_LONG_EDGE, 5));
}

#[test]
fn a_file_decodes_to_the_pixels_it_was_made_of() {
    let pixels: Vec<u8> = (0..7 * 5 * 4).map(|i| (i * 37 % 256) as u8).collect();
    let png = rgba_to_png(&pixels, 7, 5).unwrap();
    assert_eq!(&png[..8], &[0x89, 0x50, 0x4e, 0x47, 0x0d, 0x0a, 0x1a, 0x0a]);
    assert_eq!(decode_rgba(&png).unwrap(), Some((pixels.clone(), 7, 5)));
    // As one long line, and as what is sent of it.
    let width = MAX_IMAGE_LONG_EDGE * 2;
    let wide: Vec<u8> = (0..width as usize * 4).map(|i| (i % 251) as u8).collect();
    let png = rgba_to_png(&wide, width, 1).unwrap();
    assert_eq!(decode_rgba(&png).unwrap(), Some((wide.clone(), width, 1)));
    let sent = downscale_rgba(&wide, width, 1).unwrap();
    let png = encode_rgba_for_upload(wide, width, 1).unwrap();
    assert_eq!(decode_rgba(&png).unwrap(), Some(sent));
}
