use clip_llm::images::filter::assess_pixels;
use clip_llm::images::filter::prefilter;
use clip_llm::images::filter::select_top;
use clip_llm::images::filter::ImgHint;
use clip_llm::images::filter::Rejection;

fn solid(w: u32, h: u32, px: [u8; 4]) -> Vec<u8> {
    px.iter().copied().cycle().take((w * h * 4) as usize).collect()
}

/// Solid white with a black rectangle in the middle.
fn with_black_box(w: u32, h: u32) -> Vec<u8> {
    let mut buf = solid(w, h, [255, 255, 255, 255]);
    for y in h / 4..h / 2 {
        for x in w / 4..w / 2 {
            let i = ((y * w + x) * 4) as usize;
            buf[i..i + 3].copy_from_slice(&[0, 0, 0]);
        }
    }
    buf
}

fn hint(src: &str) -> ImgHint<'_> {
    ImgHint { src, ..Default::default() }
}

#[test]
fn prefilter_rejects_tracking_pixel_and_tiny_display_size() {
    let px = ImgHint { width: Some(1), height: Some(1), ..hint("https://t.example/p.gif") };
    assert_eq!(prefilter(&px), Err(Rejection::TooSmall { width: 1, height: 1 }));
    let small = ImgHint { width: Some(32), height: None, ..hint("https://h/a.png") };
    assert!(matches!(prefilter(&small), Err(Rejection::TooSmall { .. })));
    let tall_thin = ImgHint { width: Some(400), height: Some(20), ..hint("https://h/a.png") };
    assert!(matches!(prefilter(&tall_thin), Err(Rejection::TooSmall { .. })));
}

#[test]
fn prefilter_keeps_missing_dimensions_and_normal_sizes() {
    assert_eq!(prefilter(&hint("https://h/chart.png")), Ok(()));
    let sized = ImgHint { width: Some(640), height: Some(480), ..hint("https://h/chart.png") };
    assert_eq!(prefilter(&sized), Ok(()));
    let one_side = ImgHint { width: Some(640), height: None, ..hint("https://h/chart.png") };
    assert_eq!(prefilter(&one_side), Ok(()));
}

#[test]
fn prefilter_rejects_decorative_hints() {
    assert_eq!(prefilter(&hint("https://h/img/emoji/1f600.png")), Err(Rejection::Decorative("emoji")));
    let cls = ImgHint { class: Some("user-avatar small"), ..hint("https://h/u/42.jpg") };
    assert_eq!(prefilter(&cls), Err(Rejection::Decorative("avatar")));
    let alt = ImgHint { alt: Some("Company Logo"), ..hint("https://h/u/42.jpg") };
    assert_eq!(prefilter(&alt), Err(Rejection::Decorative("logo")));
    // Only the path is inspected, never the query string or host.
    assert_eq!(prefilter(&hint("https://icon.example/photos/beach.jpg?ref=logo")), Ok(()));
}

#[test]
fn prefilter_survives_multibyte_sources() {
    // A byte-indexed scheme check would slice inside the second Hangul
    // syllable here and panic.
    assert_eq!(prefilter(&hint("한글경로/그림.png")), Ok(()));
    assert_eq!(prefilter(&hint("한글경로/아이콘.svg")), Err(Rejection::Vector));
    assert_eq!(prefilter(&hint("데이터:x")), Ok(()));
}

#[test]
fn prefilter_rejects_vector_sources() {
    assert_eq!(prefilter(&hint("data:image/svg+xml;base64,PHN2Zz4=")), Err(Rejection::Vector));
    assert_eq!(prefilter(&hint("https://h/diagram.SVG?v=2")), Err(Rejection::Vector));
    assert_eq!(prefilter(&hint("data:image/png;base64,iVBORw0KGgo=")), Ok(()));
}

#[test]
fn pixels_reject_small_area_or_short_edge() {
    assert_eq!(
        assess_pixels(&with_black_box(100, 100), 100, 100),
        Err(Rejection::TooSmall { width: 100, height: 100 })
    );
    // 128x128 clears the short edge but not the area floor.
    assert!(matches!(assess_pixels(&with_black_box(128, 128), 128, 128), Err(Rejection::TooSmall { .. })));
    // Wide banner: short edge 100 fails even though the area is large.
    assert!(matches!(assess_pixels(&with_black_box(1500, 100), 1500, 100), Err(Rejection::TooSmall { .. })));
}

#[test]
fn pixels_keep_charts_and_banners() {
    assert_eq!(assess_pixels(&with_black_box(200, 200), 200, 200), Ok(()));
    assert_eq!(assess_pixels(&with_black_box(1000, 150), 1000, 150), Ok(()));
}

#[test]
fn pixels_reject_elongated_rules() {
    assert_eq!(assess_pixels(&with_black_box(4000, 180), 4000, 180), Err(Rejection::Elongated));
}

#[test]
fn pixels_reject_flat_color_and_transparent_frames() {
    assert_eq!(assess_pixels(&solid(300, 300, [255, 255, 255, 255]), 300, 300), Err(Rejection::Uniform));
    assert_eq!(assess_pixels(&solid(300, 300, [0, 0, 0, 0]), 300, 300), Err(Rejection::Uniform));
    // A faint gradient (range under UNIFORM_RANGE) is still flat.
    let mut faint = solid(300, 300, [200, 200, 200, 255]);
    for (i, px) in faint.chunks_mut(4).enumerate() {
        px[0] = 200 + (i % 5) as u8;
    }
    assert_eq!(assess_pixels(&faint, 300, 300), Err(Rejection::Uniform));
}

#[test]
fn pixels_reject_malformed_buffer() {
    assert!(matches!(assess_pixels(&[0u8; 12], 300, 300), Err(Rejection::TooSmall { .. })));
    assert!(matches!(assess_pixels(&[], 0, 0), Err(Rejection::TooSmall { .. })));
}

#[test]
fn select_top_keeps_largest_in_document_order() {
    let items = vec![("a", 10), ("b", 500), ("c", 40), ("d", 300), ("e", 200), ("f", 250)];
    assert_eq!(select_top(items, 4), vec!["b", "d", "e", "f"]);
    let items = vec![("a", 10), ("b", 20)];
    assert_eq!(select_top(items, 4), vec!["a", "b"]);
    assert_eq!(select_top(Vec::<(&str, u64)>::new(), 4), Vec::<&str>::new());
    let items = vec![("a", 10), ("b", 20)];
    assert_eq!(select_top(items, 0), Vec::<&str>::new());
}

#[test]
fn of_equal_images_the_earlier_are_kept() {
    let items = vec![("a", 5), ("b", 5), ("c", 5)];
    assert_eq!(select_top(items, 2), vec!["a", "b"]);
    let items = vec![("a", 1), ("b", 5), ("c", 5)];
    assert_eq!(select_top(items, 1), vec!["b"]);
}

#[test]
fn hosts_and_queries_are_not_looked_at() {
    // A query with a slash in it, behind a host without a path.
    assert_eq!(prefilter(&hint("https://h?back=/logo.png")), Ok(()));
    assert_eq!(prefilter(&hint("https://h#/icon.svg")), Ok(()));
    // A query that holds an address.
    assert_eq!(prefilter(&hint("photo.jpg?from=http://h/logo.png")), Ok(()));
    // The scheme left open.
    assert_eq!(prefilter(&hint("//icon.example/photos/beach.jpg")), Ok(()));
    assert_eq!(prefilter(&hint("//h/icon/beach.jpg")), Err(Rejection::Decorative("icon")));
    assert_eq!(prefilter(&hint("//logo.example")), Ok(()));
    assert_eq!(prefilter(&hint("HTTPS://h/A/Logo.png?x#y")), Err(Rejection::Decorative("logo")));
}

#[test]
fn at_most_64_samples_are_taken_along_an_edge() {
    // 200 pixels take steps of four: what lies between the samples is not seen.
    let mut px = vec![255u8; 200 * 200 * 4];
    let dot = |px: &mut Vec<u8>, x: usize, y: usize, v: u8| px[(y * 200 + x) * 4] = v;
    dot(&mut px, 3, 0, 0);
    dot(&mut px, 0, 198, 0);
    dot(&mut px, 199, 199, 0);
    assert_eq!(assess_pixels(&px, 200, 200), Err(Rejection::Uniform));
    dot(&mut px, 196, 196, 0);
    assert_eq!(assess_pixels(&px, 200, 200), Ok(()));
    // An edge of exactly 64 steps of four.
    let mut even = vec![255u8; 256 * 256 * 4];
    even[255 * 4] = 0;
    assert_eq!(assess_pixels(&even, 256, 256), Err(Rejection::Uniform));
    even[252 * 4] = 0;
    assert_eq!(assess_pixels(&even, 256, 256), Ok(()));
}
