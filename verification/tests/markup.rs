use clip_llm::images::data_uri_of;
use clip_llm::images::decode::decode_rgba;
use clip_llm::images::fetch::accept_body;
use clip_llm::images::fetch::data_uri_bytes;
use clip_llm::images::fetch::fetch_source;
use clip_llm::images::fetch::file_url_path;
use clip_llm::images::fetch::local_file_fits;
use clip_llm::images::fetch::percent_decode;
use clip_llm::images::fetch::response_fits;
use clip_llm::images::fetch::Fetch;
use clip_llm::images::fetch::MAX_SOURCE_BYTES;
use clip_llm::images::filter::MAX_IMAGES;
use clip_llm::images::markup::cap_for_request;
use clip_llm::images::markup::images_from_html;
use clip_llm::images::markup::wanted_sources;
use clip_llm::images::markup::MAX_FETCHES;
use clip_llm::images::ImageAttachment;
use clip_llm::images::ImageMime;
use clip_llm::images::ImageOrigin;
use clip_llm::ClipboardError;
use image::ImageFormat;
use image::RgbImage;
use image::RgbaImage;
use std::cell::Cell;
use std::io::Cursor;

/// A syntactically valid PNG whose header claims `w x h` pixels but whose
/// IDAT holds no rows: enough for the header to parse, nothing to decode.
fn png_with_header(w: u32, h: u32) -> Vec<u8> {
    fn crc32(data: &[u8]) -> u32 {
        let mut crc = 0xFFFF_FFFFu32;
        for &b in data {
            crc ^= u32::from(b);
            for _ in 0..8 {
                crc = if crc & 1 == 1 { (crc >> 1) ^ 0xEDB8_8320 } else { crc >> 1 };
            }
        }
        !crc
    }
    fn chunk(out: &mut Vec<u8>, kind: &[u8; 4], body: &[u8]) {
        out.extend_from_slice(&(body.len() as u32).to_be_bytes());
        let mut typed = kind.to_vec();
        typed.extend_from_slice(body);
        out.extend_from_slice(&typed);
        out.extend_from_slice(&crc32(&typed).to_be_bytes());
    }
    let mut out = vec![0x89, b'P', b'N', b'G', 0x0D, 0x0A, 0x1A, 0x0A];
    let mut ihdr = Vec::new();
    ihdr.extend_from_slice(&w.to_be_bytes());
    ihdr.extend_from_slice(&h.to_be_bytes());
    ihdr.extend_from_slice(&[8, 6, 0, 0, 0]); // 8-bit RGBA, no interlace
    chunk(&mut out, b"IHDR", &ihdr);
    chunk(&mut out, b"IDAT", &[0x78, 0x9C, 0x03, 0x00, 0x00, 0x00, 0x00, 0x01]); // empty zlib stream
    chunk(&mut out, b"IEND", &[]);
    out
}

/// A non-flat `w x h` PNG (gradient with a dark block).
fn png(w: u32, h: u32) -> Vec<u8> {
    let img = image::RgbaImage::from_fn(w, h, |x, y| {
        if x > w / 4 && x < w / 2 && y > h / 4 && y < h / 2 {
            image::Rgba([0, 0, 0, 255])
        } else {
            image::Rgba([(x % 256) as u8, (y % 256) as u8, 200, 255])
        }
    });
    let mut out = std::io::Cursor::new(Vec::new());
    img.write_to(&mut out, image::ImageFormat::Png).unwrap();
    out.into_inner()
}

#[test]
fn keeps_meaningful_images_and_drops_the_rest() {
    let html = "<p>a</p><img src=\"https://h/chart.png\"><img src=\"https://h/emoji/smile.png\">\
                <img src=\"https://h/tiny.png\"><img src=\"https://h/flat.png\"><img src=\"https://h/photo.jpg\">";
    let calls = Cell::new(0);
    let fetch = |src: &str| {
        calls.set(calls.get() + 1);
        match src {
            "https://h/chart.png" => Some(png(600, 400)),
            "https://h/tiny.png" => Some(png(32, 32)),
            "https://h/flat.png" => {
                let img = image::RgbaImage::from_pixel(300, 300, image::Rgba([255, 255, 255, 255]));
                let mut out = std::io::Cursor::new(Vec::new());
                img.write_to(&mut out, image::ImageFormat::Png).unwrap();
                Some(out.into_inner())
            }
            "https://h/photo.jpg" => Some(png(500, 500)),
            other => panic!("unexpected fetch of {other}"),
        }
    };
    let images = images_from_html(html, &fetch);
    let sizes: Vec<(u32, u32)> = images.iter().map(|i| (i.width, i.height)).collect();
    assert_eq!(sizes, vec![(600, 400), (500, 500)]);
    assert!(images.iter().all(|i| i.origin == ImageOrigin::Markup));
    // The emoji was rejected from markup alone: never fetched.
    assert_eq!(calls.get(), 4);
}

#[test]
fn unfetchable_undecodable_and_oversized_are_skipped_not_fatal() {
    let html = "<img src=\"a.png\"><img src=\"b.png\"><img src=\"c.png\"><img src=\"d.png\">";
    let fetch = |src: &str| match src {
        "a.png" => None,
        "b.png" => Some(b"not an image".to_vec()),
        "c.png" => Some(png_with_header(20_000, 20_000)),
        "d.png" => Some(png(400, 300)),
        _ => None,
    };
    let images = images_from_html(html, &fetch);
    assert_eq!(images.len(), 1);
    assert_eq!((images[0].width, images[0].height), (400, 300));
}

#[test]
fn cf_html_wrapper_is_unwrapped_first() {
    let html = "Version:0.9\r\nStartHTML:0000000105\r\n<html><body><!--StartFragment--><img src=\"x.png\"><!--EndFragment--></body></html>";
    let images = images_from_html(html, &|_| Some(png(300, 300)));
    assert_eq!(images.len(), 1);
}

#[test]
fn fetches_stop_at_the_budget_and_sends_at_most_max_images() {
    let html: String = (0..30).map(|i| format!("<img src=\"i{i}.png\">")).collect();
    let calls = Cell::new(0);
    let fetch = |_: &str| {
        calls.set(calls.get() + 1);
        Some(png(300, 300))
    };
    let images = images_from_html(&html, &fetch);
    assert_eq!(calls.get(), MAX_FETCHES);
    assert_eq!(images.len(), MAX_IMAGES);
}

#[test]
fn no_images_without_markup_references() {
    assert!(images_from_html("<p>just text</p>", &|_| panic!("no fetch expected")).is_empty());
    assert!(images_from_html("", &|_| None).is_empty());
}

#[test]
fn only_wanted_sources_are_fetched() {
    let html = "<img src=\"a.png\"><img src=\"logo.png\"><img src=\"b.svg\"><img src=\"c.png\">";
    assert_eq!(wanted_sources(html), vec!["a.png".to_string(), "c.png".to_string()]);
}

#[test]
fn a_request_takes_the_largest_images() {
    let sized = |w: u32| ImageAttachment { width: w, height: 1, ..ImageAttachment::stub(vec![]) };
    let images: Vec<ImageAttachment> = [5u32, 9, 1, 7, 3, 8].map(sized).into_iter().collect();
    let widths: Vec<u32> = cap_for_request(images).iter().map(|i| i.width).collect();
    assert_eq!(widths.len(), MAX_IMAGES);
    assert_eq!(widths, vec![5, 9, 7, 8]);
}

// --- fetching ---

#[test]
fn data_uri_base64_payload_is_decoded() {
    assert_eq!(data_uri_bytes("data:image/png;base64,iVBORw0KGgo="), Some(vec![0x89, b'P', b'N', b'G', 0x0D, 0x0A, 0x1A, 0x0A]));
    // Whitespace inside the payload (line-wrapped markup) is tolerated.
    assert_eq!(data_uri_bytes("data:image/png;base64,iVBO\nRw0K Ggo="), Some(vec![0x89, b'P', b'N', b'G', 0x0D, 0x0A, 0x1A, 0x0A]));
    assert_eq!(data_uri_bytes("DATA:image/jpeg;base64,/9g="), Some(vec![0xFF, 0xD8]));
}

#[test]
fn data_uri_rejects_non_base64_and_other_schemes() {
    assert_eq!(data_uri_bytes("data:image/svg+xml,<svg/>"), None);
    assert_eq!(data_uri_bytes("data:image/png;base64,!!!"), None);
    assert_eq!(data_uri_bytes("https://h/a.png"), None);
    assert_eq!(data_uri_bytes("data:"), None);
}

#[test]
fn file_url_becomes_a_path_on_either_platform() {
    let path = |s: &str| Some(s.to_string());
    assert_eq!(file_url_path("file:///Users/u/a%20b.png"), path("/Users/u/a b.png"));
    assert_eq!(
        file_url_path("file:///C:/Users/U/AppData/Local/Temp/msohtmlclip1/01/clip_image002.png"),
        path("C:/Users/U/AppData/Local/Temp/msohtmlclip1/01/clip_image002.png")
    );
    assert_eq!(file_url_path("FILE://localhost/tmp/x.png"), path("/tmp/x.png"));
    assert_eq!(file_url_path("https://h/a.png"), None);
    assert_eq!(file_url_path("file:"), None);
}

/// The bytes of a source, with one file at hand.
fn fetched(src: &str) -> Option<Vec<u8>> {
    match fetch_source(src) {
        Fetch::Inline(bytes) => Some(bytes),
        Fetch::LocalFile(path) if path == "/tmp/clip-llm-fetch/img one.bin" => {
            let bytes = vec![1, 2, 3];
            if local_file_fits(true, bytes.len() as u64) { Some(bytes) } else { None }
        }
        _ => None,
    }
}

#[test]
fn fetch_dispatches_data_and_file_and_refuses_the_rest() {
    assert_eq!(fetched("data:image/jpeg;base64,/9g="), Some(vec![0xFF, 0xD8]));
    assert_eq!(fetched("file:///tmp/clip-llm-fetch/img%20one.bin"), Some(vec![1, 2, 3]));
    assert_eq!(fetched("file:///definitely/missing/x.png"), None);
    assert_eq!(fetched("ftp://h/a.png"), None);
    assert_eq!(fetched("about:blank"), None);
    assert_eq!(fetched(""), None);
    assert!(matches!(fetch_source("https://h/a.png"), Fetch::Http(u) if u == "https://h/a.png"));
}

#[test]
fn sources_are_bounded() {
    assert!(local_file_fits(true, MAX_SOURCE_BYTES));
    assert!(!local_file_fits(true, MAX_SOURCE_BYTES + 1));
    assert!(!local_file_fits(false, 1));
    assert!(response_fits(200, None));
    assert!(response_fits(206, Some(MAX_SOURCE_BYTES)));
    assert!(!response_fits(200, Some(MAX_SOURCE_BYTES + 1)));
    assert!(!response_fits(404, Some(1)));
    assert_eq!(accept_body(vec![1, 2]), Some(vec![1, 2]));
    assert_eq!(accept_body(vec![0; MAX_SOURCE_BYTES as usize + 1]), None);
}

#[test]
fn percent_signs_stand_for_bytes() {
    assert_eq!(percent_decode("a%20b%ea%b0%80"), "a b\u{ac00}");
    assert_eq!(percent_decode("100%"), "100%");
    assert_eq!(percent_decode("%zz"), "%zz");
}

// --- decoding ---

fn rgba_fixture(w: u32, h: u32) -> RgbaImage {
    RgbaImage::from_fn(w, h, |x, y| image::Rgba([(x * 7) as u8, (y * 5) as u8, 90, 255]))
}

fn encoded(format: ImageFormat) -> Vec<u8> {
    let mut out = Cursor::new(Vec::new());
    match format {
        ImageFormat::Jpeg => {
            let rgb = RgbImage::from_fn(40, 30, |x, y| image::Rgb([(x * 6) as u8, (y * 8) as u8, 120]));
            rgb.write_to(&mut out, format).unwrap();
        }
        _ => rgba_fixture(40, 30).write_to(&mut out, format).unwrap(),
    }
    out.into_inner()
}

#[test]
fn decodes_png_gif_bmp_and_jpeg() {
    for format in [ImageFormat::Png, ImageFormat::Gif, ImageFormat::Bmp, ImageFormat::Jpeg] {
        let (rgba, w, h) = decode_rgba(&encoded(format)).unwrap().unwrap_or_else(|| panic!("{format:?}"));
        assert_eq!((w, h), (40, 30), "{format:?}");
        assert_eq!(rgba.len(), 40 * 30 * 4, "{format:?}");
        assert_eq!(rgba[3], 255, "{format:?}: opaque alpha");
    }
}

#[test]
fn png_alpha_survives() {
    let mut img = rgba_fixture(8, 8);
    img.put_pixel(0, 0, image::Rgba([1, 2, 3, 0]));
    let mut out = Cursor::new(Vec::new());
    img.write_to(&mut out, ImageFormat::Png).unwrap();
    let (rgba, ..) = decode_rgba(&out.into_inner()).unwrap().unwrap();
    assert_eq!(&rgba[..4], &[1, 2, 3, 0]);
}

#[test]
fn garbage_and_svg_are_not_images() {
    assert_eq!(decode_rgba(b"not an image at all").unwrap(), None);
    assert_eq!(decode_rgba(b"<svg xmlns='http://www.w3.org/2000/svg'/>").unwrap(), None);
    assert_eq!(decode_rgba(&[]).unwrap(), None);
}

#[test]
fn oversized_header_is_refused_without_decoding() {
    // A PNG header claiming 20000x20000 with an empty IDAT: the dimensions
    // parse, the budget check fires, nothing is allocated for pixels.
    let png = png_with_header(20_000, 20_000);
    assert!(matches!(
        decode_rgba(&png),
        Err(ClipboardError::ImageTooLarge { width: 20_000, height: 20_000, .. })
    ));
}

// --- attachments ---

#[test]
fn data_uri_carries_the_mime_and_base64_payload() {
    let png = ImageAttachment::stub(vec![0x89, 0x50, 0x4E, 0x47]);
    assert_eq!(png.data_uri(), "data:image/png;base64,iVBORw==");
    let jpeg = ImageAttachment { mime: ImageMime::Jpeg, ..ImageAttachment::stub(vec![0xFF, 0xD8]) };
    assert_eq!(jpeg.data_uri(), "data:image/jpeg;base64,/9g=");
}

#[test]
fn resized_means_sent_size_differs_from_source() {
    let same = ImageAttachment::stub(vec![]);
    assert!(!same.is_resized());
    let shrunk = ImageAttachment { source_width: 4000, source_height: 3000, ..ImageAttachment::stub(vec![]) };
    assert!(shrunk.is_resized());
}

#[test]
fn what_is_inlined_reads_back() {
    for n in 0..9u8 {
        let bytes: Vec<u8> = (0..n).map(|i| i.wrapping_mul(97)).collect();
        let uri = data_uri_of(ImageMime::Png, &bytes);
        assert_eq!(data_uri_bytes(&uri), Some(bytes));
    }
}

#[test]
fn an_inline_image_is_bounded_once_it_is_decoded() {
    let most = vec![0u8; MAX_SOURCE_BYTES as usize];
    let uri = data_uri_of(ImageMime::Png, &most);
    assert_eq!(data_uri_bytes(&uri).map(|b| b.len()), Some(most.len()));
    // As long a text, but without padding: one byte more.
    let uri = format!("data:;base64,{}", "A".repeat(11_184_812));
    assert_eq!(data_uri_bytes(&uri), None);
}
