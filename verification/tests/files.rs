use clip_llm::files::decode_png_rgba;
use clip_llm::files::ingest_files;
use clip_llm::files::is_png_name;
use clip_llm::files::FileRecord;
use clip_llm::files::FileStat;
use clip_llm::files::Ingest;
use clip_llm::files::MAX_IMAGE_FILE_BYTES;
use clip_llm::files::MAX_TEXT_FILE_BYTES;
use clip_llm::files::MAX_TOTAL_TEXT_BYTES;
use clip_llm::images::encode::rgba_to_png;
use clip_llm::ClipboardError;

fn file(name: &str, bytes: &[u8]) -> FileRecord {
    FileRecord {
        name: name.to_string(),
        stat: Ok(FileStat { is_dir: false, len: bytes.len() as u64 }),
        bytes: Ok(bytes.to_vec()),
    }
}

fn tiny_png() -> Vec<u8> {
    // 2x1 RGBA: red, green.
    rgba_to_png(&[255, 0, 0, 255, 0, 255, 0, 255], 2, 1).unwrap()
}

#[test]
fn single_text_file_is_raw_content() {
    let c = ingest_files(vec![file("notes.md", "# Title\n\nbody\n".as_bytes())]).unwrap();
    assert_eq!(c.text.as_deref(), Some("# Title\n\nbody\n"));
    assert!(c.images.is_empty());
    assert_eq!(c.files, vec!["notes.md".to_string()]);
}

#[test]
fn multiple_text_files_get_headers_in_order() {
    let a = file("a.rs", b"fn a() {}\n");
    let b = file("b.toml", b"k = 1\n");
    let c = ingest_files(vec![a, b]).unwrap();
    assert_eq!(
        c.text.as_deref(),
        Some("=== a.rs ===\nfn a() {}\n\n=== b.toml ===\nk = 1\n"),
    );
    assert_eq!(c.files, vec!["a.rs".to_string(), "b.toml".to_string()]);
}

#[test]
fn extensionless_utf8_file_counts_as_text() {
    let c = ingest_files(vec![file("Makefile", "all:\n\techo hi\n".as_bytes())]).unwrap();
    assert_eq!(c.text.as_deref(), Some("all:\n\techo hi\n"));
}

#[test]
fn png_file_becomes_image() {
    let c = ingest_files(vec![file("shot.png", &tiny_png())]).unwrap();
    assert!(c.text.is_none());
    assert_eq!(c.images.len(), 1);
    assert!(c.is_image_only());
    assert!(c.images[0].starts_with(&[0x89, b'P', b'N', b'G']));
    assert_eq!(c.files, vec!["shot.png".to_string()]);
}

/// A syntactically valid PNG whose header claims `w x h` pixels but whose
/// IDAT holds no rows: enough for the header to parse, nothing to decode.
fn png_with_header(w: u32, h: u32) -> Vec<u8> {
    fn crc32(data: &[u8]) -> u32 {
        let mut crc = 0xFFFF_FFFFu32;
        for &b in data {
            crc ^= u32::from(b);
            for _ in 0..8 {
                crc = if crc & 1 == 1 { (crc >> 1) ^ 0xEDB8_8320 } else { crc >> 1 };
            }
        }
        !crc
    }
    fn chunk(out: &mut Vec<u8>, kind: &[u8; 4], body: &[u8]) {
        out.extend_from_slice(&(body.len() as u32).to_be_bytes());
        let mut typed = kind.to_vec();
        typed.extend_from_slice(body);
        out.extend_from_slice(&typed);
        out.extend_from_slice(&crc32(&typed).to_be_bytes());
    }
    let mut out = vec![0x89, b'P', b'N', b'G', 0x0D, 0x0A, 0x1A, 0x0A];
    let mut ihdr = Vec::new();
    ihdr.extend_from_slice(&w.to_be_bytes());
    ihdr.extend_from_slice(&h.to_be_bytes());
    ihdr.extend_from_slice(&[8, 6, 0, 0, 0]); // 8-bit RGBA, no interlace
    chunk(&mut out, b"IHDR", &ihdr);
    chunk(&mut out, b"IDAT", &[0x78, 0x9C, 0x03, 0x00, 0x00, 0x00, 0x00, 0x01]); // empty zlib stream
    chunk(&mut out, b"IEND", &[]);
    out
}

#[test]
fn oversized_png_is_refused_from_the_header() {
    match ingest_files(vec![file("huge.png", &png_with_header(20_000, 20_000))]) {
        Err(ClipboardError::ImageTooLarge { width: 20_000, height: 20_000, .. }) => {}
        other => panic!("expected ImageTooLarge, got {other:?}"),
    }
}

#[test]
fn png_decode_handles_rgb_and_gray() {
    fn enc(color: png::ColorType, data: &[u8]) -> Vec<u8> {
        let mut out = Vec::new();
        let mut e = png::Encoder::new(&mut out, 1, 1);
        e.set_color(color);
        e.set_depth(png::BitDepth::Eight);
        let mut w = e.write_header().unwrap();
        w.write_image_data(data).unwrap();
        drop(w);
        out
    }
    let (rgba, w, h) = decode_png_rgba(&enc(png::ColorType::Rgb, &[10, 20, 30])).unwrap().unwrap();
    assert_eq!((w, h), (1, 1));
    assert_eq!(rgba, vec![10, 20, 30, 255]);
    let (rgba, ..) = decode_png_rgba(&enc(png::ColorType::Grayscale, &[77])).unwrap().unwrap();
    assert_eq!(rgba, vec![77, 77, 77, 255]);
    let (rgba, ..) =
        decode_png_rgba(&enc(png::ColorType::GrayscaleAlpha, &[77, 128])).unwrap().unwrap();
    assert_eq!(rgba, vec![77, 77, 77, 128]);
}

#[test]
fn text_and_png_together() {
    let t = file("caption.txt", b"see picture");
    let i = file("pic.PNG", &tiny_png());
    let c = ingest_files(vec![t, i]).unwrap();
    assert_eq!(c.text.as_deref(), Some("see picture"));
    assert_eq!(c.images.len(), 1);
    assert_eq!(c.files.len(), 2);
}

#[test]
fn binary_file_is_unsupported_and_named() {
    let ok = file("ok.txt", b"fine");
    let bin = file("blob.bin", &[0u8, 1, 2, 3, 0xff]);
    let pdf = file("doc.pdf", b"%PDF-1.4\n\x00\x00");
    match ingest_files(vec![ok, bin, pdf]) {
        Err(ClipboardError::UnsupportedFiles(names)) => {
            assert_eq!(names, vec!["blob.bin".to_string(), "doc.pdf".to_string()]);
        }
        other => panic!("expected UnsupportedFiles, got {other:?}"),
    }
}

#[test]
fn png_extension_with_bad_bytes_is_unsupported() {
    assert!(matches!(
        ingest_files(vec![file("fake.png", b"not a png at all")]),
        Err(ClipboardError::UnsupportedFiles(n)) if n == vec!["fake.png".to_string()]
    ));
}

#[test]
fn directory_is_unsupported() {
    let folder = FileRecord {
        name: "folder".to_string(),
        stat: Ok(FileStat { is_dir: true, len: 4096 }),
        bytes: Err("is a directory".to_string()),
    };
    assert!(matches!(
        ingest_files(vec![folder]),
        Err(ClipboardError::UnsupportedFiles(n)) if n == vec!["folder".to_string()]
    ));
}

#[test]
fn non_utf8_text_is_unsupported() {
    let p = file("legacy.txt", &[0xb0, 0xa1, 0x0a]);
    assert!(matches!(ingest_files(vec![p]), Err(ClipboardError::UnsupportedFiles(_))));
}

#[test]
fn oversized_text_file_is_refused() {
    let big = vec![b'x'; MAX_TEXT_FILE_BYTES as usize + 1];
    match ingest_files(vec![file("big.log", &big)]) {
        Err(ClipboardError::FileTooLarge { name, limit_bytes }) => {
            assert_eq!(name, "big.log");
            assert_eq!(limit_bytes, MAX_TEXT_FILE_BYTES);
        }
        other => panic!("expected FileTooLarge, got {other:?}"),
    }
}

#[test]
fn combined_text_over_total_cap_is_refused() {
    let half = vec![b'y'; (MAX_TOTAL_TEXT_BYTES / 2) as usize];
    let a = file("a.txt", &half);
    let b = file("b.txt", &half);
    let c = file("c.txt", b"one more byte");
    match ingest_files(vec![a, b, c]) {
        Err(ClipboardError::FileTooLarge { name, limit_bytes }) => {
            assert_eq!(name, "c.txt");
            assert_eq!(limit_bytes, MAX_TOTAL_TEXT_BYTES);
        }
        other => panic!("expected FileTooLarge, got {other:?}"),
    }
}

#[test]
fn missing_file_is_read_failure() {
    let gone = FileRecord {
        name: "gone.txt".to_string(),
        stat: Err("not found".to_string()),
        bytes: Err("not found".to_string()),
    };
    assert!(matches!(
        ingest_files(vec![gone]),
        Err(ClipboardError::FileReadFailed { name, .. }) if name == "gone.txt"
    ));
}

#[test]
fn empty_list_is_empty_clipboard() {
    assert!(matches!(ingest_files(vec![]), Err(ClipboardError::NoTextInClipboard)));
}

#[test]
fn whitespace_only_text_file_is_unsupported() {
    let p = file("blank.txt", b"  \n\t\n");
    assert!(matches!(ingest_files(vec![p]), Err(ClipboardError::EmptyCopy)));
}

// --- what need not be read ---

#[test]
fn a_file_that_is_too_large_is_never_read() {
    let mut ingest = Ingest::new();
    let unread = |name: &str, len: u64| FileRecord {
        name: name.to_string(),
        stat: Ok(FileStat { is_dir: false, len }),
        bytes: Err("never read".to_string()),
    };
    assert!(matches!(
        ingest_files(vec![unread("x.png", MAX_IMAGE_FILE_BYTES + 1)]),
        Err(ClipboardError::FileTooLarge { limit_bytes, .. }) if limit_bytes == MAX_IMAGE_FILE_BYTES
    ));
    assert!(matches!(
        ingest.add(unread("x.txt", MAX_TEXT_FILE_BYTES + 1)),
        Err(ClipboardError::FileTooLarge { .. })
    ));
}

#[test]
fn the_extension_tells_a_png() {
    assert!(is_png_name("a.png"));
    assert!(is_png_name("a.PNG"));
    assert!(!is_png_name("a.png.txt"));
    assert!(!is_png_name("png"));
    assert!(!is_png_name(".png"));
}
