use clip_llm::clipboard::capture;
use clip_llm::clipboard::copied;
use clip_llm::clipboard::read_clipboard;
use clip_llm::clipboard::read_content;
use clip_llm::clipboard::CaptureStep;
use clip_llm::clipboard::CopyWait;
use clip_llm::clipboard::Held;
use clip_llm::clipboard::Pause;
use clip_llm::clipboard::FALLBACK_MODIFIER_SETTLE_MS;
use clip_llm::clipboard::MODIFIER_RELEASE_GRACE_MS;
use clip_llm::clipboard::MODIFIER_RELEASE_POLL_INTERVAL_MS;
use clip_llm::clipboard::MODIFIER_RELEASE_TIMEOUT_MS;
use clip_llm::files::FileRecord;
use clip_llm::files::FileStat;
use clip_llm::hotkey::MILLISECOND;
use clip_llm::images::encode::downscale_rgba;
use clip_llm::images::encode::rgba_to_png;
use clip_llm::images::encode::MAX_IMAGE_LONG_EDGE;
use clip_llm::ClipboardContent;
use clip_llm::ClipboardError;
use clip_llm::PlatformError;
use std::sync::Arc;

/// A clipboard with a counter that goes up when something is copied.
struct Board {
    text: Option<String>,
    count: u64,
}

impl Board {
    fn with(text: Option<&str>) -> Board {
        Board { text: text.map(str::to_string), count: 1 }
    }

    fn set(&mut self, text: &str) {
        self.text = Some(text.to_string());
        self.count += 1;
    }
}

/// What a clipboard without files holds.
fn holding(text: Option<&str>) -> Held {
    Held { files: vec![], text: text.map(str::to_string), images: Ok(vec![]) }
}

/// What a capture comes to and how many milliseconds it takes, with a clock that
/// only goes on while it sleeps.
fn copy_and_read(
    board: &mut Board,
    copied_text: Option<&str>,
    mut simulated: Option<Result<(), PlatformError>>,
    watched: bool,
) -> (Result<ClipboardContent, ClipboardError>, u64) {
    let mut now = 0u64;
    let mut step = capture(watched, false, false, now);
    loop {
        step = match step {
            CaptureStep::Sleep(ms, pause) => {
                now += ms * MILLISECOND;
                pause.over(false, false, board.count, now)
            }
            CaptureStep::Copy => {
                let baseline = board.count;
                if let Some(t) = copied_text {
                    board.set(t);
                }
                copied(baseline, simulated.take().unwrap(), now)
            }
            CaptureStep::Read(wait) => wait.read(holding(board.text.as_deref()), now),
            CaptureStep::Finish(r) => return (r, now / MILLISECOND),
        }
    }
}

fn captured(
    board: &mut Board,
    copied_text: Option<&str>,
    simulated: Result<(), PlatformError>,
) -> Result<ClipboardContent, ClipboardError> {
    copy_and_read(board, copied_text, Some(simulated), true).0
}

/// What comes of waiting for the modifiers, and how long it takes.
fn release(mut held: impl FnMut() -> bool, cancelled: bool) -> (CaptureStep, u64) {
    let mut now = 0u64;
    let mut step = capture(true, held(), cancelled, now);
    loop {
        step = match step {
            CaptureStep::Sleep(ms, pause) => {
                now += ms * MILLISECOND;
                if pause == Pause::Grace {
                    pause.over(false, cancelled, 0, now)
                } else {
                    pause.over(held(), cancelled, 0, now)
                }
            }
            done => return (done, now / MILLISECOND),
        }
    }
}

// --- reading ---

#[test]
fn read_content_prefers_file_list_over_text_flavor() {
    let content = read_content(Held {
        files: vec![FileRecord {
            name: "from-finder.txt".to_string(),
            stat: Ok(FileStat { is_dir: false, len: 10 }),
            bytes: Ok(b"file body\n".to_vec()),
        }],
        text: Some("from-finder.txt".to_string()),
        images: Ok(vec![]),
    })
    .unwrap();
    assert_eq!(content.text.as_deref(), Some("file body\n"));
    assert_eq!(content.files, vec!["from-finder.txt".to_string()]);

    let content = read_content(holding(Some("plain"))).unwrap();
    assert_eq!(content.text.as_deref(), Some("plain"));
    assert!(content.files.is_empty());
}

#[test]
fn read_clipboard_returns_text() {
    let text = read_clipboard(Some("test clipboard content".to_string())).unwrap();
    assert_eq!(text, "test clipboard content");
}

#[test]
fn read_clipboard_empty_returns_error() {
    assert!(matches!(read_clipboard(None), Err(ClipboardError::NoTextInClipboard)));
}

#[test]
fn read_clipboard_whitespace_only_returns_error() {
    let result = read_clipboard(Some("   \n\t  ".to_string()));
    assert!(matches!(result, Err(ClipboardError::NoTextInClipboard)));
}

#[test]
fn copy_and_read_whitespace_only_reports_empty_copy() {
    let mut board = Board::with(None);
    let result = captured(&mut board, Some("  \n  "), Ok(()));
    assert!(matches!(result, Err(ClipboardError::EmptyCopy)));
}

#[test]
fn copy_and_read_failure_preserves_clipboard() {
    let mut board = Board::with(Some("precious content"));
    let result = captured(&mut board, None, Ok(()));
    assert!(matches!(result, Err(ClipboardError::NoTextAfterCopy)));
    assert_eq!(read_clipboard(board.text).unwrap(), "precious content");
}

#[test]
fn read_content_whitespace_only_text_treated_as_no_text() {
    let result = read_content(holding(Some("   ")));
    assert!(matches!(result, Err(ClipboardError::NoTextInClipboard)));
}

#[test]
fn copy_and_read_captures_selection() {
    let mut board = Board::with(Some("old content"));
    let content = captured(&mut board, Some("selected text"), Ok(())).unwrap();
    assert_eq!(content.text.as_deref(), Some("selected text"));
    assert!(!content.has_images());
}

#[test]
fn copy_and_read_empty_times_out() {
    let mut board = Board::with(None);
    let result = captured(&mut board, None, Ok(()));
    assert!(matches!(result, Err(ClipboardError::NoTextAfterCopy)));
}

#[test]
fn copy_and_read_simulation_fails() {
    let mut board = Board::with(None);
    let failed = Err(PlatformError::CopyFailed("test error".into()));
    let result = captured(&mut board, None, failed);
    assert!(matches!(result, Err(ClipboardError::CopyFailed(_))));
}

#[test]
fn write_overwrites_previous() {
    let mut board = Board::with(None);
    board.set("first");
    board.set("second");
    assert_eq!(read_clipboard(board.text).unwrap(), "second");
}

#[test]
fn a_cancelled_capture_reads_nothing() {
    let pause = Pause::Copy(CopyWait { baseline: 1, deadline: 9, copy_landed: false });
    assert!(matches!(
        pause.over(false, true, 2, 0),
        CaptureStep::Finish(Err(ClipboardError::Cancelled))
    ));
    assert!(matches!(
        Pause::Settle.over(false, true, 2, 0),
        CaptureStep::Finish(Err(ClipboardError::Cancelled))
    ));
    assert!(matches!(pause.over(false, false, 1, 0), CaptureStep::Sleep(50, _)));
    assert!(matches!(pause.over(false, false, 2, 0), CaptureStep::Read(_)));
}

#[test]
fn a_copy_may_come_after_the_counter_changes() {
    let wait = CopyWait { baseline: 1, deadline: 9, copy_landed: true };
    assert!(matches!(wait.read(holding(None), 8), CaptureStep::Sleep(50, Pause::Copy(w)) if w == wait));
    assert!(matches!(
        wait.read(holding(None), 9),
        CaptureStep::Finish(Err(ClipboardError::EmptyCopy))
    ));
    assert!(matches!(wait.read(holding(Some("x")), 9), CaptureStep::Finish(Ok(_))));
}

#[test]
fn an_image_that_cannot_be_used_is_an_error() {
    let too_large = || Err(ClipboardError::ImageTooLarge { width: 9, height: 8 });
    let unusable =
        || Held { files: vec![], text: Some("x".to_string()), images: too_large() };
    let result = read_content(unusable());
    assert!(matches!(result, Err(ClipboardError::ImageTooLarge { width: 9, height: 8 })));
    let wait = CopyWait { baseline: 1, deadline: 9, copy_landed: true };
    assert!(matches!(
        wait.read(unusable(), 0),
        CaptureStep::Finish(Err(ClipboardError::ImageTooLarge { .. }))
    ));
    let content = read_content(Held {
        files: vec![],
        text: None,
        images: Ok(vec![Arc::new(vec![1])]),
    })
    .unwrap();
    assert!(content.is_image_only());
}

// --- content ---

#[test]
fn clipboard_content_is_empty() {
    let content = ClipboardContent { text: None, images: vec![], files: vec![] };
    assert!(content.is_empty());
    assert!(!content.has_images());
}

#[test]
fn clipboard_content_text_only() {
    let content = ClipboardContent::text_only("hello".into());
    assert!(!content.is_empty());
    assert!(!content.has_images());
    assert_eq!(content.text.as_deref(), Some("hello"));
}

#[test]
fn clipboard_content_image_only() {
    let content = ClipboardContent {
        text: None,
        images: vec![Arc::new(vec![0x89, 0x50, 0x4E, 0x47])],
        files: vec![],
    };
    assert!(!content.is_empty());
    assert!(content.has_images());
}

#[test]
fn has_text_with_content() {
    let content = ClipboardContent::text_only("hello".into());
    assert!(content.has_text());
}

#[test]
fn has_text_none() {
    let content = ClipboardContent { text: None, images: vec![], files: vec![] };
    assert!(!content.has_text());
}

#[test]
fn has_text_whitespace_only() {
    let content = ClipboardContent { text: Some("  \n ".into()), images: vec![], files: vec![] };
    assert!(!content.has_text());
}

#[test]
fn has_text_empty_string() {
    let content = ClipboardContent { text: Some("".into()), images: vec![], files: vec![] };
    assert!(!content.has_text());
}

// --- images ---

#[test]
fn clipboard_rgba_to_png_valid_data() {
    let pixels: Vec<u8> =
        vec![255, 0, 0, 255, 0, 255, 0, 255, 0, 0, 255, 255, 255, 255, 255, 255];
    let png = rgba_to_png(&pixels, 2, 2).unwrap();
    assert!(png.len() > 8);
    assert_eq!(&png[..4], &[0x89, 0x50, 0x4E, 0x47]);
}

#[test]
fn clipboard_rgba_to_png_invalid_dimensions() {
    let result = rgba_to_png(&[0, 0, 0], 2, 2);
    assert!(matches!(result, Err(ClipboardError::ImageEncodeFailed(_))));
}

fn solid_rgba(width: u32, height: u32, color: [u8; 4]) -> Vec<u8> {
    let mut buf = Vec::with_capacity((width * height * 4) as usize);
    for _ in 0..(width * height) {
        buf.extend_from_slice(&color);
    }
    buf
}

#[test]
fn clipboard_downscale_rgba_noop_for_small_image() {
    let pixels = solid_rgba(100, 50, [10, 20, 30, 255]);
    assert!(downscale_rgba(&pixels, 100, 50).is_none());
}

#[test]
fn clipboard_downscale_rgba_noop_at_exact_threshold() {
    let pixels = solid_rgba(MAX_IMAGE_LONG_EDGE, 100, [1, 2, 3, 255]);
    assert!(downscale_rgba(&pixels, MAX_IMAGE_LONG_EDGE, 100).is_none());
}

#[test]
fn clipboard_downscale_rgba_scales_down_preserving_aspect_ratio() {
    let width = MAX_IMAGE_LONG_EDGE * 2;
    let height = MAX_IMAGE_LONG_EDGE;
    let pixels = solid_rgba(width, height, [200, 100, 50, 255]);

    let (resized, new_w, new_h) = downscale_rgba(&pixels, width, height).unwrap();

    assert_eq!(new_w, MAX_IMAGE_LONG_EDGE);
    assert_eq!(new_h, MAX_IMAGE_LONG_EDGE / 2);
    assert_eq!(resized.len(), (new_w * new_h * 4) as usize);

    let orig_ratio = width as f64 / height as f64;
    let new_ratio = new_w as f64 / new_h as f64;
    assert!((orig_ratio - new_ratio).abs() < 0.01);
}

#[test]
fn clipboard_downscale_rgba_solid_color_preserved() {
    let width = MAX_IMAGE_LONG_EDGE * 2;
    let height = MAX_IMAGE_LONG_EDGE;
    let color = [77, 88, 99, 255];
    let pixels = solid_rgba(width, height, color);

    let (resized, new_w, new_h) = downscale_rgba(&pixels, width, height).unwrap();

    for chunk in resized.chunks_exact(4) {
        assert_eq!(chunk, color);
    }
    assert_eq!(resized.len(), (new_w * new_h * 4) as usize);
}

#[test]
fn clipboard_downscale_rgba_degenerate_1px_wide() {
    let width = 1;
    let height = MAX_IMAGE_LONG_EDGE * 10;
    let pixels = solid_rgba(width, height, [5, 6, 7, 255]);

    let (resized, new_w, new_h) = downscale_rgba(&pixels, width, height).unwrap();

    assert_eq!(new_w, 1);
    assert_eq!(new_h, MAX_IMAGE_LONG_EDGE);
    assert_eq!(resized.len(), (new_w * new_h * 4) as usize);
}

#[test]
fn clipboard_downscale_rgba_zero_dimension_is_noop() {
    assert!(downscale_rgba(&[], 0, 0).is_none());
    assert!(downscale_rgba(&[], 0, 100).is_none());
}

// --- waiting for the modifiers ---

#[test]
fn wait_for_modifier_release_fast_path_when_not_held() {
    let (step, elapsed) = release(|| false, false);
    assert!(matches!(step, CaptureStep::Copy));
    assert!(elapsed < MODIFIER_RELEASE_TIMEOUT_MS);
}

#[test]
fn wait_for_modifier_release_waits_until_released() {
    let mut calls = 0u32;
    let (step, elapsed) = release(
        || {
            calls += 1;
            calls <= 2
        },
        false,
    );
    assert!(matches!(step, CaptureStep::Copy));
    assert!(elapsed >= MODIFIER_RELEASE_POLL_INTERVAL_MS * 2);
    assert!(elapsed < MODIFIER_RELEASE_TIMEOUT_MS);
}

#[test]
fn wait_for_modifier_release_times_out_when_stuck_held() {
    let (step, elapsed) = release(|| true, false);
    assert!(matches!(step, CaptureStep::Copy));
    assert!(elapsed >= MODIFIER_RELEASE_TIMEOUT_MS);
    assert!(
        elapsed
            < MODIFIER_RELEASE_TIMEOUT_MS
                + MODIFIER_RELEASE_POLL_INTERVAL_MS
                + MODIFIER_RELEASE_GRACE_MS
                + 200
    );
}

#[test]
fn wait_for_modifier_release_cancelled_during_poll_returns_promptly() {
    let (step, elapsed) = release(|| true, true);
    assert!(matches!(step, CaptureStep::Finish(Err(ClipboardError::Cancelled))));
    assert!(elapsed < MODIFIER_RELEASE_TIMEOUT_MS);
}

#[test]
fn wait_for_modifier_release_cancelled_after_release_before_grace() {
    let (step, _) = release(|| false, true);
    assert!(matches!(step, CaptureStep::Finish(Err(ClipboardError::Cancelled))));
}

#[test]
fn copy_and_read_fast_path_when_modifiers_already_released() {
    let mut board = Board::with(None);
    let (content, elapsed) = copy_and_read(&mut board, Some("fast selection"), Some(Ok(())), true);
    assert_eq!(content.unwrap().text.as_deref(), Some("fast selection"));
    assert!(elapsed < 150, "elapsed = {elapsed:?}");
}

#[test]
fn copy_and_read_falls_back_to_flat_delay_when_watcher_inactive() {
    let mut board = Board::with(None);
    let (content, elapsed) = copy_and_read(&mut board, Some("selection"), Some(Ok(())), false);
    assert_eq!(content.unwrap().text.as_deref(), Some("selection"));
    assert!(elapsed >= FALLBACK_MODIFIER_SETTLE_MS);
}
