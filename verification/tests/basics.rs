use clip_llm::format_utc;
use clip_llm::text::split_at_char;
use clip_llm::utf8::decode;
use clip_llm::ApiError;
use clip_llm::ClipboardError;
use clip_llm::DebugCapture;
use clip_llm::HotkeyError;
use clip_llm::PlatformError;
use clip_llm::ProcessMode;
use clip_llm::RephraseLength;
use clip_llm::RephraseParams;
use clip_llm::RephraseStyle;
use clip_llm::ThinkingMode;

// --- the record of an exchange ---

#[test]
fn to_clipboard_text_includes_all_sections() {
    let cap = DebugCapture {
        endpoint: Some("http://x/v1/chat/completions".into()),
        request: Some("{\"model\":\"m\"}".into()),
        status: Some(200),
        response_raw: Some("{\"choices\":[]}".into()),
        timestamp: Some("2026-06-25T01:02:03.123Z".into()),
        elapsed_ms: Some(1234),
        error: None,
        ..Default::default()
    };
    let text = cap.to_clipboard_text();
    assert!(text.contains("time:        2026-06-25T01:02:03.123Z"));
    assert!(text.contains("elapsed:     1234 ms"));
    assert!(text.contains("POST http://x/v1/chat/completions"));
    assert!(text.contains("HTTP status: 200"));
    assert!(text.contains("--- REQUEST ---"));
    assert!(text.contains("\"model\":\"m\""));
    assert!(text.contains("--- RESPONSE ---"));
    assert!(text.contains("\"choices\":[]"));
    // No error section when the call succeeded.
    assert!(!text.contains("--- ERROR ---"));
    // No token-usage line when usage was not captured.
    assert!(!text.contains("tokens:"));
}

#[test]
fn to_clipboard_text_shows_token_usage_when_present() {
    let cap = DebugCapture {
        prompt_tokens: Some(120),
        completion_tokens: Some(45),
        total_tokens: Some(165),
        ..Default::default()
    };
    let text = cap.to_clipboard_text();
    assert!(text.contains("tokens:      prompt=120 completion=45 total=165"));
}

#[test]
fn to_clipboard_text_shows_error_section() {
    let cap = DebugCapture {
        error: Some("connect timeout".into()),
        ..Default::default()
    };
    let text = cap.to_clipboard_text();
    assert!(text.contains("--- ERROR ---"));
    assert!(text.contains("connect timeout"));
}

#[test]
fn to_clipboard_text_marks_missing_fields() {
    let text = DebugCapture::default().to_clipboard_text();
    assert!(text.contains("(no response)"));
    assert!(text.contains("(not captured)"));
    assert!(text.contains("time:        (unknown)"));
}

#[test]
fn format_utc_epoch_and_known_instant() {
    assert_eq!(format_utc(0), "1970-01-01T00:00:00.000Z");
    assert_eq!(format_utc(1_700_000_000_123), "2023-11-14T22:13:20.123Z");
}

#[test]
fn format_utc_knows_leap_years() {
    assert_eq!(format_utc(951_782_400_000), "2000-02-29T00:00:00.000Z");
    assert_eq!(format_utc(4_107_542_400_000), "2100-03-01T00:00:00.000Z");
    assert_eq!(format_utc(4_107_542_400_000 - 1), "2100-02-28T23:59:59.999Z");
}

// --- modes ---

#[test]
fn next_available_wraps_through_all() {
    let all = &ProcessMode::ALL;
    assert_eq!(ProcessMode::Translate.next_available(all), ProcessMode::Rephrase);
    assert_eq!(ProcessMode::Rephrase.next_available(all), ProcessMode::Summarize);
    // Wraps back to the first mode.
    assert_eq!(ProcessMode::Summarize.next_available(all), ProcessMode::Translate);
}

#[test]
fn next_available_skips_unavailable() {
    // Rephrase is not a target — it is skipped.
    let targets = &[ProcessMode::Translate, ProcessMode::Summarize];
    assert_eq!(ProcessMode::Translate.next_available(targets), ProcessMode::Summarize);
    assert_eq!(ProcessMode::Summarize.next_available(targets), ProcessMode::Translate);
}

#[test]
fn next_available_single_target_stays_put() {
    // Image-only content restricts cycling to Summarize alone.
    let targets = &[ProcessMode::Summarize];
    assert_eq!(ProcessMode::Summarize.next_available(targets), ProcessMode::Summarize);
    // Even starting from a non-target mode resolves to the only target.
    assert_eq!(ProcessMode::Translate.next_available(targets), ProcessMode::Summarize);
}

#[test]
fn next_available_empty_targets_returns_self() {
    assert_eq!(ProcessMode::Translate.next_available(&[]), ProcessMode::Translate);
}

#[test]
fn modes_have_labels() {
    assert_eq!(ProcessMode::Translate.label(), "Translate");
    assert_eq!(ProcessMode::Rephrase.processing_label(), "Rephrasing...");
    assert_eq!(ProcessMode::Summarize.default_thinking(), ThinkingMode::Think);
    assert_eq!(ProcessMode::Translate.default_thinking(), ThinkingMode::NoThink);
    assert_eq!(ThinkingMode::NoThink.label(), "No Think");
    assert_eq!(RephraseStyle::default().label(), "Correct");
    assert_eq!(RephraseLength::default().label(), "Same");
    let params = RephraseParams::default();
    assert_eq!(
        ProcessMode::Translate.processing_label_rephrase(params),
        ProcessMode::Translate.processing_label()
    );
}

// --- errors ---

#[test]
fn errors_say_what_went_wrong() {
    assert_eq!(
        PlatformError::CopyFailed("x".to_string()).message(),
        "copy simulation failed: x"
    );
    assert_eq!(
        PlatformError::AccessibilityDenied.message(),
        "accessibility permission required"
    );
    assert_eq!(
        ApiError::InitialResponseTimeout(10).message(),
        "no response headers within 10s"
    );
    assert_eq!(
        ApiError::MissingConfig("api.model").message(),
        "required setting not configured: api.model (set it in config.toml under [api], or the matching CLIP_LLM_* environment variable)"
    );
    assert_eq!(
        HotkeyError::RegisterFailed("taken".to_string()).message(),
        "failed to register hotkey: taken"
    );
    assert_eq!(
        ClipboardError::UnsupportedFiles(vec!["a".to_string(), "b".to_string()]).message(),
        "unsupported file type: a, b"
    );
    assert_eq!(
        ClipboardError::CopyFailed(PlatformError::PasteFailed("y".to_string())).message(),
        "copy simulation failed: paste simulation failed: y"
    );
}

// --- text ---

#[test]
fn bytes_decode_alike_however_they_are_cut() {
    let bytes = "a\u{ac00}\u{1f600}".as_bytes();
    let (whole, rest) = decode(bytes);
    assert_eq!(whole, vec!['a', '\u{ac00}', '\u{1f600}']);
    assert!(rest.is_empty());
    for cut in 0..bytes.len() {
        let (mut first, left) = decode(&bytes[..cut]);
        let second = [&left[..], &bytes[cut..]].concat();
        let (more, rest) = decode(&second);
        first.extend(more);
        assert_eq!(first, whole, "cut at {cut}");
        assert!(rest.is_empty());
    }
    assert_eq!(decode(b"a\xffb").0, vec!['a', '\u{fffd}', 'b']);
}

#[test]
fn texts_are_split_at_every_occurrence() {
    let v: Vec<char> = "a,,b,".chars().collect();
    let pieces: Vec<String> =
        split_at_char(&v, ',').iter().map(|p| p.iter().collect()).collect();
    assert_eq!(pieces, ["a", "", "b", ""]);
}
