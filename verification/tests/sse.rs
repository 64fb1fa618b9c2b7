use clip_llm::api::sse::SseEvent;
use clip_llm::api::sse::SseParser;

#[test]
fn sse_single_event() {
    let mut p = SseParser::new();
    let events =
        p.feed(br#"data: {"choices":[{"delta":{"content":"hello"}}]}"#.as_ref());
    // No newline yet — line is incomplete.
    assert!(events.is_empty());

    let events = p.feed(b"\n");
    assert_eq!(events.len(), 1);
    assert!(matches!(&events[0], SseEvent::Content(s) if s == "hello"));
}

#[test]
fn sse_reasoning_event() {
    // Qwen3/vLLM reasoning parser: thinking arrives in `reasoning_content`.
    let mut p = SseParser::new();
    let events =
        p.feed(b"data: {\"choices\":[{\"delta\":{\"reasoning_content\":\"thinking\"}}]}\n");
    assert_eq!(events.len(), 1);
    assert!(matches!(&events[0], SseEvent::Reasoning(s) if s == "thinking"));
}

#[test]
fn sse_reasoning_alias_field_parsed() {
    // Ollama and OpenRouter deliver reasoning under `reasoning`, an exact
    // alias of vLLM/DeepSeek's `reasoning_content`.
    let mut p = SseParser::new();
    let events =
        p.feed(b"data: {\"choices\":[{\"delta\":{\"reasoning\":\"hmm\"}}]}\n");
    assert_eq!(events.len(), 1);
    assert!(matches!(&events[0], SseEvent::Reasoning(s) if s == "hmm"));
}

#[test]
fn sse_reasoning_empty_not_emitted() {
    let mut p = SseParser::new();
    let events =
        p.feed(b"data: {\"choices\":[{\"delta\":{\"reasoning_content\":\"\"}}]}\n");
    assert!(events.is_empty());
}

#[test]
fn sse_done_event() {
    let mut p = SseParser::new();
    let events = p.feed(b"data: [DONE]\n");
    assert_eq!(events.len(), 1);
    assert!(matches!(&events[0], SseEvent::Done));
}

#[test]
fn sse_finish_reason_emitted() {
    // Final OpenAI-compatible chunk: empty delta + finish_reason.
    let mut p = SseParser::new();
    let events = p.feed(
        br#"data: {"choices":[{"delta":{},"finish_reason":"length"}]}"#.as_ref(),
    );
    assert!(events.is_empty()); // incomplete line
    let events = p.feed(b"\n");
    assert_eq!(events.len(), 1);
    assert!(matches!(&events[0], SseEvent::Finish(r) if r == "length"));
}

#[test]
fn sse_usage_only_chunk_with_no_choices() {
    // Some servers send a dedicated final chunk carrying only `usage`,
    // with an empty (or absent) `choices` array.
    let mut p = SseParser::new();
    let events = p.feed(
        b"data: {\"choices\":[],\"usage\":{\"prompt_tokens\":10,\"completion_tokens\":5,\"total_tokens\":15}}\n",
    );
    assert_eq!(events.len(), 1);
    match &events[0] {
        SseEvent::Usage(usage) => {
            assert_eq!(usage.prompt_tokens, 10);
            assert_eq!(usage.completion_tokens, 5);
            assert_eq!(usage.total_tokens, 15);
        }
        other => panic!("expected Usage, got {other:?}"),
    }
}

#[test]
fn sse_usage_alongside_content_and_finish() {
    // Some servers attach usage to the same chunk as the final content
    // and finish_reason instead of a separate trailing chunk.
    let mut p = SseParser::new();
    let events = p.feed(
        b"data: {\"choices\":[{\"delta\":{\"content\":\"end\"},\"finish_reason\":\"stop\"}],\"usage\":{\"prompt_tokens\":1,\"completion_tokens\":2,\"total_tokens\":3}}\n",
    );
    assert_eq!(events.len(), 3);
    assert!(matches!(&events[0], SseEvent::Content(s) if s == "end"));
    assert!(matches!(&events[1], SseEvent::Finish(r) if r == "stop"));
    assert!(matches!(&events[2], SseEvent::Usage(u) if u.total_tokens == 3));
}

#[test]
fn sse_chunk_without_usage_field_emits_no_usage_event() {
    let mut p = SseParser::new();
    let events =
        p.feed(b"data: {\"choices\":[{\"delta\":{\"content\":\"x\"}}]}\n");
    assert_eq!(events.len(), 1);
    assert!(!events.iter().any(|e| matches!(e, SseEvent::Usage(_))));
}

#[test]
fn sse_content_and_finish_reason_in_one_chunk() {
    // Some servers attach finish_reason to the last content chunk.
    let mut p = SseParser::new();
    let events = p.feed(
        b"data: {\"choices\":[{\"delta\":{\"content\":\"end\"},\"finish_reason\":\"stop\"}]}\n",
    );
    assert_eq!(events.len(), 2);
    assert!(matches!(&events[0], SseEvent::Content(s) if s == "end"));
    assert!(matches!(&events[1], SseEvent::Finish(r) if r == "stop"));
}

#[test]
fn sse_split_across_chunks() {
    let mut p = SseParser::new();
    assert!(p.feed(br#"data: {"choices":[{"de"#).is_empty());
    let events = p.feed(br#"lta":{"content":"hi"}}]}"#.as_ref());
    assert!(events.is_empty()); // still no newline

    let events = p.feed(b"\n");
    assert_eq!(events.len(), 1);
    assert!(matches!(&events[0], SseEvent::Content(s) if s == "hi"));
}

#[test]
fn sse_multiple_events() {
    let mut p = SseParser::new();
    let input = [
        "data: {\"choices\":[{\"delta\":{\"content\":\"a\"}}]}\n",
        "data: {\"choices\":[{\"delta\":{\"content\":\"b\"}}]}\n",
    ].concat();
    let events = p.feed(input.as_bytes());
    assert_eq!(events.len(), 2);
    assert!(matches!(&events[0], SseEvent::Content(s) if s == "a"));
    assert!(matches!(&events[1], SseEvent::Content(s) if s == "b"));
}

#[test]
fn sse_role_only_delta_skipped() {
    let mut p = SseParser::new();
    let events =
        p.feed(br#"data: {"choices":[{"delta":{"role":"assistant"}}]}"#.as_ref());
    assert!(events.is_empty()); // incomplete line
    let events = p.feed(b"\n");
    assert!(events.is_empty()); // no content field
}

// SSE allows `data:` with no space after the colon; events must still parse.
#[test]
fn sse_data_without_space_parsed() {
    let mut p = SseParser::new();
    let events = p.feed(b"data:{\"choices\":[{\"delta\":{\"content\":\"x\"}}]}\n");
    assert_eq!(events.len(), 1);
    assert!(matches!(&events[0], SseEvent::Content(s) if s == "x"));
    // [DONE] terminator without the space is also recognized.
    let events = p.feed(b"data:[DONE]\n");
    assert_eq!(events.len(), 1);
    assert!(matches!(&events[0], SseEvent::Done));
}

// Only the FIRST space after the colon is the optional separator; a second
// leading space is part of the data value.
#[test]
fn sse_data_preserves_second_leading_space() {
    let mut p = SseParser::new();
    // Two spaces after the colon -> value retains one leading space, so this
    // is not the bare "[DONE]" token and parses as (failed) JSON -> ignored.
    let events = p.feed(b"data:  [DONE]\n");
    assert!(events.is_empty());
}

#[test]
fn sse_non_data_lines_ignored() {
    let mut p = SseParser::new();
    let input = [
        ": comment\n",
        "event: message\n",
        "data: {\"choices\":[{\"delta\":{\"content\":\"x\"}}]}\n",
    ].concat();
    let events = p.feed(input.as_bytes());
    assert_eq!(events.len(), 1);
    assert!(matches!(&events[0], SseEvent::Content(s) if s == "x"));
}

// --- Additional SseParser edge cases ---

// SSE spec allows \r\n line endings; trim_end_matches('\r') must strip the CR.
#[test]
fn sse_crlf_line_ending() {
    let mut p = SseParser::new();
    let events =
        p.feed(b"data: {\"choices\":[{\"delta\":{\"content\":\"hi\"}}]}\r\n");
    assert_eq!(events.len(), 1);
    assert!(matches!(&events[0], SseEvent::Content(s) if s == "hi"));
}

// Empty string content must not produce an event (guarded by !content.is_empty()).
#[test]
fn sse_empty_content_not_emitted() {
    let mut p = SseParser::new();
    let events =
        p.feed(b"data: {\"choices\":[{\"delta\":{\"content\":\"\"}}]}\n");
    assert!(events.is_empty());
}

// null content field deserializes as Option::None and must not produce an event.
#[test]
fn sse_null_content_not_emitted() {
    let mut p = SseParser::new();
    let events =
        p.feed(b"data: {\"choices\":[{\"delta\":{\"content\":null}}]}\n");
    assert!(events.is_empty());
}

// Malformed JSON in a data line must be silently ignored (no panic, no event).
#[test]
fn sse_bad_json_silently_ignored() {
    let mut p = SseParser::new();
    let events = p.feed(b"data: not-valid-json\n");
    assert!(events.is_empty());
}

// [DONE] does not halt parsing; subsequent data lines are still processed.
#[test]
fn sse_done_does_not_stop_subsequent_parsing() {
    let mut p = SseParser::new();
    let input = [
        "data: [DONE]\n",
        "data: {\"choices\":[{\"delta\":{\"content\":\"after\"}}]}\n",
    ].concat();
    let events = p.feed(input.as_bytes());
    assert_eq!(events.len(), 2);
    assert!(matches!(&events[0], SseEvent::Done));
    assert!(matches!(&events[1], SseEvent::Content(s) if s == "after"));
}

// Multi-byte UTF-8 sequence (e.g. CJK character, 3 bytes) split at a chunk boundary
// must not produce replacement characters — the incomplete bytes are carried over.
#[test]
fn sse_utf8_split_across_chunks() {
    // "가" = 0xEA 0xB0 0x80 (3-byte UTF-8)
    // Split after first byte, then after second byte.
    let prefix = b"data: {\"choices\":[{\"delta\":{\"content\":\"\xEA";
    let middle = b"\xB0";
    let suffix = b"\x80\"}}]}\n";

    let mut p = SseParser::new();
    assert!(p.feed(prefix).is_empty());
    assert!(p.feed(middle).is_empty());
    let events = p.feed(suffix);
    assert_eq!(events.len(), 1);
    assert!(matches!(&events[0], SseEvent::Content(s) if s == "가"));
}

// A genuinely invalid byte (not a chunk-split sequence) must not stall the
// parser: it is replaced with U+FFFD and later events still parse.
#[test]
fn sse_invalid_byte_does_not_stall_stream() {
    let mut p = SseParser::new();
    // 0xFF is never valid UTF-8; it corrupts this line's JSON.
    let corrupt = b"data: {\"choices\":[{\"delta\":{\"content\":\"a\xFFb\"}}]}\n";
    let events = p.feed(corrupt);
    // The corrupted line still decodes (with U+FFFD) and parses as JSON.
    assert_eq!(events.len(), 1);
    assert!(matches!(&events[0], SseEvent::Content(s) if s == "a\u{FFFD}b"));
    // Subsequent well-formed events must keep flowing.
    let events = p.feed(b"data: [DONE]\n");
    assert_eq!(events.len(), 1);
    assert!(matches!(&events[0], SseEvent::Done));
}

// A truncated multi-byte char at end-of-stream must not corrupt the final
// (newline-less) line: flush() discards the unfinishable tail bytes and
// still recovers the buffered line.
#[test]
fn sse_flush_discards_incomplete_utf8_tail() {
    let mut p = SseParser::new();
    assert!(p.feed(b"data: [DONE]").is_empty()); // no newline yet
    assert!(p.feed(b"\xEA").is_empty()); // first byte of a 3-byte char, never completed
    let events = p.flush();
    assert_eq!(events.len(), 1);
    assert!(matches!(&events[0], SseEvent::Done));
}

// flush() recovers a final line the server sent without a trailing newline.
#[test]
fn sse_flush_recovers_trailing_done_without_newline() {
    let mut p = SseParser::new();
    assert!(p.feed(b"data: [DONE]").is_empty()); // no newline yet
    let events = p.flush();
    assert_eq!(events.len(), 1);
    assert!(matches!(&events[0], SseEvent::Done));
}

#[test]
fn sse_flush_recovers_trailing_finish_without_newline() {
    let mut p = SseParser::new();
    assert!(
        p.feed(br#"data: {"choices":[{"delta":{},"finish_reason":"stop"}]}"#.as_ref())
            .is_empty()
    );
    let events = p.flush();
    assert_eq!(events.len(), 1);
    assert!(matches!(&events[0], SseEvent::Finish(r) if r == "stop"));
}

#[test]
fn sse_flush_empty_buffer_is_noop() {
    let mut p = SseParser::new();
    assert!(p.flush().is_empty());
    // After a clean newline-terminated feed, nothing is left to flush.
    let _ = p.feed(b"data: [DONE]\n");
    assert!(p.flush().is_empty());
}

// --- chunk boundaries ---

#[test]
fn chunks_of_any_size_give_the_same_events() {
    let stream = [
        "data: {\"choices\":[{\"delta\":{\"content\":\"\u{ac00}\u{1f600}\"}}]}\r\n",
        ": comment\n\n",
        "data: {\"choices\":[{\"delta\":{},\"finish_reason\":\"stop\"}]}\n",
        "data: [DONE]\n",
    ]
    .concat();
    let mut whole = SseParser::new();
    let expected = whole.feed(stream.as_bytes());
    assert_eq!(expected.len(), 3);
    for size in 1..7 {
        let mut p = SseParser::new();
        let mut events = Vec::new();
        for chunk in stream.as_bytes().chunks(size) {
            events.extend(p.feed(chunk));
        }
        assert_eq!(events, expected, "chunks of {size}");
    }
}
