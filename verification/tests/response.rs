use clip_llm::api::response::extract_first_think_content;
use clip_llm::api::response::strip_think_blocks;
use clip_llm::api::response::ThinkBlockFilter;

#[test]
fn no_think_block() {
    assert_eq!(strip_think_blocks("hello world"), "hello world");
}

#[test]
fn single_think_block() {
    let input = "<think>reasoning here</think>answer";
    assert_eq!(strip_think_blocks(input), "answer");
}

#[test]
fn multiline_think_block() {
    let input = "<think>\nstep 1\nstep 2\n</think>\nfinal answer";
    assert_eq!(strip_think_blocks(input), "final answer");
}

#[test]
fn multiple_think_blocks() {
    let input = "<think>a</think>hello <think>b</think>world";
    assert_eq!(strip_think_blocks(input), "hello world");
}

#[test]
fn think_only_returns_empty() {
    let input = "<think>only reasoning</think>";
    assert_eq!(strip_think_blocks(input), "");
}

#[test]
fn preserves_text_without_tags() {
    let input = "no tags here, just <angle> brackets";
    assert_eq!(strip_think_blocks(input), "no tags here, just <angle> brackets");
}

#[test]
fn trims_trailing_whitespace_only() {
    let input = "  <think>x</think>  result  ";
    assert_eq!(strip_think_blocks(input), "    result");
}

#[test]
fn preserves_leading_indentation() {
    let input = "<think>x</think>\n    indented\n        more";
    assert_eq!(strip_think_blocks(input), "    indented\n        more");
}

// --- ThinkBlockFilter tests ---

#[test]
fn filter_no_think_passthrough() {
    let mut f = ThinkBlockFilter::new();
    assert_eq!(f.feed("hello"), "hello");
    assert_eq!(f.feed(" world"), " world");
}

#[test]
fn filter_think_suppressed() {
    let mut f = ThinkBlockFilter::new();
    assert_eq!(f.feed("<think>"), "");
    assert_eq!(f.feed("reasoning"), "");
    assert_eq!(f.feed("</think>"), "");
    assert_eq!(f.feed("answer"), "answer");
}

#[test]
fn filter_split_across_tokens() {
    let mut f = ThinkBlockFilter::new();
    assert_eq!(f.feed("<thi"), "");
    assert_eq!(f.feed("nk>"), "");
    assert_eq!(f.feed("some reasoning text"), "");
    assert_eq!(f.feed("</thi"), "");
    assert_eq!(f.feed("nk>"), "");
    assert_eq!(f.feed("answer"), "answer");
}

#[test]
fn filter_not_think_flushes_pending() {
    let mut f = ThinkBlockFilter::new();
    assert_eq!(f.feed("<thi"), "");
    assert_eq!(f.feed("s is not"), "<this is not");
    assert_eq!(f.feed(" a tag"), " a tag");
}

#[test]
fn filter_newlines_trimmed_after_think() {
    let mut f = ThinkBlockFilter::new();
    assert_eq!(f.feed("<think>x</think>"), "");
    assert_eq!(f.feed("\n"), "");
    assert_eq!(f.feed("\n"), "");
    assert_eq!(f.feed("answer"), "answer");
}

#[test]
fn filter_empty_input() {
    let mut f = ThinkBlockFilter::new();
    assert_eq!(f.feed(""), "");
}

// Verify that the close tag is detected regardless of which byte it is split at.
// The `keep = CLOSE_TAG.len() - 1` tail-preservation logic must handle all splits.
#[test]
fn filter_close_tag_split_at_each_byte() {
    let close = "</think>";
    for split in 1..close.len() {
        let (first, second) = close.split_at(split);
        let mut f = ThinkBlockFilter::new();
        assert_eq!(f.feed("<think>reasoning"), "", "split at {split}: open");
        assert_eq!(f.feed(first), "", "split at {split}: first half");
        assert_eq!(f.feed(second), "", "split at {split}: second half");
        assert_eq!(f.feed("answer"), "answer", "split at {split}: after");
    }
}

// Content immediately following the close tag (no leading newline) must be
// returned immediately and must NOT set trim_leading_newlines.
#[test]
fn filter_content_immediately_after_close_tag() {
    let mut f = ThinkBlockFilter::new();
    assert_eq!(f.feed("<think>x</think>answer"), "answer");
    assert_eq!(f.feed(" more"), " more");
}

// After the first think block the filter enters PassThrough.
// Any subsequent <think> tokens must be passed through verbatim.
#[test]
fn filter_second_think_block_passes_through() {
    let mut f = ThinkBlockFilter::new();
    assert_eq!(f.feed("<think>first</think>"), "");
    // PassThrough: second block is NOT filtered.
    assert_eq!(f.feed("<think>second</think>"), "<think>second</think>");
    assert_eq!(f.feed(" rest"), " rest");
}

// Korean 3-byte chars near the tail preservation boundary must not cause a
// char-boundary panic. The char_boundary adjustment in feed_inside is exercised.
#[test]
fn filter_utf8_boundary_at_close_tag_tail() {
    let mut f = ThinkBlockFilter::new();
    // "가나다" = 9 bytes; keep = CLOSE_TAG.len()-1 = 7.
    // After feed("<think>가나다"), pending inside = "가나다" (9 bytes, no truncation yet).
    // After feed("</thi"), pending = "가나다</thi" (15 bytes) → truncated to last 7 bytes.
    // Byte 15-7=8 lands inside "다" (bytes 6-8), so char_boundary loop backs up to byte 6.
    assert_eq!(f.feed("<think>가나다"), "");
    assert_eq!(f.feed("</thi"), ""); // must not panic
    assert_eq!(f.feed("nk>"), "");
    assert_eq!(f.feed("answer"), "answer");
}

// Leading newlines after close tag are trimmed; the first non-newline token
// stops trimming and is passed through intact, with no further trimming.
#[test]
fn filter_newline_then_non_newline_after_close_tag() {
    let mut f = ThinkBlockFilter::new();
    assert_eq!(f.feed("<think>x</think>"), "");
    assert_eq!(f.feed("\n"), "");
    assert_eq!(f.feed("\n"), "");
    assert_eq!(f.feed("answer\n"), "answer\n"); // trim_leading_newlines reset after first non-newline
    assert_eq!(f.feed("\n"), "\n"); // subsequent newlines pass through
}

// --- strip_think_blocks edge cases ---

// An unclosed <think> tag is not matched by the regex and must be preserved.
#[test]
fn unclosed_think_tag_preserved() {
    let input = "<think>no closing tag";
    assert_eq!(strip_think_blocks(input), "<think>no closing tag");
}

// Non-greedy `.*?` correctly handles nested markup inside the think block.
#[test]
fn nested_markup_inside_think_block() {
    let input = "<think><b>bold reasoning</b></think>answer";
    assert_eq!(strip_think_blocks(input), "answer");
}

// --- more of the same ---

#[test]
fn the_first_thought_is_extracted() {
    assert_eq!(
        extract_first_think_content("a<think> one </think>b<think>two</think>").as_deref(),
        Some(" one ")
    );
    assert_eq!(extract_first_think_content("no thought"), None);
    assert_eq!(extract_first_think_content("<think>open"), None);
    assert_eq!(extract_first_think_content("<think></think>").as_deref(), Some(""));
}

#[test]
fn a_filter_keeps_what_was_thought() {
    let mut f = ThinkBlockFilter::new();
    assert!(!f.is_thinking());
    assert_eq!(f.feed("<think>one"), "");
    assert!(f.is_thinking());
    assert_eq!(f.feed(" two</think>\nanswer"), "answer");
    assert!(!f.is_thinking());
    assert_eq!(f.take_think_content(), "one two");
    assert_eq!(f.take_think_content(), "");
}
