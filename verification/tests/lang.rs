use clip_llm::lang::is_lookup;
use clip_llm::lang::prose_is_korean;
use clip_llm::lang::EN_FUNCTION_WORDS;
use clip_llm::lang::KO_MARKERS;
use clip_llm::lang::LOOKUP_MAX_CHARS;

#[test]
fn grammar_tells_first() {
    assert!(prose_is_korean("이 함수는 값을 반환한다."));
    assert!(!prose_is_korean("This function returns the value."));
    // Particles outweigh any number of English terms.
    assert!(prose_is_korean("Kubernetes deployment manifest rollback procedure 문서를 보세요"));
    assert!(!prose_is_korean("Please translate the word 사랑 into English."));
}

#[test]
fn script_tells_where_grammar_does_not() {
    assert!(prose_is_korean("사랑"));
    assert!(!prose_is_korean("love"));
    // Two syllables weigh as much as five letters.
    assert!(prose_is_korean("사랑 hello"));
    assert!(!prose_is_korean("사랑 hellos"));
}

#[test]
fn no_prose_at_all_is_not_korean() {
    assert!(!prose_is_korean(""));
    assert!(!prose_is_korean("https://example.com/a_b 12345 API"));
}

#[test]
fn statements_are_not_prose() {
    assert!(prose_is_korean("select the value from the table; \n값 확인"));
    assert!(prose_is_korean("if (the) and or /* 값을 확인 */ {"));
    assert!(!prose_is_korean("if (the) and or // 값을 확인"));
}

#[test]
fn one_word_is_looked_up() {
    assert!(is_lookup("ubiquitous"));
    assert!(is_lookup("  \u{bc88}\u{c5ed}  "));
    assert!(is_lookup("caf\u{e9}"));
    assert!(!is_lookup(""));
    assert!(!is_lookup("two words"));
    assert!(!is_lookup("Hello!"));
    assert!(!is_lookup("12345"));
    assert!(!is_lookup("snake_case"));
    assert!(!is_lookup("a\nb"));
    assert!(is_lookup(&"a".repeat(LOOKUP_MAX_CHARS)));
    assert!(!is_lookup(&"a".repeat(LOOKUP_MAX_CHARS + 1)));
}

#[test]
fn every_marker_and_function_word_counts() {
    for w in EN_FUNCTION_WORDS {
        if w.len() >= 2 {
            assert!(!prose_is_korean(&format!("사랑사랑사랑 {w}")), "{w}");
        }
    }
    for m in KO_MARKERS {
        assert!(prose_is_korean(&format!("사랑{m} identifiers")), "{m}");
    }
}
