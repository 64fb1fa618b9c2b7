use clip_llm::api::client::classify_kwargs_status;
use clip_llm::api::client::classify_prompt_tag;
use clip_llm::api::client::classify_vision_status;
use clip_llm::api::client::effective_max_tokens;
use clip_llm::api::client::estimate_prompt_tokens;
use clip_llm::api::client::is_rate_limited;
use clip_llm::api::client::is_streamed;
use clip_llm::api::client::is_transient_error;
use clip_llm::api::client::note_response;
use clip_llm::api::client::parse_custom_headers;
use clip_llm::api::client::parse_retry_after;
use clip_llm::api::client::require_setting;
use clip_llm::api::client::retry_delay;
use clip_llm::api::client::sanitize_debug_json;
use clip_llm::api::client::ContentPart;
use clip_llm::api::client::EnvSettings;
use clip_llm::api::client::ImageUrl;
use clip_llm::api::client::KwargsVerdict;
use clip_llm::api::client::LlmClient;
use clip_llm::api::client::MessageContent;
use clip_llm::api::client::ThinkingControlMethod;
use clip_llm::api::client::MIN_OUTPUT_TOKENS;
use clip_llm::api::client::RETRY_AFTER_DEFAULT_MS;
use clip_llm::api::client::RETRY_AFTER_MAX_MS;
use clip_llm::api::client::RETRY_DELAY_MS;
use clip_llm::api::wire::read_chat_response;
use clip_llm::config::Config;
use clip_llm::config::ModelSpec;
use clip_llm::error::HttpFailure;
use clip_llm::json::parse;
use clip_llm::json::Json;
use clip_llm::ApiError;
use clip_llm::ClipboardContent;
use clip_llm::DebugCapture;
use clip_llm::ProcessMode;
use clip_llm::RephraseParams;
use clip_llm::ThinkingMode;
use std::sync::Arc;

#[test]
fn require_setting_precedence_and_missing() {
    // env var wins over config.
    assert_eq!(
        require_setting(Some("env".to_string()), Some("cfg"), "x").unwrap(),
        "env"
    );
    // config wins when env is absent.
    assert_eq!(require_setting(None, Some("cfg"), "x").unwrap(), "cfg");
    // an empty env string is treated as unset and falls through to config.
    assert_eq!(
        require_setting(Some(String::new()), Some("cfg"), "x").unwrap(),
        "cfg"
    );
    // neither set (or both empty) -> MissingConfig carrying the field name.
    assert!(matches!(
        require_setting(None, None, "api.endpoint"),
        Err(ApiError::MissingConfig("api.endpoint"))
    ));
    assert!(matches!(
        require_setting(Some(String::new()), Some(""), "api.model"),
        Err(ApiError::MissingConfig("api.model"))
    ));
}

#[test]
fn estimate_prompt_tokens_overestimates() {
    // Whitespace is free; Hangul counts ~1/char, other non-space ~1/3 chars.
    assert_eq!(estimate_prompt_tokens(""), 0);
    assert_eq!(estimate_prompt_tokens("   \n\t "), 0);
    // 6 latin letters -> 6/3 = 2.
    assert_eq!(estimate_prompt_tokens("abcdef"), 2);
    // 3 Hangul syllables -> 3.
    assert_eq!(estimate_prompt_tokens("가나다"), 3);
    // Mixed: 3 Hangul + "abc" (3/3=1) = 4; the space is ignored.
    assert_eq!(estimate_prompt_tokens("가나다 abc"), 4);
}

#[test]
fn effective_max_tokens_clamps_to_budget() {
    // No budget -> ceiling unchanged.
    assert_eq!(effective_max_tokens(8000, None, 5000), 8000);
    // Budget with small prompt -> budget - prompt - margin, under the ceiling.
    // 6000 - 300 - 256 = 5444.
    assert_eq!(effective_max_tokens(40960, Some(6000), 300), 5444);
    // Ceiling caps the result when the budget would allow more.
    assert_eq!(effective_max_tokens(4000, Some(6000), 300), 4000);
    // A near-full prompt floors at MIN_OUTPUT_TOKENS rather than going to 0.
    assert_eq!(effective_max_tokens(40960, Some(6000), 5900), MIN_OUTPUT_TOKENS);
    // Floor is itself capped by a tiny ceiling.
    assert_eq!(effective_max_tokens(128, Some(6000), 5900), 128);
}

#[test]
fn is_transient_error_classification() {
    // Initial-response timeout is transient (worth a retry).
    assert!(is_transient_error(&ApiError::InitialResponseTimeout(10)));
    // Permanent failures must not be retried.
    assert!(!is_transient_error(&ApiError::EmptyResponse));
    assert!(!is_transient_error(&ApiError::NoUsableContent));
    assert!(!is_transient_error(&ApiError::Cancelled));
}

#[test]
fn parse_retry_after_integer_seconds() {
    assert_eq!(parse_retry_after(Some("5")), 5_000);
    assert_eq!(parse_retry_after(Some("0")), 0);
    // Leading/trailing whitespace is tolerated.
    assert_eq!(parse_retry_after(Some(" 3 ")), 3_000);
}

#[test]
fn parse_retry_after_clamps_to_max() {
    assert_eq!(parse_retry_after(Some("60")), RETRY_AFTER_MAX_MS);
    assert_eq!(parse_retry_after(Some("15")), RETRY_AFTER_MAX_MS);
    // Just under the cap is left unclamped.
    assert_eq!(parse_retry_after(Some("14")), 14_000);
}

#[test]
fn parse_retry_after_missing_defaults() {
    assert_eq!(parse_retry_after(None), RETRY_AFTER_DEFAULT_MS);
}

#[test]
fn parse_retry_after_http_date_form_defaults() {
    // The HTTP-date form is intentionally not parsed.
    assert_eq!(
        parse_retry_after(Some("Wed, 21 Oct 2026 07:28:00 GMT")),
        RETRY_AFTER_DEFAULT_MS
    );
}

#[test]
fn parse_retry_after_garbage_defaults() {
    assert_eq!(parse_retry_after(Some("not-a-number")), RETRY_AFTER_DEFAULT_MS);
    assert_eq!(parse_retry_after(Some("")), RETRY_AFTER_DEFAULT_MS);
    // Negative numbers are not valid u64 and fall back to the default.
    assert_eq!(parse_retry_after(Some("-5")), RETRY_AFTER_DEFAULT_MS);
}

#[test]
fn is_rate_limited_classification() {
    // Non-Http errors are never rate-limit errors.
    assert!(!is_rate_limited(&ApiError::EmptyResponse));
    assert!(!is_rate_limited(&ApiError::Cancelled));
    assert!(!is_rate_limited(&ApiError::InitialResponseTimeout(10)));
}

#[test]
fn parse_custom_headers_pairs() {
    let parsed = parse_custom_headers("\"X-A:1, X-B:2\"");
    assert_eq!(
        parsed,
        vec![
            ("X-A".to_string(), "1".to_string()),
            ("X-B".to_string(), "2".to_string()),
        ]
    );
    assert!(parse_custom_headers("").is_empty());
}

#[test]
fn parse_valid_response() {
    let json = r#"{"choices":[{"message":{"content":"hello"}}]}"#;
    let resp = read_chat_response(&parse(json).unwrap()).unwrap();
    assert_eq!(resp.choices[0].message.content, "hello");
}

#[test]
fn parse_empty_choices() {
    let json = r#"{"choices":[]}"#;
    let resp = read_chat_response(&parse(json).unwrap()).unwrap();
    assert!(resp.choices.is_empty());
}

#[test]
fn parse_ignores_extra_fields() {
    let json = r#"{"id":"x","choices":[{"index":0,"message":{"role":"assistant","content":"hi"}}]}"#;
    let resp = read_chat_response(&parse(json).unwrap()).unwrap();
    assert_eq!(resp.choices[0].message.content, "hi");
}

#[test]
fn parse_finish_reason_length() {
    let json = r#"{"choices":[{"message":{"content":"cut off"},"finish_reason":"length"}]}"#;
    let resp = read_chat_response(&parse(json).unwrap()).unwrap();
    assert_eq!(resp.choices[0].finish_reason.as_deref(), Some("length"));
}

#[test]
fn parse_response_usage_present() {
    let json = r#"{"choices":[{"message":{"content":"hi"}}],"usage":{"prompt_tokens":10,"completion_tokens":5,"total_tokens":15}}"#;
    let resp = read_chat_response(&parse(json).unwrap()).unwrap();
    let usage = resp.usage.expect("usage must be parsed");
    assert_eq!(usage.prompt_tokens, 10);
    assert_eq!(usage.completion_tokens, 5);
    assert_eq!(usage.total_tokens, 15);
}

#[test]
fn parse_response_usage_absent() {
    let json = r#"{"choices":[{"message":{"content":"hi"}}]}"#;
    let resp = read_chat_response(&parse(json).unwrap()).unwrap();
    assert!(resp.usage.is_none());
}

#[test]
fn classify_vision_status_caches_429() {
    // #63: 429 must be a cacheable `false` so the hot path stops re-probing
    // a rate-limited endpoint instead of re-firing the probe burst.
    assert_eq!(classify_vision_status(429), Some(false));
    // Definitive verdicts cache as before.
    assert_eq!(classify_vision_status(200), Some(true));
    assert_eq!(classify_vision_status(204), Some(true));
    assert_eq!(classify_vision_status(400), Some(false));
    assert_eq!(classify_vision_status(422), Some(false));
    // Genuinely transient / config errors stay uncached (re-probe).
    assert_eq!(classify_vision_status(401), None);
    assert_eq!(classify_vision_status(403), None);
    assert_eq!(classify_vision_status(404), None);
    assert_eq!(classify_vision_status(500), None);
    assert_eq!(classify_vision_status(503), None);
}

// --- MessageContent serialization tests ---

#[test]
fn message_content_text_serializes_as_string() {
    let mc = MessageContent::Text("hello".to_owned());
    assert_eq!(mc.to_json(), Json::str("hello"));
}

#[test]
fn message_content_parts_serializes_as_array() {
    let mc = MessageContent::Parts(vec![
        ContentPart::Text {
            text: "describe".to_owned(),
        },
        ContentPart::ImageUrl {
            image_url: ImageUrl {
                url: "data:image/png;base64,abc".to_owned(),
            },
        },
    ]);
    let json = mc.to_json();
    let arr = match &json {
        Json::Array(items) => items,
        other => panic!("{other:?}"),
    };
    assert_eq!(arr.len(), 2);
    assert_eq!(arr[0].get("type"), Some(&Json::str("text")));
    assert_eq!(arr[0].get("text"), Some(&Json::str("describe")));
    assert_eq!(arr[1].get("type"), Some(&Json::str("image_url")));
    assert_eq!(
        arr[1].get("image_url").unwrap().get("url"),
        Some(&Json::str("data:image/png;base64,abc"))
    );
}

// --- build_user_content tests ---

#[test]
fn build_user_content_text_only() {
    let content = ClipboardContent::text_only("hello".into());
    let mc = LlmClient::build_user_content(&content, false);
    assert_eq!(mc, MessageContent::Text("hello".to_owned()));
}

#[test]
fn build_user_content_with_image_summarize() {
    let content = ClipboardContent {
        text: Some("caption".into()),
        images: vec![Arc::new(vec![0x89, 0x50])],
        files: vec![],
    };
    let mc = LlmClient::build_user_content(&content, true);
    match mc {
        MessageContent::Parts(parts) => {
            assert_eq!(parts.len(), 2);
            assert!(matches!(&parts[0], ContentPart::Text { text } if text == "caption"));
            assert!(matches!(&parts[1], ContentPart::ImageUrl { .. }));
        }
        _ => panic!("expected Parts"),
    }
}

#[test]
fn build_user_content_no_images_returns_text() {
    let content = ClipboardContent {
        text: Some("hello".into()),
        images: vec![Arc::new(vec![0x89])],
        files: vec![],
    };
    // use_images=false: caller decided not to include images.
    let mc = LlmClient::build_user_content(&content, false);
    assert_eq!(mc, MessageContent::Text("hello".to_owned()));
}

#[test]
fn build_user_content_image_only_no_text_part() {
    let content = ClipboardContent {
        text: None,
        images: vec![Arc::new(vec![0x89, 0x50])],
        files: vec![],
    };
    let mc = LlmClient::build_user_content(&content, true);
    match mc {
        MessageContent::Parts(parts) => {
            // Only image part, no text part since text is None.
            assert_eq!(parts.len(), 1);
            assert!(matches!(&parts[0], ContentPart::ImageUrl { .. }));
        }
        _ => panic!("expected Parts"),
    }
}

#[test]
fn build_user_content_empty_text_with_image() {
    let content = ClipboardContent {
        text: Some("".into()),
        images: vec![Arc::new(vec![0x89, 0x50])],
        files: vec![],
    };
    let mc = LlmClient::build_user_content(&content, true);
    match mc {
        MessageContent::Parts(parts) => {
            // Empty text should be omitted, only image part.
            assert_eq!(parts.len(), 1);
            assert!(matches!(&parts[0], ContentPart::ImageUrl { .. }));
        }
        _ => panic!("expected Parts"),
    }
}

// --- resolve_thinking tests ---

#[test]
fn resolve_thinking_unsupported_returns_none() {
    let (prefix, kwargs) = LlmClient::resolve_thinking(
        ThinkingMode::Think,
        ThinkingControlMethod::Unsupported,
    );
    assert!(prefix.is_none());
    assert!(kwargs.is_none());
}

#[test]
fn resolve_thinking_think_with_kwargs() {
    let (prefix, kwargs) = LlmClient::resolve_thinking(
        ThinkingMode::Think,
        ThinkingControlMethod::ChatTemplateKwargs,
    );
    assert!(prefix.is_none());
    assert!(kwargs.unwrap().enable_thinking);
}

#[test]
fn resolve_thinking_nothink_with_kwargs() {
    let (prefix, kwargs) = LlmClient::resolve_thinking(
        ThinkingMode::NoThink,
        ThinkingControlMethod::ChatTemplateKwargs,
    );
    assert!(prefix.is_none());
    assert!(!kwargs.unwrap().enable_thinking);
}

#[test]
fn resolve_thinking_think_with_prompt_tag() {
    let (prefix, kwargs) = LlmClient::resolve_thinking(
        ThinkingMode::Think,
        ThinkingControlMethod::SystemPromptTag,
    );
    assert_eq!(prefix.unwrap(), "/think\n");
    assert!(kwargs.is_none());
}

#[test]
fn resolve_thinking_nothink_with_prompt_tag() {
    let (prefix, kwargs) = LlmClient::resolve_thinking(
        ThinkingMode::NoThink,
        ThinkingControlMethod::SystemPromptTag,
    );
    assert_eq!(prefix.unwrap(), "/no_think\n");
    assert!(kwargs.is_none());
}

// --- settings ---

fn text(s: &str) -> Option<String> {
    Some(s.to_string())
}

fn no_env() -> EnvSettings {
    EnvSettings { endpoint: None, model: None, api_key: None, custom_headers: None }
}

fn configured() -> Config {
    let mut c = Config::default();
    c.api.endpoint = text("https://host/v1/");
    c.api.model = text("m");
    c.api.api_key = text("k");
    c
}

fn client() -> LlmClient {
    LlmClient::new(no_env(), &configured()).unwrap()
}

#[test]
fn a_client_takes_its_settings_from_the_environment_first() {
    let c = client();
    assert!(c.endpoint().starts_with("https://host/v1"), "{}", c.endpoint());
    assert_eq!(c.model(), "m");
    assert_eq!(c.api_key(), Some("k"));
    assert!(c.custom_headers().is_empty());

    let env = EnvSettings {
        endpoint: None,
        model: text("other"),
        api_key: text("secret"),
        custom_headers: text("X-A:1"),
    };
    let c = LlmClient::new(env, &configured()).unwrap();
    assert_eq!(c.model(), "other");
    assert_eq!(c.api_key(), Some("secret"));
    assert_eq!(c.custom_headers().len(), 1);
}

#[test]
fn a_client_needs_an_endpoint_a_model_and_a_key() {
    let missing = |edit: fn(&mut Config)| {
        let mut c = configured();
        edit(&mut c);
        match LlmClient::new(no_env(), &c) {
            Err(ApiError::MissingConfig(name)) => name.to_string(),
            Err(other) => panic!("{other:?}"),
            Ok(_) => panic!("built"),
        }
    };
    assert!(missing(|c| c.api.endpoint = None).contains("endpoint"));
    assert!(missing(|c| c.api.model = None).contains("model"));
    assert!(missing(|c| c.api.api_key = None).contains("api_key"));
}

// --- requests ---

fn body_of(stream: bool, control: ThinkingControlMethod) -> (String, DebugCapture) {
    let mut capture = DebugCapture::default();
    let out = client()
        .build(
            &configured(),
            &ClipboardContent::text_only("hello".into()),
            ProcessMode::Translate,
            RephraseParams::default(),
            ThinkingMode::NoThink,
            false,
            control,
            stream,
            &mut capture,
        )
        .unwrap();
    (out.body, capture)
}

#[test]
fn a_request_holds_the_prompt_and_the_text() {
    let (body, capture) = body_of(true, ThinkingControlMethod::ChatTemplateKwargs);
    let j = parse(&body).unwrap();
    assert_eq!(j.get("model"), Some(&Json::str("m")));
    assert_eq!(j.get("stream"), Some(&Json::Bool(true)));
    assert_eq!(
        j.get("chat_template_kwargs").unwrap().get("enable_thinking"),
        Some(&Json::Bool(false))
    );
    let messages = match j.get("messages").unwrap() {
        Json::Array(items) => items,
        other => panic!("{other:?}"),
    };
    assert_eq!(messages.len(), 2);
    assert_eq!(messages[0].get("role"), Some(&Json::str("system")));
    assert_eq!(messages[1].get("role"), Some(&Json::str("user")));
    assert_eq!(messages[1].get("content"), Some(&Json::str("hello")));
    assert!(!body.contains("\"k\""), "no key in {body}");
    assert!(capture.request.unwrap().contains("hello"));
    assert!(capture.endpoint.unwrap().starts_with("https://host/v1"));
}

#[test]
fn a_prompt_tag_goes_before_the_system_prompt() {
    let (body, _) = body_of(false, ThinkingControlMethod::SystemPromptTag);
    let j = parse(&body).unwrap();
    assert!(j.get("chat_template_kwargs").is_none());
    let messages = match j.get("messages").unwrap() {
        Json::Array(items) => items,
        other => panic!("{other:?}"),
    };
    let system = messages[0].get("content").unwrap().as_str().unwrap();
    assert!(system.starts_with("/no_think\n"), "{system}");
}

#[test]
fn an_image_without_a_model_that_sees_is_refused() {
    let mut capture = DebugCapture::default();
    let content =
        ClipboardContent { text: None, images: vec![Arc::new(vec![0x89])], files: vec![] };
    let r = client().build(
        &configured(),
        &content,
        ProcessMode::Summarize,
        RephraseParams::default(),
        ThinkingMode::NoThink,
        false,
        ThinkingControlMethod::Unsupported,
        false,
        &mut capture,
    );
    assert!(matches!(r, Err(ApiError::NoUsableContent)));
}

#[test]
fn inline_data_is_left_out_of_the_record() {
    let long = format!("data:image/png;base64,{}", "A".repeat(200));
    let mut j = Json::Array(vec![
        Json::str(&long),
        Json::str("data:image/png;base64,AAAA"),
        Json::Object(vec![("url".to_string(), Json::str(&long))]),
    ]);
    sanitize_debug_json(&mut j);
    let elided = format!("[inline data elided, {} bytes]", long.len());
    let expected = Json::Array(vec![
        Json::str(&elided),
        Json::str("data:image/png;base64,AAAA"),
        Json::Object(vec![("url".to_string(), Json::str(&elided))]),
    ]);
    assert_eq!(j, expected);
    sanitize_debug_json(&mut j);
    assert_eq!(j, expected);
}

// --- probes ---

#[test]
fn probes_settle_what_the_model_can_do() {
    let kwargs = ThinkingControlMethod::ChatTemplateKwargs;
    assert_eq!(classify_kwargs_status(Some(200)), KwargsVerdict::Settled(kwargs));
    assert_eq!(classify_kwargs_status(Some(400)), KwargsVerdict::TryPromptTag);
    assert_eq!(
        classify_kwargs_status(Some(429)),
        KwargsVerdict::Settled(ThinkingControlMethod::Unsupported)
    );
    assert_eq!(classify_kwargs_status(Some(500)), KwargsVerdict::Inconclusive);
    assert_eq!(classify_kwargs_status(None), KwargsVerdict::Inconclusive);

    let aloud = r#"{"choices":[{"message":{"content":"<think>hm</think>x"}}]}"#;
    let quiet = r#"{"choices":[{"message":{"content":"x"}}]}"#;
    assert_eq!(
        classify_prompt_tag(Some(200), aloud),
        Some(ThinkingControlMethod::SystemPromptTag)
    );
    assert_eq!(
        classify_prompt_tag(Some(200), quiet),
        Some(ThinkingControlMethod::Unsupported)
    );
    assert_eq!(classify_prompt_tag(None, aloud), None);
}

#[test]
fn a_settled_probe_is_not_repeated() {
    let mut c = client();
    assert_eq!(c.known_vision(), None);
    assert!(!c.probe_vision(Some(500)));
    assert_eq!(c.known_vision(), None);
    assert!(c.probe_vision(Some(200)));
    assert_eq!(c.known_vision(), Some(true));

    assert_eq!(c.known_thinking(), None);
    assert_eq!(c.probe_thinking(None), ThinkingControlMethod::Unsupported);
    assert_eq!(c.known_thinking(), None);
    let kwargs = ThinkingControlMethod::ChatTemplateKwargs;
    assert_eq!(c.probe_thinking(Some(kwargs)), kwargs);
    assert_eq!(c.known_thinking(), Some(kwargs));
}

#[test]
fn probes_are_small_requests() {
    let c = client();
    for body in [c.vision_probe_body(), c.kwargs_probe_body(), c.prompt_tag_probe_body()] {
        let j = parse(&body).unwrap();
        assert_eq!(j.get("model"), Some(&Json::str("m")), "{body}");
        assert!(j.get("max_tokens").unwrap().as_u64().unwrap() > 0, "{body}");
    }
    assert!(c.vision_probe_body().contains("data:image/png;base64,"));
}

#[test]
fn members_go_out_in_their_order() {
    let c = client();
    assert_eq!(
        c.kwargs_probe_body(),
        "{\"model\":\"m\",\"messages\":[{\"role\":\"user\",\"content\":\"Say hi.\"}],\
         \"temperature\":0.0,\"max_tokens\":128,\
         \"chat_template_kwargs\":{\"enable_thinking\":true}}"
    );
    assert_eq!(
        c.prompt_tag_probe_body(),
        "{\"model\":\"m\",\"messages\":[{\"role\":\"system\",\"content\":\"/think\"},\
         {\"role\":\"user\",\"content\":\"Say hi.\"}],\"temperature\":0.0,\"max_tokens\":128}"
    );
    let vision = c.vision_probe_body();
    assert!(vision.starts_with(
        "{\"model\":\"m\",\"messages\":[{\"role\":\"user\",\"content\":[\
         {\"type\":\"text\",\"text\":\"Describe this image in one word.\"},\
         {\"type\":\"image_url\",\"image_url\":{\"url\":\"data:image/png;base64,"
    ));
    assert!(vision.ends_with("\"}}]}],\"temperature\":0.0,\"max_tokens\":1}"));
    let (body, _) = body_of(true, ThinkingControlMethod::Unsupported);
    assert!(body.starts_with("{\"model\":\"m\",\"messages\":[{\"role\":\"system\",\"content\":\""));
    assert!(body.contains("{\"role\":\"user\",\"content\":\"hello\"}],\"temperature\":"));
    assert!(body.ends_with(",\"stream\":true}"), "{body}");
}

#[test]
fn a_line_of_json_keeps_the_order_of_members() {
    let text = "{\"b\":[1,null,{}],\"a\\n\":\"x\\\"y\",\"c\":[],\"d\":true}";
    let j = Json::Object(vec![
        (
            "b".to_string(),
            Json::Array(vec![Json::number(1), Json::Null, Json::Object(Vec::new())]),
        ),
        ("a\n".to_string(), Json::str("x\"y")),
        ("c".to_string(), Json::Array(Vec::new())),
        ("d".to_string(), Json::Bool(true)),
    ]);
    assert_eq!(j.to_line(), text);
    // The other way to write a document sorts them.
    assert!(j.to_compact().starts_with("{\"a\\n\":"));
    assert_eq!(parse(&j.to_line()).unwrap().to_compact(), j.to_compact());
}

// --- replies ---

fn http(status: Option<u16>) -> ApiError {
    ApiError::Http(HttpFailure {
        connect: false,
        timeout: false,
        status,
        message: "m".to_string(),
    })
}

#[test]
fn failures_are_retried_where_that_may_help() {
    assert_eq!(retry_delay(1, &ApiError::InitialResponseTimeout(10), None), Some(RETRY_DELAY_MS));
    assert_eq!(retry_delay(2, &ApiError::InitialResponseTimeout(10), None), None);
    assert_eq!(retry_delay(1, &http(Some(429)), Some(7)), Some(7));
    assert_eq!(retry_delay(1, &http(Some(429)), None), Some(RETRY_AFTER_DEFAULT_MS));
    assert_eq!(retry_delay(1, &http(Some(404)), None), None);
    assert!(is_rate_limited(&http(Some(429))));
    assert!(is_transient_error(&ApiError::Http(HttpFailure {
        connect: true,
        timeout: false,
        status: None,
        message: "refused".to_string(),
    })));
}

#[test]
fn the_head_of_a_reply_is_noted() {
    let mut capture = DebugCapture::default();
    assert!(note_response(&mut capture, 200, None, None, "x".to_string()).is_ok());
    assert_eq!(capture.status, Some(200));
    let refusal =
        note_response(&mut capture, 429, Some("3"), text("slow down"), "x".to_string())
            .unwrap_err();
    assert_eq!(refusal.retry_after, Some(3_000));
    assert!(is_rate_limited(&refusal.error));
    assert_eq!(capture.response_raw.as_deref(), Some("slow down"));
    let refusal =
        note_response(&mut capture, 400, Some("3"), None, "x".to_string()).unwrap_err();
    assert_eq!(refusal.retry_after, None);
}

#[test]
fn a_reply_comes_to_its_first_answer() {
    let mut capture = DebugCapture::default();
    let c = client();
    let good = r#"{"choices":[{"message":{"content":"hello"}}],
        "usage":{"prompt_tokens":10,"completion_tokens":5,"total_tokens":15}}"#;
    assert_eq!(c.complete(good.to_string(), None, &mut capture).unwrap(), "hello");
    assert_eq!(capture.response_raw.as_deref(), Some(good));
    assert_eq!(capture.total_tokens, Some(15));
    let cut = r#"{"choices":[{"message":{"content":"he"},"finish_reason":"length"}]}"#;
    assert!(matches!(c.complete(cut.to_string(), None, &mut capture), Err(ApiError::Truncated)));
    for empty in [r#"{"choices":[]}"#, r#"{"choices":[{"message":{"content":""}}]}"#] {
        assert!(matches!(
            c.complete(empty.to_string(), None, &mut capture),
            Err(ApiError::EmptyResponse)
        ));
    }
    for bad in ["no json", r#"{"choices":1}"#] {
        assert!(matches!(
            c.complete(bad.to_string(), None, &mut capture),
            Err(ApiError::MalformedResponse(_))
        ));
    }
}

#[test]
fn answers_are_streamed_unless_that_is_forbidden() {
    let mut c = configured();
    assert!(is_streamed(false, &c));
    assert!(!is_streamed(true, &c));
    c.api.streaming = Some(false);
    assert!(!is_streamed(false, &c));
    c.api.streaming = Some(true);
    assert!(is_streamed(false, &c));
    assert!(!is_streamed(true, &c));
}

#[test]
fn a_body_of_another_shape_is_named() {
    let mut capture = DebugCapture::default();
    let e = client().complete("{\"error\": 1}".into(), None, &mut capture).unwrap_err();
    assert!(matches!(e, ApiError::MalformedResponse(why) if why == "not a chat completion"));
    let e = client().complete("<html>".into(), None, &mut capture).unwrap_err();
    assert!(matches!(e, ApiError::MalformedResponse(why) if why.contains("line 1")));
    // What another reader says against the body is handed on.
    let twice = "{\"choices\":[],\"choices\":[{\"message\":{\"content\":\"x\"}}]}".to_string();
    let why = "duplicate field `choices` at line 1 column 23".to_string();
    let e = client().complete(twice.clone(), Some(why.clone()), &mut capture).unwrap_err();
    assert!(matches!(e, ApiError::MalformedResponse(w) if w == why));
    assert_eq!(capture.response_raw, Some(twice));
}

#[test]
fn a_profile_has_a_connection_of_its_own() {
    let env = || EnvSettings {
        endpoint: text("https://env"),
        model: text("env-model"),
        api_key: text("env-key"),
        custom_headers: text("A:b"),
    };
    let mut c = configured();
    c.generation.max_tokens = Some(5);
    c.generation.token_budget = Some(6);
    c.generation.request_timeout_secs = Some(7);
    let mut spec = ModelSpec {
        name: "p".into(),
        provider: None,
        endpoint: text("https://own/v1"),
        model: text("own"),
        api_key: text("own-key"),
        auth_file: None,
        headers: vec![("X".into(), "y".into())],
        max_tokens: Some(9),
        token_budget: None,
        thinking_control: None,
        from_api_section: false,
    };
    let own = LlmClient::for_spec(&spec, env(), &c, None).unwrap();
    assert_eq!(own.endpoint(), "https://own/v1/chat/completions");
    assert_eq!((own.model(), own.api_key()), ("own", Some("own-key")));
    assert_eq!(own.custom_headers(), &[("X".to_string(), "y".to_string())]);
    assert_eq!(own.timeout_secs(), 7);
    let session = LlmClient::for_spec(&spec, env(), &c, text("token")).unwrap();
    assert_eq!(session.api_key(), Some("token"));
    spec.from_api_section = true;
    let first = LlmClient::for_spec(&spec, env(), &c, None).unwrap();
    assert_eq!((first.model(), first.api_key()), ("env-model", Some("env-key")));
    spec.from_api_section = false;
    spec.model = None;
    let e = LlmClient::for_spec(&spec, env(), &c, None).unwrap_err();
    assert!(matches!(e, ApiError::MissingConfig(name) if name == "api.model"));
}
