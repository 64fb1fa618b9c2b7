use clip_llm::api::client::EnvSettings;
use clip_llm::api::client::LlmClient;
use clip_llm::api::client::ThinkingControlMethod;
use clip_llm::api::client::MAX_RETRIES;
use clip_llm::api::client::RETRY_DELAY_MS;
use clip_llm::api::exchange::begin;
use clip_llm::api::exchange::sent;
use clip_llm::api::exchange::Job;
use clip_llm::api::exchange::Probing;
use clip_llm::api::exchange::Reply;
use clip_llm::api::exchange::Step;
use clip_llm::config::Config;
use clip_llm::ApiError;
use clip_llm::ClipboardContent;
use clip_llm::DebugCapture;
use clip_llm::ProcessMode;
use clip_llm::RephraseParams;
use clip_llm::ThinkingMode;
use std::sync::Arc;

fn configured() -> Config {
    let mut c = Config::default();
    c.api.endpoint = Some("http://h/v1".to_string());
    c.api.model = Some("m".to_string());
    c.api.api_key = Some("k".to_string());
    c
}

fn client() -> LlmClient {
    let env = EnvSettings { endpoint: None, model: None, api_key: None, custom_headers: None };
    LlmClient::new(env, &configured()).unwrap()
}

fn job() -> Job {
    Job {
        mode: ProcessMode::Translate,
        params: RephraseParams::default(),
        thinking: ThinkingMode::NoThink,
        stream: true,
    }
}

fn head(status: u16) -> Reply {
    Reply::Head {
        status,
        retry_after: Some("3".to_string()),
        error_body: Some("no".to_string()),
        message: "x".to_string(),
    }
}

#[test]
fn an_exchange_probes_first_and_then_sends() {
    let config = configured();
    let content = ClipboardContent::text_only("hi".to_string());
    let mut client = client();
    let mut capture = DebugCapture::default();

    let step = begin(&client, &config, &content, job(), &mut capture);
    let Step::Probe { body, probing } = step else { panic!("{step:?}") };
    assert_eq!(probing, Probing::Vision);
    assert_eq!(body, client.vision_probe_body());

    let step =
        probing.answered(&mut client, &config, &content, job(), Some(400), "", &mut capture);
    let Step::Probe { body, probing } = step else { panic!("{step:?}") };
    assert_eq!(probing, Probing::Kwargs { vision: false });
    assert_eq!(body, client.kwargs_probe_body());

    let step =
        probing.answered(&mut client, &config, &content, job(), Some(422), "", &mut capture);
    let Step::Probe { body, probing } = step else { panic!("{step:?}") };
    assert_eq!(probing, Probing::PromptTag { vision: false });
    assert_eq!(body, client.prompt_tag_probe_body());
    assert!(capture.request.is_none());

    let reply = r#"{"choices":[{"message":{"content":"<think>x</think>hi"}}]}"#;
    let step =
        probing.answered(&mut client, &config, &content, job(), Some(200), reply, &mut capture);
    let Step::Send { request, attempt } = step else { panic!("{step:?}") };
    assert_eq!(attempt, 1);
    assert_eq!(request.headers_timeout_secs, Some(10));
    assert!(request.body.contains("/no_think"));
    assert_eq!(client.known_vision(), Some(false));
    assert_eq!(client.known_thinking(), Some(ThinkingControlMethod::SystemPromptTag));
    assert_eq!(capture.endpoint.as_deref(), Some("http://h/v1/chat/completions"));
    assert!(capture.request.is_some());

    let step = begin(&client, &config, &content, job(), &mut capture);
    assert!(matches!(step, Step::Send { .. }));
}

#[test]
fn a_probe_that_settles_nothing_is_made_again() {
    let config = configured();
    let content = ClipboardContent::text_only("hi".to_string());
    let mut client = client();
    let mut capture = DebugCapture::default();
    let step = Probing::Kwargs { vision: false }.answered(
        &mut client,
        &config,
        &content,
        job(),
        None,
        "",
        &mut capture,
    );
    assert!(matches!(step, Step::Send { .. }));
    assert_eq!(client.known_thinking(), None);
    assert!(matches!(
        begin(&client, &config, &content, job(), &mut capture),
        Step::Probe { probing: Probing::Vision, .. }
    ));
}

#[test]
fn a_rate_limited_probe_is_not_made_again() {
    let config = configured();
    let content = ClipboardContent::text_only("hi".to_string());
    let mut client = client();
    let mut capture = DebugCapture::default();
    Probing::Vision.answered(&mut client, &config, &content, job(), Some(429), "", &mut capture);
    let probing = Probing::Kwargs { vision: false };
    probing.answered(&mut client, &config, &content, job(), Some(429), "", &mut capture);
    assert_eq!(client.known_vision(), Some(false));
    assert_eq!(client.known_thinking(), Some(ThinkingControlMethod::Unsupported));
}

#[test]
fn images_alone_are_not_sent_to_a_model_that_sees_none() {
    let config = configured();
    let content =
        ClipboardContent { text: None, images: vec![Arc::new(vec![1, 2, 3])], files: vec![] };
    let mut client = client();
    let mut capture = DebugCapture::default();
    client.probe_vision(Some(400));
    client.probe_thinking(Some(ThinkingControlMethod::Unsupported));
    let step = begin(&client, &config, &content, job(), &mut capture);
    assert!(matches!(step, Step::Failed(ApiError::NoUsableContent)));
    assert!(capture.endpoint.is_none());
}

#[test]
fn a_failed_try_is_repeated_once() {
    let config = configured();
    let content = ClipboardContent::text_only("hi".to_string());
    let mut client = client();
    let mut capture = DebugCapture::default();
    client.probe_vision(Some(400));
    client.probe_thinking(Some(ThinkingControlMethod::Unsupported));
    let step = begin(&client, &config, &content, job(), &mut capture);
    let Step::Send { request, attempt } = step else { panic!("{step:?}") };
    let body = request.body.clone();

    let step = sent(request, attempt, head(503), &mut capture);
    let Step::Wait { ms, request, attempt } = step else { panic!("{step:?}") };
    assert_eq!(ms, RETRY_DELAY_MS);
    assert_eq!(attempt, MAX_RETRIES + 1);
    assert_eq!(request.body, body);
    assert_eq!(capture.status, Some(503));
    assert_eq!(capture.response_raw.as_deref(), Some("no"));

    let step = sent(request, attempt, head(503), &mut capture);
    assert!(matches!(step, Step::Failed(ApiError::Http(f)) if f.status == Some(503)));
}

#[test]
fn a_rate_limit_is_waited_for() {
    let config = configured();
    let content = ClipboardContent::text_only("hi".to_string());
    let mut client = client();
    let mut capture = DebugCapture::default();
    client.probe_vision(Some(400));
    client.probe_thinking(Some(ThinkingControlMethod::Unsupported));
    let step = begin(&client, &config, &content, job(), &mut capture);
    let Step::Send { request, attempt } = step else { panic!("{step:?}") };
    let step = sent(request, attempt, head(429), &mut capture);
    let Step::Wait { ms, request, attempt } = step else { panic!("{step:?}") };
    assert_eq!(ms, 3000);
    let step = sent(request, attempt, head(200), &mut capture);
    assert!(matches!(step, Step::Accepted));
    assert_eq!(capture.status, Some(200));
    assert_eq!(capture.response_raw, None);
    let step = begin(&client, &config, &content, job(), &mut capture);
    let Step::Send { request, attempt } = step else { panic!("{step:?}") };
    let step = sent(request, attempt, Reply::Lost(ApiError::Cancelled), &mut capture);
    assert!(matches!(step, Step::Failed(ApiError::Cancelled)));
}
