use clip_llm::api::auth::grok::load_store;
use clip_llm::api::auth::grok::parse_store;
use clip_llm::api::auth::grok::persist_tokens;
use clip_llm::api::auth::grok::unreadable_store;
use clip_llm::api::auth::grok::update_store_doc;
use clip_llm::api::auth::grok::BearerStep;
use clip_llm::api::auth::grok::EntryLocation;
use clip_llm::api::auth::grok::GrokCliAuth;
use clip_llm::api::auth::grok::TokenState;
use clip_llm::api::auth::oauth::needs_refresh;
use clip_llm::api::auth::oauth::needs_refresh_at;
use clip_llm::api::auth::oauth::read_refreshed;
use clip_llm::api::auth::oauth::refresh_form;
use clip_llm::api::auth::oauth::refresh_outcome;
use clip_llm::api::auth::oauth::RefreshedTokens;
use clip_llm::api::auth::oauth::REFRESH_SKEW;
use clip_llm::api::auth::TokenProvider;
use clip_llm::clock::parse_iso8601_utc;
use clip_llm::clock::YEAR_10000_MS;
use clip_llm::format_utc;
use clip_llm::json::parse;
use clip_llm::json::Json;
use clip_llm::ApiError;

const KEY: &str = "https://auth.x.ai::b1a00492-073a-47ea-816f-4c329264a828";

const CURRENT: &str = r#"{
    "https://auth.x.ai::b1a00492-073a-47ea-816f-4c329264a828": {
        "auth_mode": "oidc",
        "email": "user@example.com",
        "expires_at": "2026-07-12T15:19:19.025Z",
        "key": "access-1",
        "oidc_client_id": "b1a00492-073a-47ea-816f-4c329264a828",
        "oidc_issuer": "https://auth.x.ai",
        "refresh_token": "refresh-1",
        "team_id": "team-1"
    }
}"#;

fn doc(text: &str) -> Json {
    parse(text).unwrap()
}

fn now_ms() -> u64 {
    std::time::SystemTime::now().duration_since(std::time::UNIX_EPOCH).unwrap().as_millis() as u64
}

// --- moments ---

#[test]
fn parse_iso8601_roundtrips_format_utc() {
    for t in [0u64, 1_700_000_000_123, 86_399_999] {
        let s = format_utc(t);
        assert_eq!(parse_iso8601_utc(&s), Some(t), "roundtrip failed for {s}");
    }
}

#[test]
fn parse_iso8601_real_grok_timestamp() {
    let t = parse_iso8601_utc("2026-07-12T15:19:19.025Z").expect("must parse");
    assert_eq!(format_utc(t), "2026-07-12T15:19:19.025Z");
}

#[test]
fn parse_iso8601_without_fraction() {
    let t = parse_iso8601_utc("1970-01-02T00:00:00Z").expect("must parse");
    assert_eq!(t, 86_400 * 1000);
}

#[test]
fn parse_iso8601_long_fraction_truncated_to_millis() {
    let t = parse_iso8601_utc("2026-06-13T10:58:45.783067Z").expect("must parse");
    assert_eq!(format_utc(t), "2026-06-13T10:58:45.783Z");
}

#[test]
fn parse_iso8601_rejects_garbage() {
    for s in [
        "",
        "not-a-date",
        "2026-07-12 15:19:19Z",
        "2026-07-12T15:19:19",
        "2026-13-01T00:00:00Z",
        "2026-07-12T24:00:00Z",
        "2026-07-12T15:19:19.Z",
        "1969-12-31T23:59:59Z",
    ] {
        assert_eq!(parse_iso8601_utc(s), None, "should reject {s:?}");
    }
}

// --- refreshing ---

#[test]
fn needs_refresh_respects_skew() {
    assert!(!needs_refresh(Some(now_ms() + 3600 * 1000)));
    assert!(needs_refresh(Some(now_ms() + 30 * 1000)));
    assert!(needs_refresh(Some(now_ms() - 30 * 1000)));
    assert!(!needs_refresh(None));
}

#[test]
fn a_token_is_due_a_minute_before_it_expires() {
    assert!(!needs_refresh_at(Some(1_000_000 + REFRESH_SKEW + 1), 1_000_000));
    assert!(needs_refresh_at(Some(1_000_000 + REFRESH_SKEW), 1_000_000));
    assert!(!needs_refresh_at(None, 1_000_000));
}

#[test]
fn refreshed_tokens_parse_minimal_and_full() {
    let full = read_refreshed(&doc(
        r#"{"access_token":"a","refresh_token":"r","expires_in":3600,"id_token":"x","token_type":"Bearer"}"#,
    ))
    .unwrap();
    assert_eq!(full.access_token, "a");
    assert_eq!(full.refresh_token.as_deref(), Some("r"));
    assert_eq!(full.expires_in, Some(3600));
    assert!(full.expires_at().is_some());
    assert_eq!(full.expires_at_from(1_000), Some(1_000 + 3_600_000));

    let minimal = read_refreshed(&doc(r#"{"access_token":"a"}"#)).unwrap();
    assert!(minimal.refresh_token.is_none());
    assert!(minimal.expires_at().is_none());
}

#[test]
fn a_refresh_form_names_the_grant() {
    let form = refresh_form("cid", "r1");
    let pair = |k: &str, v: &str| (k.to_string(), v.to_string());
    assert_eq!(
        form,
        vec![
            pair("grant_type", "refresh_token"),
            pair("refresh_token", "r1"),
            pair("client_id", "cid"),
        ]
    );
}

#[test]
fn a_refresh_fails_with_its_status() {
    assert_eq!(refresh_outcome(200, r#"{"access_token":"a"}"#, None).unwrap().access_token, "a");
    match refresh_outcome(400, r#"{"error":"invalid_grant"}"#, None) {
        Err(ApiError::Auth(why)) => assert!(why.contains("400"), "{why}"),
        other => panic!("{other:?}"),
    }
    assert!(matches!(refresh_outcome(200, "no json", None), Err(ApiError::Auth(_))));
    match refresh_outcome(200, "{}", Some("missing field `access_token` at line 1 column 2")) {
        Err(ApiError::Auth(why)) => assert_eq!(
            why,
            "unreadable token refresh response: missing field `access_token` at line 1 column 2"
        ),
        other => panic!("{other:?}"),
    }
    match refresh_outcome(500, "", Some("x")) {
        Err(ApiError::Auth(why)) => {
            assert_eq!(why, "OAuth token refresh was rejected (HTTP 500)");
        }
        other => panic!("{other:?}"),
    }
}

// --- the store ---

#[test]
fn parse_current_format() {
    let store = parse_store(&doc(CURRENT)).unwrap();
    assert_eq!(store.tokens.access_token, "access-1");
    assert_eq!(store.tokens.refresh_token.as_deref(), Some("refresh-1"));
    assert_eq!(
        store.tokens.expires_at.map(format_utc).as_deref(),
        Some("2026-07-12T15:19:19.025Z")
    );
    assert_eq!(store.client_id, "b1a00492-073a-47ea-816f-4c329264a828");
    assert_eq!(store.token_url, "https://auth.x.ai/oauth2/token");
    assert_eq!(
        store.location,
        EntryLocation::Keyed("https://auth.x.ai::b1a00492-073a-47ea-816f-4c329264a828".into())
    );
}

#[test]
fn parse_current_format_client_id_from_key_suffix() {
    let store = parse_store(&doc(r#"{"https://auth.x.ai::the-client-id": {"key": "a"}}"#)).unwrap();
    assert_eq!(store.client_id, "the-client-id");
    assert_eq!(store.token_url, "https://auth.x.ai/oauth2/token");
}

#[test]
fn parse_legacy_keyed_format() {
    let store = parse_store(&doc(
        r#"{"https://accounts.x.ai/sign-in": {
            "access_token": "legacy-access",
            "oidc_client_id": "cid"
        }}"#,
    ))
    .unwrap();
    assert_eq!(store.tokens.access_token, "legacy-access");
    assert!(store.tokens.refresh_token.is_none());
    assert!(store.tokens.expires_at.is_none());
    assert_eq!(store.token_url, "https://auth.x.ai/oauth2/token");
}

#[test]
fn parse_top_level_format_with_numeric_expiry() {
    let store = parse_store(&doc(
        r#"{
            "token": "top-access",
            "refresh": "top-refresh",
            "expires_at": 1752345600000,
            "client_id": "cid"
        }"#,
    ))
    .unwrap();
    assert_eq!(store.tokens.access_token, "top-access");
    assert_eq!(store.tokens.refresh_token.as_deref(), Some("top-refresh"));
    assert_eq!(store.location, EntryLocation::TopLevel);
    assert_eq!(store.tokens.expires_at, Some(1_752_345_600_000));
}

#[test]
fn parse_numeric_expiry_in_seconds() {
    let store = parse_store(&doc(
        r#"{"token": "a", "expires_at": 1752345600, "client_id": "cid"}"#,
    ))
    .unwrap();
    assert_eq!(store.tokens.expires_at, Some(1_752_345_600 * 1000));
}

#[test]
fn parse_unreadable_expiry_means_already_expired() {
    for bad in ["\"2026-07-12T15:19:19+00:00\"", "1752345600.5", "true"] {
        let text = format!(r#"{{"token": "a", "client_id": "cid", "expires_at": {bad}}}"#);
        let store = parse_store(&doc(&text)).unwrap();
        assert_eq!(store.tokens.expires_at, Some(0), "value: {bad}");
    }
    let store = parse_store(&doc(r#"{"token": "a", "client_id": "cid"}"#)).unwrap();
    assert_eq!(store.tokens.expires_at, None);
}

#[test]
fn parse_rejects_stores_without_credentials() {
    for text in ["{}", r#"{"unrelated": {"foo": 1}}"#, "[1, 2, 3]"] {
        assert!(matches!(parse_store(&doc(text)), Err(ApiError::Auth(_))), "doc: {text}");
    }
}

#[test]
fn update_store_preserves_other_fields_and_entries() {
    let mut store = doc(CURRENT);
    if let Json::Object(members) = &mut store {
        members.push((
            "https://other.example::x".to_string(),
            doc(r#"{"key": "other-access"}"#),
        ));
    }
    let location = EntryLocation::Keyed(KEY.into());
    let new_expiry = 1_800_000_000_000u64;
    let tokens = TokenState {
        access_token: "access-2".into(),
        refresh_token: Some("refresh-2".into()),
        expires_at: Some(new_expiry),
    };
    assert!(update_store_doc(&mut store, &location, &tokens));

    let entry = store.get(KEY).unwrap();
    let text = |name: &str| entry.get(name).unwrap().as_str().unwrap().as_str();
    assert_eq!(text("key"), "access-2");
    assert_eq!(text("refresh_token"), "refresh-2");
    assert_eq!(text("expires_at"), format_utc(new_expiry));
    assert_eq!(text("email"), "user@example.com");
    assert_eq!(text("auth_mode"), "oidc");
    assert_eq!(text("team_id"), "team-1");
    let other = store.get("https://other.example::x").unwrap();
    assert_eq!(other.get("key").unwrap().as_str().unwrap(), "other-access");
}

#[test]
fn update_store_keeps_numeric_expiry_numeric() {
    let mut store = doc(r#"{"token": "a", "expires_at": 1752345600000, "client_id": "cid"}"#);
    let tokens = TokenState {
        access_token: "b".into(),
        refresh_token: None,
        expires_at: Some(1_800_000_000_000),
    };
    assert!(update_store_doc(&mut store, &EntryLocation::TopLevel, &tokens));
    assert_eq!(store.get("token").unwrap().as_str().unwrap(), "b");
    assert_eq!(store.get("expires_at").unwrap().as_u64(), Some(1_800_000_000_000u64));
}

#[test]
fn update_store_uses_existing_refresh_field_name() {
    let mut store = doc(r#"{"token": "a", "refresh": "old", "client_id": "cid"}"#);
    let tokens = TokenState {
        access_token: "b".into(),
        refresh_token: Some("new".into()),
        expires_at: None,
    };
    assert!(update_store_doc(&mut store, &EntryLocation::TopLevel, &tokens));
    assert_eq!(store.get("refresh").unwrap().as_str().unwrap(), "new");
    assert!(store.get("refresh_token").is_none());
}

#[test]
fn update_store_missing_entry_fails() {
    let mut store = doc("{}");
    let tokens =
        TokenState { access_token: "a".into(), refresh_token: None, expires_at: None };
    assert!(!update_store_doc(&mut store, &EntryLocation::Keyed("gone".into()), &tokens));
}

#[test]
fn persist_tokens_roundtrip_via_file() {
    let location = EntryLocation::Keyed(KEY.into());
    let tokens = TokenState {
        access_token: "persisted-access".into(),
        refresh_token: Some("persisted-refresh".into()),
        expires_at: None,
    };
    let written = persist_tokens(CURRENT, &location, &tokens).unwrap();

    let reparsed = load_store("auth.json", &written).unwrap();
    assert_eq!(reparsed.tokens.access_token, "persisted-access");
    assert_eq!(reparsed.tokens.refresh_token.as_deref(), Some("persisted-refresh"));
}

#[test]
fn a_store_that_cannot_be_read_names_its_path() {
    match load_store("/x/auth.json", "no json") {
        Err(ApiError::Auth(why)) => assert!(why.contains("/x/auth.json"), "{why}"),
        other => panic!("{other:?}"),
    }
    match unreadable_store("/x/auth.json", "gone") {
        ApiError::Auth(why) => {
            assert!(why.contains("/x/auth.json") && why.contains("gone"), "{why}")
        }
        other => panic!("{other:?}"),
    }
}

// --- the session ---

fn token(step: BearerStep) -> Option<String> {
    match step {
        BearerStep::Use(t) => Some(t),
        _ => None,
    }
}

#[test]
fn a_session_refreshes_and_takes_over_tokens() {
    let mut auth = GrokCliAuth::load("/x/auth.json".to_string(), CURRENT).unwrap();
    let expiry = parse_iso8601_utc("2026-07-12T15:19:19.025Z").unwrap();
    assert_eq!(token(auth.bearer(expiry - 600_000)).as_deref(), Some("access-1"));
    assert!(matches!(auth.bearer(expiry), BearerStep::ReadStore));

    let BearerStep::Refresh(request) = auth.reread(None, expiry) else { panic!("no refresh") };
    assert_eq!(request.token_url, "https://auth.x.ai/oauth2/token");
    assert_eq!(request.client_id, "b1a00492-073a-47ea-816f-4c329264a828");
    assert_eq!(request.refresh_token, "refresh-1");

    let new = RefreshedTokens {
        access_token: "access-2".into(),
        refresh_token: None,
        expires_in: Some(60 * 60),
    };
    let step = auth.refreshed(Ok(new), expiry);
    assert!(matches!(step, BearerStep::WriteBack(t) if t == "access-2"));
    assert_eq!(token(auth.bearer(expiry)).as_deref(), Some("access-2"));
    assert_eq!(auth.state().tokens.refresh_token.as_deref(), Some("refresh-1"));
    let written = auth.write_back(CURRENT).unwrap();
    let reread = load_store("/x/auth.json", &written).unwrap();
    assert_eq!(reread.tokens.access_token, "access-2");
    assert_eq!(reread.tokens.expires_at, Some(expiry + 60 * 60 * 1000));
}

#[test]
fn a_refused_refresh_tells_what_to_do() {
    let mut auth = GrokCliAuth::load("/x/auth.json".to_string(), CURRENT).unwrap();
    match auth.refreshed(Err(ApiError::Auth("HTTP 400".into())), 0) {
        BearerStep::Failed(ApiError::Auth(why)) => {
            assert!(why.starts_with("Grok sign-in expired (HTTP 400). "), "{why}")
        }
        other => panic!("{other:?}"),
    }
    let step = auth.refreshed(Err(ApiError::Cancelled), 0);
    assert!(matches!(step, BearerStep::Failed(ApiError::Cancelled)));
    let bare = CURRENT.replace("refresh_token", "other");
    let mut auth = GrokCliAuth::load("/x/auth.json".to_string(), &bare).unwrap();
    match auth.reread(Some("no json"), u64::MAX) {
        BearerStep::Failed(ApiError::Auth(why)) => {
            assert!(why.contains("there is no refresh token"), "{why}")
        }
        other => panic!("{other:?}"),
    }
}

#[test]
fn a_session_adopts_what_another_program_stored() {
    let mut auth = GrokCliAuth::load("/x/auth.json".to_string(), CURRENT).unwrap();
    let expiry = parse_iso8601_utc("2026-07-12T15:19:19.025Z").unwrap();
    assert!(matches!(auth.reread(Some(CURRENT), expiry), BearerStep::Refresh(_)));
    let fresh = CURRENT.replace("2026-07-12", "2027-07-12").replace("access-1", "access-9");
    assert_eq!(token(auth.reread(Some(&fresh), expiry)).as_deref(), Some("access-9"));
    assert_eq!(token(auth.bearer(expiry)).as_deref(), Some("access-9"));
}

#[test]
fn a_provider_never_describes_its_token() {
    assert_eq!(TokenProvider::Static(Some("secret".to_string())).describe(), "static api_key");
    assert_eq!(TokenProvider::Static(None).describe(), "none");
    let auth = GrokCliAuth::load("/x/auth.json".to_string(), CURRENT).unwrap();
    assert_eq!(TokenProvider::GrokCli(auth).describe(), "grok-cli oauth (/x/auth.json)");
    assert_eq!(
        TokenProvider::Static(Some("k".to_string())).bearer(0),
        Some(Some("k".to_string()))
    );
}

#[test]
fn timestamps_have_fields_of_fixed_width() {
    assert!(parse_iso8601_utc("2026-07-12T15:19:19Z").is_some());
    for s in [
        "2026-7-12T15:19:19Z",
        "2026-07-2T15:19:19Z",
        "02026-07-12T15:19:19Z",
        "+026-07-12T15:19:19Z",
        "2026-+7-12T15:19:19Z",
        "2026-07-12T5:19:19Z",
        "2026-07-12T15:019:19Z",
        "2026-07-12T15:19:+9Z",
        "2026-07-12T15:19:19.+1Z",
        "10000-01-01T00:00:00Z",
    ] {
        assert_eq!(parse_iso8601_utc(s), None, "{s}");
    }
    assert_eq!(parse_iso8601_utc("9999-12-31T23:59:59.999Z"), Some(YEAR_10000_MS - 1));
    assert_eq!(parse_iso8601_utc(&format_utc(YEAR_10000_MS)), None);
}
