use clip_llm::config::candidate_path;
use clip_llm::config::env_config_path;
use clip_llm::config::error_location;
use clip_llm::config::line_col_at;
use clip_llm::config::load_or_default;
use clip_llm::config::refuse_file;
use clip_llm::config::resolve_path;
use clip_llm::config::sanitize_generation;
use clip_llm::config::Config;
use clip_llm::config::FileMeta;
use clip_llm::config::FileText;
use clip_llm::config::LoadOutcome;
use clip_llm::config::ModelConfig;
use clip_llm::config::MAX_CONFIG_BYTES;
use clip_llm::mode::SECONDARY_LANG;
use clip_llm::prompt::collapse_spaces;
use clip_llm::prompt::substitute;
use clip_llm::prompt::DEFAULT_REPHRASE_BASE;
use clip_llm::prompt::DEFAULT_REPHRASE_STYLE_CORRECT;
use clip_llm::prompt::DEFAULT_SUMMARIZE_PROMPT;
use clip_llm::prompt::DEFAULT_TRANSLATE_PROMPT;
use clip_llm::starter::starter_template;
use clip_llm::ProcessMode;
use clip_llm::RephraseLength;
use clip_llm::RephraseParams;
use clip_llm::RephraseStyle;
use clip_llm::ThinkingMode;

fn text_at(t: &toml::Table, key: &str) -> Option<String> {
    t.get(key).and_then(|v| v.as_str()).map(str::to_string)
}

fn flag_at(t: &toml::Table, key: &str) -> Option<bool> {
    t.get(key).and_then(|v| v.as_bool())
}

fn number_at(t: &toml::Table, key: &str) -> Option<u64> {
    t.get(key).and_then(|v| v.as_integer()).map(|n| n as u64)
}

fn section(t: &toml::Table, key: &str) -> toml::Table {
    t.get(key).and_then(|v| v.as_table()).cloned().unwrap_or_default()
}

fn pairs(t: &toml::Table) -> Vec<(String, String)> {
    t.iter().filter_map(|(k, v)| v.as_str().map(|s| (k.clone(), s.to_string()))).collect()
}

/// The configuration in a TOML text.
fn config_of(text: &str) -> Config {
    let t = text.parse::<toml::Table>().unwrap();
    let mut c = Config::default();
    let api = section(&t, "api");
    c.api.provider = text_at(&api, "provider");
    c.api.endpoint = text_at(&api, "endpoint");
    c.api.model = text_at(&api, "model");
    c.api.api_key = text_at(&api, "api_key");
    c.api.auth_file = text_at(&api, "auth_file");
    c.api.thinking_control = text_at(&api, "thinking_control");
    c.api.streaming = flag_at(&api, "streaming");
    c.api.headers = pairs(&section(&api, "headers"));
    if let Some(models) = t.get("models").and_then(|v| v.as_array()) {
        for m in models.iter().filter_map(|m| m.as_table()) {
            c.models.push(ModelConfig {
                name: text_at(m, "name"),
                provider: text_at(m, "provider"),
                endpoint: text_at(m, "endpoint"),
                model: text_at(m, "model"),
                api_key: text_at(m, "api_key"),
                auth_file: text_at(m, "auth_file"),
                headers: pairs(&section(m, "headers")),
                max_tokens: number_at(m, "max_tokens").map(|n| n as u32),
                token_budget: number_at(m, "token_budget").map(|n| n as u32),
                thinking_control: text_at(m, "thinking_control"),
            });
        }
    }
    let generation = section(&t, "generation");
    c.generation.temperature = generation
        .get("temperature")
        .and_then(|v| v.as_float())
        .and_then(serde_json::Number::from_f64);
    c.generation.max_tokens = number_at(&generation, "max_tokens").map(|n| n as u32);
    c.generation.token_budget = number_at(&generation, "token_budget").map(|n| n as u32);
    c.generation.request_timeout_secs = number_at(&generation, "request_timeout_secs");
    c.generation.initial_response_timeout_secs =
        number_at(&generation, "initial_response_timeout_secs");
    c.hotkey.double_tap_timeout_ms = number_at(&section(&t, "hotkey"), "double_tap_timeout_ms");
    let ui = section(&t, "ui");
    c.ui.single_tap_pinned = flag_at(&ui, "single_tap_pinned");
    c.ui.double_tap_pinned = flag_at(&ui, "double_tap_pinned");
    c.ui.default_model = text_at(&ui, "default_model");
    c.ui.tabs = ui
        .get("tabs")
        .and_then(|v| v.as_array())
        .map(|v| v.iter().filter_map(|s| s.as_str().map(str::to_string)).collect());
    let languages = section(&t, "languages");
    if let Some(s) = text_at(&languages, "primary") {
        c.languages.primary = s;
    }
    if let Some(s) = text_at(&languages, "secondary") {
        c.languages.secondary = s;
    }
    let translate = section(&t, "translate");
    c.translate.prompt = text_at(&translate, "prompt");
    c.translate.thinking = text_at(&translate, "thinking");
    let rephrase = section(&t, "rephrase");
    c.rephrase.base = text_at(&rephrase, "base");
    c.rephrase.thinking = text_at(&rephrase, "thinking");
    let style = section(&rephrase, "style");
    c.rephrase.style.correct = text_at(&style, "correct");
    c.rephrase.style.business = text_at(&style, "business");
    let length = section(&rephrase, "length");
    c.rephrase.length.terse = text_at(&length, "terse");
    c.rephrase.length.same = text_at(&length, "same");
    let summarize = section(&t, "summarize");
    c.summarize.prompt = text_at(&summarize, "prompt");
    c.summarize.image_prompt = text_at(&summarize, "image_prompt");
    c.summarize.thinking = text_at(&summarize, "thinking");
    c.prompt.preamble = text_at(&section(&t, "prompt"), "preamble");
    c
}

/// Reconstructs the expected prompt from config accessors — an independent
/// path used to validate `ProcessMode::system_prompt`.
fn assemble(config: &Config, mode: ProcessMode, params: RephraseParams, image_only: bool) -> String {
    let primary = config.primary_lang();
    let secondary = config.secondary_lang();
    let mode_prompt = match mode {
        ProcessMode::Translate => substitute(config.translate_prompt(), primary, secondary),
        ProcessMode::Rephrase => config.rephrase_prompt(params.style, params.length),
        ProcessMode::Summarize if image_only => {
            substitute(config.summarize_image_prompt(), primary, secondary)
        }
        ProcessMode::Summarize => substitute(config.summarize_prompt(), primary, secondary),
    };
    match config.prompt_preamble() {
        Some(preamble) => format!("{}\n\n{mode_prompt}", substitute(preamble, primary, secondary)),
        None => mode_prompt,
    }
}

/// The default-config assembly must equal `ProcessMode::system_prompt` for
/// every mode/param/image combination. This pins the `DEFAULT_*` constants to
/// the established behavior across all rephrase combos plus the other modes.
#[test]
fn defaults_match_system_prompt() {
    let config = Config::default();
    for image_only in [false, true] {
        assert_eq!(
            assemble(&config, ProcessMode::Translate, RephraseParams::default(), image_only),
            ProcessMode::Translate.system_prompt(&config, RephraseParams::default(), image_only),
        );
        assert_eq!(
            assemble(&config, ProcessMode::Summarize, RephraseParams::default(), image_only),
            ProcessMode::Summarize.system_prompt(&config, RephraseParams::default(), image_only),
        );
    }
    for style in RephraseStyle::ALL {
        for length in RephraseLength::ALL {
            let params = RephraseParams { style, length };
            assert_eq!(
                assemble(&config, ProcessMode::Rephrase, params, false),
                ProcessMode::Rephrase.system_prompt(&config, params, false),
                "mismatch for {style:?}/{length:?}",
            );
        }
    }
}

#[test]
fn substitute_replaces_known_and_keeps_unknown() {
    assert_eq!(
        substitute("{primary_lang} to {secondary_lang}", "Korean", "English"),
        "Korean to English",
    );
    assert_eq!(substitute("{unknown} stays", "Korean", "English"), "{unknown} stays");
    assert_eq!(substitute("", "Korean", "English"), "");
}

#[test]
fn substitute_does_not_reexpand_injected_tokens() {
    // A primary value that itself contains `{secondary_lang}` must be emitted
    // verbatim, not expanded a second time.
    assert_eq!(
        substitute("{primary_lang}->{secondary_lang}", "{secondary_lang}", "English"),
        "{secondary_lang}->English",
    );
}

#[test]
fn rephrase_prompt_does_not_reexpand_style_into_length() {
    // A style override containing `{length}` must not pull in the length
    // modifier a second time.
    let config = config_of("[rephrase]\nbase = \"X {style}{length} Y\"\n[rephrase.style]\ncorrect = \"S{length}\"\n[rephrase.length]\nsame = \"L\"\n");
    assert_eq!(
        config.rephrase_prompt(RephraseStyle::Correct, RephraseLength::Same),
        "X S{length}L Y",
    );
}

#[test]
fn rephrase_length_same_is_empty() {
    let config = Config::default();
    assert_eq!(config.rephrase_length(RephraseLength::Same), "");
}

#[test]
fn collapse_spaces_squeezes_runs_and_trims() {
    assert_eq!(collapse_spaces("a  b"), "a b");
    assert_eq!(collapse_spaces("  a   b  "), "a b");
    assert_eq!(collapse_spaces("a b"), "a b");
    // Newlines are preserved (only spaces collapse).
    assert_eq!(collapse_spaces("a\n\nb"), "a\n\nb");
}

#[test]
fn rephrase_prompt_single_spaced_for_all_combos() {
    // Explicit `{style} {length}` spacing must not leave a doubled space for
    // any combination, including the empty `Same` length.
    let config = Config::default();
    for style in RephraseStyle::ALL {
        for length in RephraseLength::ALL {
            let prompt = config.rephrase_prompt(style, length);
            assert!(
                !prompt.contains("  "),
                "double space for {style:?}/{length:?}: {prompt:?}"
            );
        }
    }
}

#[test]
fn translate_default_has_language_placeholders() {
    assert!(DEFAULT_TRANSLATE_PROMPT.contains("{primary_lang}"));
    assert!(DEFAULT_TRANSLATE_PROMPT.contains("{secondary_lang}"));
}

#[test]
fn preamble_prepended_to_every_mode_by_default() {
    let config = Config::default();
    for mode in [ProcessMode::Translate, ProcessMode::Rephrase, ProcessMode::Summarize] {
        let p = assemble(&config, mode, RephraseParams::default(), false);
        assert!(
            p.starts_with("The user message contains the clipboard content"),
            "{mode:?} missing preamble"
        );
    }
}

#[test]
fn empty_preamble_disables_prefix() {
    let config = config_of("[prompt]\npreamble = \"\"");
    let p = assemble(&config, ProcessMode::Translate, RephraseParams::default(), false);
    assert!(p.starts_with("You are a translator"));
}

#[test]
fn custom_preamble_is_prepended() {
    let config = config_of("[prompt]\npreamble = \"GUARD-XYZ.\"");
    let p = assemble(&config, ProcessMode::Summarize, RephraseParams::default(), false);
    assert!(p.starts_with("GUARD-XYZ.\n\n"));
}

#[test]
fn starter_template_parses_as_toml() {
    // The template must be valid TOML: the three required keys are uncommented
    // (empty), every other key is a comment that must not leak into the parse.
    let t = starter_template();
    let cfg = config_of(&t);
    // Required keys parse as empty strings; client-side require_setting treats
    // empty as unset, producing the startup error until the user fills them.
    assert_eq!(cfg.api_endpoint(), Some(""));
    assert_eq!(cfg.api_model(), Some(""));
    assert_eq!(cfg.api_key(), Some(""));
    // Commented optional keys stay at their built-in defaults (not parsed).
    assert!(cfg.api.streaming.is_none());
    assert!(cfg.prompt.preamble.is_none());
}

#[test]
fn starter_template_covers_all_sections_with_real_defaults() {
    let t = starter_template();
    for section in [
        "[api]", "[api.headers]", "[generation]", "[telemetry]", "[hotkey]",
        "[ui]", "[languages]", "[prompt]", "[translate]", "[rephrase]",
        "[rephrase.style]", "[rephrase.length]", "[summarize]",
    ] {
        assert!(t.contains(section), "missing section {section}");
    }
    // Required keys are emitted UNCOMMENTED so they must be filled in.
    assert!(t.contains("\nendpoint = \"\""));
    assert!(t.contains("\nmodel    = \"\""));
    assert!(t.contains("\napi_key  = \"\""));
    // Commented values are the ACTUAL built-in defaults (sampled).
    assert!(t.contains("max_tokens = 16384"));
    assert!(t.contains(DEFAULT_REPHRASE_STYLE_CORRECT));
    assert!(t.contains("The user message contains the clipboard content"));
}

#[test]
fn translate_override_leaves_other_modes_default() {
    let config = config_of("[translate]\nprompt = \"custom {primary_lang}\"\n");
    assert_eq!(config.translate_prompt(), "custom {primary_lang}");
    assert_eq!(config.summarize_prompt(), DEFAULT_SUMMARIZE_PROMPT);
    assert_eq!(config.rephrase_base(), DEFAULT_REPHRASE_BASE);
}

#[test]
fn languages_override_applies_to_translate_only() {
    let config = config_of("[languages]\nprimary = \"Japanese\"\n");
    // Missing `secondary` falls back to the built-in default.
    assert_eq!(config.primary_lang(), "Japanese");
    assert_eq!(config.secondary_lang(), SECONDARY_LANG);
    let translated = substitute(config.translate_prompt(), config.primary_lang(), config.secondary_lang());
    assert!(translated.contains("Japanese"));
    // Rephrase carries no language placeholder, so it is unaffected.
    assert!(!config.rephrase_base().contains("{primary_lang}"));
}

#[test]
fn partial_style_and_length_override() {
    let config = config_of("[rephrase.style]\nbusiness = \"BIZ\"\n[rephrase.length]\nterse = \"LEN\"\n");
    assert_eq!(config.rephrase_style(RephraseStyle::Business), "BIZ");
    assert_eq!(config.rephrase_style(RephraseStyle::Correct), DEFAULT_REPHRASE_STYLE_CORRECT);
    assert_eq!(config.rephrase_length(RephraseLength::Terse), "LEN");
    assert_eq!(config.rephrase_length(RephraseLength::Same), "");
}

#[test]
fn api_section_parses_all_fields() {
    let config = config_of("[api]\n\
         endpoint = \"http://host:9000/v1\"\n\
         model = \"my-model\"\n\
         api_key = \"secret\"\n\
         streaming = false\n\
         [api.headers]\n\
         X-Dep-Ticket = \"abc\"\n\
         User-Id = \"u1\"\n");
    assert_eq!(config.api_endpoint(), Some("http://host:9000/v1"));
    assert_eq!(config.api_model(), Some("my-model"));
    assert_eq!(config.api_key(), Some("secret"));
    assert_eq!(config.api_streaming(), Some(false));
    assert_eq!(header(&config, "X-Dep-Ticket"), Some("abc"));
    assert_eq!(header(&config, "User-Id"), Some("u1"));
}

#[test]
fn generation_section_parses() {
    let config = config_of("[generation]\ntemperature = 0.7\nmax_tokens = 2048\nrequest_timeout_secs = 60\ninitial_response_timeout_secs = 5\n");
    assert_eq!(config.generation_temperature().and_then(|n| n.as_f64()), Some(0.7));
    assert_eq!(config.generation_max_tokens(), Some(2048));
    assert_eq!(config.generation_request_timeout_secs(), Some(60));
    assert_eq!(config.generation_initial_response_timeout_secs(), Some(5));
}

#[test]
fn sanitize_generation_rejects_meaningless_zeros() {
    let config = config_of("[generation]\n\
         temperature = 0.0\n\
         max_tokens = 0\n\
         token_budget = 0\n\
         request_timeout_secs = 0\n\
         initial_response_timeout_secs = 0\n");
    let sanitized = sanitize_generation(config.generation);
    // Zero timeouts/token caps are meaningless (an instant timeout, or no
    // room to generate/receive a response) — cleared so the built-in
    // default applies.
    assert_eq!(sanitized.max_tokens, None);
    assert_eq!(sanitized.token_budget, None);
    assert_eq!(sanitized.request_timeout_secs, None);
    assert_eq!(sanitized.initial_response_timeout_secs, None);
    // temperature = 0.0 is a legitimate (fully deterministic) value and
    // must pass through untouched.
    assert_eq!(sanitized.temperature.and_then(|n| n.as_f64()), Some(0.0));
}

#[test]
fn sanitize_generation_leaves_nonzero_values_untouched() {
    let config = config_of("[generation]\nmax_tokens = 2048\ntoken_budget = 6000\n\
         request_timeout_secs = 30\ninitial_response_timeout_secs = 10\n");
    let sanitized = sanitize_generation(config.generation);
    assert_eq!(sanitized.max_tokens, Some(2048));
    assert_eq!(sanitized.token_budget, Some(6000));
    assert_eq!(sanitized.request_timeout_secs, Some(30));
    assert_eq!(sanitized.initial_response_timeout_secs, Some(10));
}

#[test]
fn hotkey_section_parses() {
    let config = config_of("[hotkey]\ndouble_tap_timeout_ms = 300\n");
    assert_eq!(config.hotkey_double_tap_timeout_ms(), Some(300));
}

#[test]
fn hotkey_default_is_absent() {
    let config = Config::default();
    assert_eq!(config.hotkey_double_tap_timeout_ms(), None);
}

#[test]
fn ui_section_parses() {
    let config = config_of("[ui]\nsingle_tap_pinned = true\ndouble_tap_pinned = true\n");
    assert!(config.ui_single_tap_pinned());
    assert!(config.ui_double_tap_pinned());
}

#[test]
fn ui_defaults_unpinned() {
    let config = Config::default();
    assert!(!config.ui_single_tap_pinned());
    assert!(!config.ui_double_tap_pinned());
}

#[test]
fn generation_defaults_are_absent() {
    let config = Config::default();
    assert_eq!(config.generation_temperature(), None);
    assert_eq!(config.generation_max_tokens(), None);
    assert_eq!(config.generation_request_timeout_secs(), None);
    assert_eq!(config.generation_initial_response_timeout_secs(), None);
}

#[test]
fn api_defaults_are_absent() {
    // No [api] section: every accessor reports "unset" so the consumer can
    // fall back to env vars / built-in defaults.
    let config = Config::default();
    assert_eq!(config.api_endpoint(), None);
    assert_eq!(config.api_model(), None);
    assert_eq!(config.api_key(), None);
    assert_eq!(config.api_streaming(), None);
    assert!(config.api_headers().is_empty());
    // A prompt-only config also leaves [api] unset.
    let prompt_only = config_of("[translate]\nprompt = \"x\"\n");
    assert_eq!(prompt_only.api_endpoint(), None);
}

#[test]
fn empty_and_unknown_keys_tolerated() {
    let from_empty = config_of("");
    assert_eq!(from_empty.translate_prompt(), DEFAULT_TRANSLATE_PROMPT);
    // Unknown keys are ignored (no deny_unknown_fields).
    let with_unknown = config_of("future_key = 42\n[translate]\nprompt = \"x\"\n");
    assert_eq!(with_unknown.translate_prompt(), "x");
}

#[test]
fn invalid_toml_is_rejected_by_parser() {
    // load_or_default() turns this into a defaults fallback; here we assert the
    // parser itself errors so that fallback path is exercised.
    assert!("not = = valid".parse::<toml::Table>().is_err());
    let found = Some(("c.toml".to_string(), Some(FileMeta { is_file: true, len: 13 })));
    let (config, outcome) = load_or_default(found, FileText::Invalid);
    assert_eq!(config.translate_prompt(), DEFAULT_TRANSLATE_PROMPT);
    assert!(matches!(outcome, LoadOutcome::Failed { .. }));
}

#[test]
fn line_col_at_locates_offsets() {
    let text = "abc\ndef\nghi";
    assert_eq!(line_col_at(text, 0), (1, 1));
    assert_eq!(line_col_at(text, 2), (1, 3));
    // Offset 4 is right after the first '\n', i.e. the start of line 2.
    assert_eq!(line_col_at(text, 4), (2, 1));
    assert_eq!(line_col_at(text, 6), (2, 3));
    // An offset past the end of the string does not panic; it reports the
    // position at the end of the last line.
    assert_eq!(line_col_at(text, 1000), (3, 4));
}

#[test]
fn toml_parse_error_reports_message_and_span_without_snippet() {
    // A malformed value on line 2 — the error's span should point there, and
    // `message()` alone (as opposed to the error's `Display` impl) must not
    // echo the offending source line.
    let contents = "[api]\nendpoint = not-a-string\n";
    let err = contents.parse::<toml::Table>().unwrap_err();
    let span = err.span().expect("parse error carries a span");
    let (line, _column) = line_col_at(contents, span.start);
    assert_eq!(line, 2);
    assert!(
        !err.message().contains("not-a-string"),
        "message() unexpectedly echoed source content: {}",
        err.message()
    );
}

fn header<'a>(config: &'a Config, name: &str) -> Option<&'a str> {
    config.api_headers().iter().find(|(k, _)| k == name).map(|(_, v)| v.as_str())
}

// --- where the file is ---

#[test]
fn the_environment_names_the_file_first() {
    let some = |s: &str| Some(s.to_string());
    assert_eq!(env_config_path(some("")), None);
    assert_eq!(env_config_path(some("/c.toml")), some("/c.toml"));
    assert_eq!(candidate_path(some("/c.toml"), some("/p/config.toml")), some("/c.toml"));
    assert_eq!(candidate_path(None, some("/p/config.toml")), some("/p/config.toml"));
    assert_eq!(resolve_path(None, some("/p/config.toml"), true), some("/p/config.toml"));
    assert_eq!(resolve_path(None, some("/p/config.toml"), false), None);
    assert_eq!(resolve_path(some("/c.toml"), None, false), some("/c.toml"));
}

#[test]
fn a_file_that_cannot_be_used_leaves_the_defaults() {
    assert!(refuse_file(Some(FileMeta { is_file: true, len: MAX_CONFIG_BYTES })).is_none());
    assert!(refuse_file(Some(FileMeta { is_file: true, len: MAX_CONFIG_BYTES + 1 })).is_some());
    assert!(refuse_file(Some(FileMeta { is_file: false, len: 1 })).is_some());
    let (_, outcome) = load_or_default(None, FileText::Unreadable);
    assert_eq!(outcome, LoadOutcome::NoFile);
    let found = || Some(("c.toml".to_string(), Some(FileMeta { is_file: true, len: 10 })));
    let (c, outcome) =
        load_or_default(found(), FileText::Parsed(config_of("[translate]\nprompt = \"x\"")));
    assert_eq!(outcome, LoadOutcome::Loaded("c.toml".to_string()));
    assert_eq!(c.translate_prompt(), "x");
    let (_, outcome) = load_or_default(found(), FileText::Unreadable);
    assert!(matches!(outcome, LoadOutcome::Failed { path, .. } if path == "c.toml"));
}

#[test]
fn an_error_is_located() {
    assert_eq!(error_location("a\nbc", Some(3)), " at line 2, column 2");
    assert_eq!(error_location("a", None), "");
}

// --- modes and models ---

#[test]
fn every_mode_has_a_tab() {
    let c = config_of("[ui]\ntabs = [\"SUMMARIZE\", \"nonsense\", \"summarize\"]\n");
    assert_eq!(
        c.ui_tab_order(),
        vec![ProcessMode::Summarize, ProcessMode::Translate, ProcessMode::Rephrase]
    );
    assert_eq!(Config::default().ui_tab_order(), ProcessMode::ALL.to_vec());
}

#[test]
fn thinking_is_set_by_mode() {
    let c = config_of("[translate]\nthinking = \" think \"\n[summarize]\nthinking = \"x\"\n");
    assert_eq!(c.mode_default_thinking(ProcessMode::Translate), Some(ThinkingMode::Think));
    assert_eq!(c.mode_default_thinking(ProcessMode::Summarize), None);
    assert_eq!(c.mode_default_thinking(ProcessMode::Rephrase), None);
}

#[test]
fn the_api_profile_comes_first() {
    let c = config_of(
        "[api]\nmodel = \"m\"\n[[models]]\nname = \"a\"\nmodel = \"x\"\n[[models]]\nmodel = \"y\"\n",
    );
    let names: Vec<String> = c.model_specs().unwrap().into_iter().map(|s| s.name).collect();
    assert_eq!(names, ["m", "a", "y"]);
    let c = config_of("[[models]]\nname = \"a\"\nmodel = \"x\"\n");
    let names: Vec<String> = c.model_specs().unwrap().into_iter().map(|s| s.name).collect();
    assert_eq!(names, ["a"]);
    assert!(config_of("[[models]]\nendpoint = \"x\"\n").model_specs().is_err());
}

#[test]
fn the_starter_file_sets_the_required_keys_alone() {
    let text = starter_template();
    let set: Vec<&str> =
        text.lines().filter(|l| !l.is_empty() && !l.starts_with('#')).collect();
    assert_eq!(set.len(), 4);
    assert_eq!(set[0], "[api]");
    for (line, key) in set[1..].iter().zip(["endpoint", "model", "api_key"]) {
        assert!(line.starts_with(key) && line.contains("= \"\""), "{line}");
    }
}
