use clip_llm::config::Config;
use clip_llm::config::ModelConfig;
use clip_llm::config::ModelSpec;
use clip_llm::hotkey::DEFAULT_DOUBLE_TAP_TIMEOUT;
use clip_llm::hotkey::MILLISECOND;
use clip_llm::settings::apply_patch;
use clip_llm::settings::mode_key;
use clip_llm::settings::patch_text;
use clip_llm::settings::ProfileForm;
use clip_llm::settings::Provider;
use clip_llm::settings::SettingsForm;
use clip_llm::settings::SettingsPatch;
use clip_llm::settings::COMMON_LANGUAGES;
use clip_llm::settings::DOUBLE_TAP_MS_MAX;
use clip_llm::settings::THINKING_CONTROLS;
use clip_llm::ProcessMode;
use clip_llm::ThinkingMode;

fn text_at(t: &toml::Table, key: &str) -> Option<String> {
    t.get(key).and_then(|v| v.as_str()).map(str::to_string)
}

fn flag_at(t: &toml::Table, key: &str) -> Option<bool> {
    t.get(key).and_then(|v| v.as_bool())
}

fn number_at(t: &toml::Table, key: &str) -> Option<u64> {
    t.get(key).and_then(|v| v.as_integer()).map(|n| n as u64)
}

fn section(t: &toml::Table, key: &str) -> toml::Table {
    t.get(key).and_then(|v| v.as_table()).cloned().unwrap_or_default()
}

fn pairs(t: &toml::Table) -> Vec<(String, String)> {
    t.iter().filter_map(|(k, v)| v.as_str().map(|s| (k.clone(), s.to_string()))).collect()
}

/// The configuration in a TOML text.
fn config_of(text: &str) -> Config {
    let t = text.parse::<toml::Table>().unwrap();
    let mut c = Config::default();
    let api = section(&t, "api");
    c.api.provider = text_at(&api, "provider");
    c.api.endpoint = text_at(&api, "endpoint");
    c.api.model = text_at(&api, "model");
    c.api.api_key = text_at(&api, "api_key");
    c.api.auth_file = text_at(&api, "auth_file");
    c.api.thinking_control = text_at(&api, "thinking_control");
    c.api.streaming = flag_at(&api, "streaming");
    c.api.headers = pairs(&section(&api, "headers"));
    if let Some(models) = t.get("models").and_then(|v| v.as_array()) {
        for m in models.iter().filter_map(|m| m.as_table()) {
            c.models.push(ModelConfig {
                name: text_at(m, "name"),
                provider: text_at(m, "provider"),
                endpoint: text_at(m, "endpoint"),
                model: text_at(m, "model"),
                api_key: text_at(m, "api_key"),
                auth_file: text_at(m, "auth_file"),
                headers: pairs(&section(m, "headers")),
                max_tokens: number_at(m, "max_tokens").map(|n| n as u32),
                token_budget: number_at(m, "token_budget").map(|n| n as u32),
                thinking_control: text_at(m, "thinking_control"),
            });
        }
    }
    let generation = section(&t, "generation");
    c.generation.temperature = generation
        .get("temperature")
        .and_then(|v| v.as_float())
        .and_then(serde_json::Number::from_f64);
    c.generation.max_tokens = number_at(&generation, "max_tokens").map(|n| n as u32);
    c.generation.token_budget = number_at(&generation, "token_budget").map(|n| n as u32);
    c.generation.request_timeout_secs = number_at(&generation, "request_timeout_secs");
    c.generation.initial_response_timeout_secs =
        number_at(&generation, "initial_response_timeout_secs");
    c.hotkey.double_tap_timeout_ms = number_at(&section(&t, "hotkey"), "double_tap_timeout_ms");
    let ui = section(&t, "ui");
    c.ui.single_tap_pinned = flag_at(&ui, "single_tap_pinned");
    c.ui.double_tap_pinned = flag_at(&ui, "double_tap_pinned");
    c.ui.default_model = text_at(&ui, "default_model");
    c.ui.tabs = ui
        .get("tabs")
        .and_then(|v| v.as_array())
        .map(|v| v.iter().filter_map(|s| s.as_str().map(str::to_string)).collect());
    let languages = section(&t, "languages");
    if let Some(s) = text_at(&languages, "primary") {
        c.languages.primary = s;
    }
    if let Some(s) = text_at(&languages, "secondary") {
        c.languages.secondary = s;
    }
    let translate = section(&t, "translate");
    c.translate.prompt = text_at(&translate, "prompt");
    c.translate.thinking = text_at(&translate, "thinking");
    let rephrase = section(&t, "rephrase");
    c.rephrase.base = text_at(&rephrase, "base");
    c.rephrase.thinking = text_at(&rephrase, "thinking");
    let style = section(&rephrase, "style");
    c.rephrase.style.correct = text_at(&style, "correct");
    c.rephrase.style.business = text_at(&style, "business");
    let length = section(&rephrase, "length");
    c.rephrase.length.terse = text_at(&length, "terse");
    c.rephrase.length.same = text_at(&length, "same");
    let summarize = section(&t, "summarize");
    c.summarize.prompt = text_at(&summarize, "prompt");
    c.summarize.image_prompt = text_at(&summarize, "image_prompt");
    c.summarize.thinking = text_at(&summarize, "thinking");
    c.prompt.preamble = text_at(&section(&t, "prompt"), "preamble");
    c
}

fn sample_patch() -> SettingsPatch {
    SettingsPatch {
        primary: "German".into(),
        secondary: "English".into(),
        tabs: vec![
            ProcessMode::Summarize,
            ProcessMode::Translate,
            ProcessMode::Rephrase,
        ],
        double_tap_ms: 300,
        single_tap_pinned: true,
        double_tap_pinned: false,
        thinking: vec![
            (ProcessMode::Translate, Some(ThinkingMode::Think)),
            (ProcessMode::Rephrase, None),
            (ProcessMode::Summarize, None),
        ],
        default_model: Some("groq".into()),
        profiles: vec![],
    }
}

fn openai_profile(name: &str) -> ProfileForm {
    ProfileForm {
        name: name.into(),
        provider: Provider::OpenAi,
        endpoint: "https://api.groq.com/openai/v1".into(),
        model: "qwen/qwen3-32b".into(),
        api_key: "gsk".into(),
        auth_file: String::new(),
        max_tokens: "40960".into(),
        token_budget: "6000".into(),
        thinking_control: String::new(),
        from_api_section: false,
    }
}

const DOC: &str = r#"# top comment stays
[api]
model = "m" # keep me

[languages]
primary   = "Korean"   # trailing comment survives
secondary = "English"

[summarize]
prompt = "P"
thinking = "think"
"#;

#[test]
fn from_config_reads_live_values() {
    let cfg = config_of("[languages]\nprimary = \"Japanese\"\n[hotkey]\ndouble_tap_timeout_ms = 400\n[ui]\nsingle_tap_pinned = true\n[summarize]\nthinking = \"no_think\"\n");
    let form = SettingsForm::from_config(&cfg, None);
    assert_eq!(form.primary, "Japanese");
    assert_eq!(form.secondary, "English");
    assert_eq!(form.double_tap_ms, "400");
    assert!(form.single_tap_pinned);
    assert!(!form.double_tap_pinned);
    assert_eq!(form.default_model, 0);
    assert_eq!(form.thinking.len(), ProcessMode::ALL.len());
    assert!(form
        .thinking
        .contains(&(ProcessMode::Summarize, Some(ThinkingMode::NoThink))));
    assert!(form.thinking.contains(&(ProcessMode::Translate, None)));
    assert_eq!(form.error, None);
}

#[test]
fn from_config_default_double_tap_is_the_hotkey_default() {
    let form = SettingsForm::from_config(&Config::default(), None);
    assert_eq!(form.double_tap_ms, (DEFAULT_DOUBLE_TAP_TIMEOUT / MILLISECOND).to_string());
    assert_eq!(form.primary, "Korean");
}

#[test]
fn to_patch_puts_default_mode_first_and_keeps_the_rest_in_order() {
    let mut form = SettingsForm::from_config(&two_profiles(), Some("a"));
    form.default_mode = ProcessMode::Summarize;
    form.default_model = 1;
    let patch = form.to_patch().unwrap();
    assert_eq!(patch.tabs[0], ProcessMode::Summarize);
    assert_eq!(patch.tabs.len(), ProcessMode::ALL.len());
    let rest: Vec<_> = patch.tabs[1..].to_vec();
    assert_eq!(
        rest,
        vec![ProcessMode::Translate, ProcessMode::Rephrase]
    );
    assert_eq!(patch.default_model.as_deref(), Some("a"));
    assert_eq!(patch.double_tap_ms, DEFAULT_DOUBLE_TAP_TIMEOUT / MILLISECOND);
}

#[test]
fn to_patch_single_profile_leaves_default_model_alone() {
    let form = SettingsForm::from_config(&Config::default(), None);
    assert_eq!(form.profiles.len(), 1);
    assert_eq!(form.to_patch().unwrap().default_model, None);
}

#[test]
fn to_patch_validates_languages_and_timeout() {
    let mut form = SettingsForm::from_config(&Config::default(), None);
    form.primary = "  ".into();
    assert!(form.to_patch().unwrap_err().contains("language"));
    form.primary = "english".into();
    form.secondary = "English".into();
    assert!(form.to_patch().unwrap_err().contains("differ"));
    form.primary = "Korean".into();
    form.double_tap_ms = "abc".into();
    assert!(form.to_patch().unwrap_err().contains("100"));
    form.double_tap_ms = "50".into();
    assert!(form.to_patch().unwrap_err().contains("100"));
    form.double_tap_ms = " 250 ".into();
    assert_eq!(form.to_patch().unwrap().double_tap_ms, 250);
}

fn two_profiles() -> Config {
    config_of(
        "[api]\nprovider = \"grok-oauth\"\nmodel = \"grok-4.3\"\n[[models]]\nname = \"a\"\nendpoint = \"http://h/v1\"\nmodel = \"m\"\napi_key = \"k\"\n[[models]]\nname = \"b\"\nendpoint = \"http://h/v1\"\nmodel = \"m2\"\napi_key = \"k2\"\ntoken_budget = 6000\n",
    )
}

// --- profiles ---

#[test]
fn from_config_lists_every_profile_and_preselects_the_active_one() {
    let form = SettingsForm::from_config(&two_profiles(), Some("b"));
    assert_eq!(form.profile_names(), vec!["grok-4.3", "a", "b"]);
    assert_eq!(form.default_model, 2);
    assert!(form.profiles[0].from_api_section);
    assert_eq!(form.profiles[0].provider, Provider::GrokOauth);
    assert_eq!(form.profiles[0].model, "grok-4.3");
    assert_eq!(form.profiles[2].token_budget, "6000");
    assert_eq!(form.profiles[2].max_tokens, "");
    assert_eq!(form.profiles[2].api_key, "k2");
    assert_eq!(form.profiles[1].summary(), "openai \u{b7} m");
    assert_eq!(form.editing, None);
    // Unknown active name falls back to the first profile.
    assert_eq!(SettingsForm::from_config(&two_profiles(), Some("zzz")).default_model, 0);
}

#[test]
fn profile_to_spec_validates_per_provider() {
    let ok = openai_profile("groq").to_spec().unwrap();
    assert_eq!(ok.name, "groq");
    assert_eq!(ok.provider.as_deref(), Some("openai"));
    assert_eq!(ok.endpoint.as_deref(), Some("https://api.groq.com/openai/v1"));
    assert_eq!(ok.api_key.as_deref(), Some("gsk"));
    assert_eq!(ok.max_tokens, Some(40960));
    assert_eq!(ok.token_budget, Some(6000));
    assert!(!ok.from_api_section);

    let mut p = openai_profile("x");
    p.api_key = "  ".into();
    assert!(p.to_spec().unwrap_err().contains("API key"));
    let mut p = openai_profile("x");
    p.endpoint = String::new();
    assert!(p.to_spec().unwrap_err().contains("endpoint"));
    let mut p = openai_profile("x");
    p.model = String::new();
    assert!(p.to_spec().unwrap_err().contains("model"));
    let mut p = openai_profile("x");
    p.max_tokens = "lots".into();
    assert!(p.to_spec().unwrap_err().contains("max_tokens"));
    let mut p = openai_profile("  ");
    p.name = "  ".into();
    assert!(p.to_spec().unwrap_err().contains("name"));

    // Grok needs only a model; key/endpoint are dropped, auth_file kept.
    let mut g = openai_profile("grok");
    g.provider = Provider::GrokOauth;
    g.model = "grok-4.3".into();
    g.auth_file = "/x/auth.json".into();
    let spec = g.to_spec().unwrap();
    assert_eq!(spec.provider.as_deref(), Some("grok-oauth"));
    assert_eq!(spec.endpoint, None);
    assert_eq!(spec.api_key, None);
    assert_eq!(spec.auth_file.as_deref(), Some("/x/auth.json"));
}

#[test]
fn thinking_control_round_trips_through_form_and_file() {
    let mut p = openai_profile("g");
    p.thinking_control = "reasoning_effort".into();
    let spec = p.to_spec().unwrap();
    assert_eq!(spec.thinking_control.as_deref(), Some("reasoning_effort"));
    assert_eq!(ProfileForm::from_spec(&spec).thinking_control, "reasoning_effort");
    let mut auto = spec.clone();
    auto.thinking_control = Some("auto".into());
    assert_eq!(ProfileForm::from_spec(&auto).thinking_control, "", "auto shows as the empty default");

    let mut doc: toml_edit::DocumentMut = "[api]\nmodel = \"m\"\n".parse().unwrap();
    let mut patch = sample_patch();
    let mut api = openai_profile("api").to_spec().unwrap();
    api.from_api_section = true;
    api.thinking_control = Some("none".into());
    patch.profiles = vec![api, spec];
    apply_patch(&mut doc, &patch);
    let cfg = config_of(&doc.to_string());
    let specs = cfg.model_specs().unwrap();
    assert_eq!(specs[0].thinking_control.as_deref(), Some("none"));
    assert_eq!(specs[1].thinking_control.as_deref(), Some("reasoning_effort"));
}

#[test]
fn to_patch_carries_profiles_and_rejects_duplicates_or_none() {
    let mut form = SettingsForm::from_config(&two_profiles(), None);
    let patch = form.to_patch().unwrap();
    assert_eq!(patch.profiles.len(), 3);
    assert!(patch.profiles[0].from_api_section);
    assert_eq!(patch.profiles[2].name, "b");

    form.profiles[2].name = "a".into();
    assert!(form.to_patch().unwrap_err().contains("\"a\""));

    form.profiles.clear();
    assert!(form.to_patch().unwrap_err().contains("profile"));
}

#[test]
fn apply_patch_rewrites_profiles() {
    let mut doc: toml_edit::DocumentMut = r#"[api]
provider = "grok-oauth"   # keep this comment
model = "grok-4.3"
streaming = true

[[models]]
name = "old"
model = "gone"
"#
    .parse()
    .unwrap();
    let mut patch = sample_patch();
    let form = SettingsForm::from_config(&two_profiles(), None);
    let mut profiles: Vec<_> = form.profiles.iter().map(|p| p.to_spec().unwrap()).collect();
    profiles[0].model = Some("grok-4.5".into());
    profiles.pop(); // drop "b"
    patch.profiles = profiles;
    apply_patch(&mut doc, &patch);
    let out = doc.to_string();
    assert!(out.contains("# keep this comment"), "{out}");
    assert!(out.contains("streaming = true"), "{out}");
    assert!(!out.contains("gone"), "{out}");
    let cfg = config_of(&out);
    let specs = cfg.model_specs().unwrap();
    let names: Vec<_> = specs.iter().map(|s| s.name.as_str()).collect();
    assert_eq!(names, ["grok-4.5", "a"]);
    assert_eq!(specs[0].provider.as_deref(), Some("grok-oauth"));
    assert_eq!(specs[1].endpoint.as_deref(), Some("http://h/v1"));
    assert_eq!(specs[1].api_key.as_deref(), Some("k"));
}

#[test]
fn apply_patch_can_move_everything_out_of_api_section() {
    let mut doc: toml_edit::DocumentMut =
        "[api]\nendpoint = \"http://h/v1\"\nmodel = \"m\"\napi_key = \"k\"\nstreaming = false\n"
            .parse()
            .unwrap();
    let mut patch = sample_patch();
    patch.profiles = vec![openai_profile("only").to_spec().unwrap()];
    apply_patch(&mut doc, &patch);
    let cfg = config_of(&doc.to_string());
    assert_eq!(cfg.api_model(), None, "[api] profile removed");
    assert_eq!(cfg.api_streaming(), Some(false), "non-profile [api] keys survive");
    let names: Vec<_> = cfg.model_specs().unwrap().into_iter().map(|s| s.name).collect();
    assert_eq!(names, ["only"]);
}

#[test]
fn apply_patch_edits_in_place_and_preserves_everything_else() {
    let mut doc: toml_edit::DocumentMut = DOC.parse().unwrap();
    apply_patch(&mut doc, &sample_patch());
    let out = doc.to_string();
    assert!(out.contains("# top comment stays"), "{out}");
    assert!(out.contains("model = \"m\" # keep me"), "{out}");
    assert!(out.contains("primary   = \"German\"   # trailing comment survives"), "{out}");
    assert!(out.contains("prompt = \"P\""), "{out}");

    let cfg = config_of(&out);
    assert_eq!(cfg.primary_lang(), "German");
    assert_eq!(cfg.secondary_lang(), "English");
    assert_eq!(cfg.ui_tab_order()[0], ProcessMode::Summarize);
    assert_eq!(cfg.hotkey_double_tap_timeout_ms(), Some(300));
    assert!(cfg.ui_single_tap_pinned());
    assert!(!cfg.ui_double_tap_pinned());
    assert_eq!(cfg.ui_default_model(), Some("groq"));
    assert_eq!(cfg.mode_default_thinking(ProcessMode::Translate), Some(ThinkingMode::Think));
    assert_eq!(cfg.mode_default_thinking(ProcessMode::Summarize), None, "override removed");
    assert!(!out.contains("[rephrase]"), "no empty section for an untouched default: {out}");
}

#[test]
fn apply_patch_without_default_model_keeps_existing_key() {
    let mut doc: toml_edit::DocumentMut = "[ui]\ndefault_model = \"keep\"\n".parse().unwrap();
    let mut patch = sample_patch();
    patch.default_model = None;
    apply_patch(&mut doc, &patch);
    let cfg = config_of(&doc.to_string());
    assert_eq!(cfg.ui_default_model(), Some("keep"));
}

#[test]
fn save_to_rewrites_the_file_atomically() {
    let text = patch_text("config.toml", DOC, &sample_patch()).unwrap();
    assert!(text.contains("primary   = \"German\""));
    assert!(text.contains("# top comment stays"));
    let why = patch_text("bad.toml", "[languages\nx", &sample_patch()).unwrap_err();
    assert!(why.contains("TOML"));
    assert_eq!(why, "bad.toml is not valid TOML; fix it by hand first");
}

#[test]
fn mode_keys_match_the_config_parser() {
    for mode in ProcessMode::ALL {
        let toml = format!("[{}]\nthinking = \"think\"\n", mode_key(mode));
        let cfg = config_of(&toml);
        assert_eq!(cfg.mode_default_thinking(mode), Some(ThinkingMode::Think), "{mode:?}");
    }
}

// --- what holds of all settings ---

#[test]
fn provider_keys_read_back_on_every_provider() {
    for p in Provider::ALL {
        assert_eq!(Provider::parse(Some(p.key())), p);
    }
    assert_eq!(Provider::parse(Some(" grok-oauth ")), Provider::GrokOauth);
    assert_eq!(Provider::parse(Some("other")), Provider::OpenAi);
    assert_eq!(Provider::parse(None), Provider::OpenAi);
    assert_eq!(Provider::OpenAi.label(), "OpenAI-compatible");
}

#[test]
fn a_checked_profile_survives_the_form() {
    let spec = openai_profile("groq").to_spec().unwrap();
    assert_eq!(ProfileForm::from_spec(&spec).to_spec().unwrap(), spec);
}

#[test]
fn blank_profiles_are_not_complete() {
    let blank = ProfileForm::blank();
    assert!(blank.to_spec().is_err());
    assert_eq!(blank.provider, Provider::OpenAi);
    assert!(!blank.from_api_section);
}

#[test]
fn a_summary_names_the_model() {
    assert_eq!(ProfileForm::blank().summary(), "openai \u{b7} (no model)");
    let mut g = openai_profile("g");
    g.provider = Provider::GrokOauth;
    g.model = "grok-4.3".into();
    assert_eq!(g.summary(), "grok-oauth \u{b7} grok-4.3");
}

#[test]
fn the_longest_double_tap_is_allowed() {
    let mut form = SettingsForm::from_config(&Config::default(), None);
    form.profiles = vec![openai_profile("x")];
    form.double_tap_ms = DOUBLE_TAP_MS_MAX.to_string();
    assert_eq!(form.to_patch().unwrap().double_tap_ms, DOUBLE_TAP_MS_MAX);
    form.double_tap_ms = (DOUBLE_TAP_MS_MAX + 1).to_string();
    assert!(form.to_patch().is_err());
}

#[test]
fn settings_written_are_read_back() {
    let mut doc = toml_edit::DocumentMut::new();
    let mut patch = sample_patch();
    patch.profiles = vec![openai_profile("only").to_spec().unwrap()];
    apply_patch(&mut doc, &patch);
    let cfg = config_of(&doc.to_string());
    let form = SettingsForm::from_config(&cfg, Some("only"));
    assert_eq!(form.to_patch().unwrap().profiles, patch.profiles);
    assert_eq!(
        form.thinking,
        vec![
            (ProcessMode::Summarize, None),
            (ProcessMode::Translate, Some(ThinkingMode::Think)),
            (ProcessMode::Rephrase, None),
        ]
    );
    assert_eq!(cfg.ui_tab_order(), patch.tabs);
}

#[test]
fn the_lists_to_choose_from() {
    assert!(COMMON_LANGUAGES.contains(&"Korean"));
    assert_eq!(THINKING_CONTROLS[0].0, "");
}

fn plain_spec(name: &str, from_api_section: bool) -> ModelSpec {
    ModelSpec {
        name: name.into(),
        provider: None,
        endpoint: Some("https://h/v1".into()),
        model: Some("m".into()),
        api_key: Some("k".into()),
        auth_file: None,
        headers: vec![],
        max_tokens: None,
        token_budget: None,
        thinking_control: None,
        from_api_section,
    }
}

#[test]
fn saved_files_say_what_was_saved() {
    let awkward = [
        "plain",
        "",
        "both \" and '",
        "back\\slash",
        "two\nlines",
        "\nfirst line empty",
        "ends with quotes \"\"",
        "'''\"\"\" \\ \n",
        "tab\tand\u{1}control\u{7f}\r\n",
        "한국어 # not a comment",
    ];
    let files = [
        "",
        "# only a comment",
        DOC,
        "api.model = \"m\"\nui.tabs = [\"rephrase\"] # dotted\n[x]\ny = 1.5\n",
        "[api.headers]\nX = \"a\"\n[[other]]\nk = 1\n[other.sub]\nz = 2\n[[other]]\nk = 3\n",
        "[ui.sub]\na = 1\n[[models]]\nname = \"old\"\n[models.headers]\nH = \"h\"\n[ui]\nb = 2\n",
        "[languages]\r\nprimary = \"\"\"\r\nx\"\"\" # c\r\n[translate]\r\nthinking = \"no_think\"\r\n",
        "models = []\n# before\n[ api . headers ]\n\"quoted key\" = 'v'\n",
    ];
    for file in files {
        for text in awkward {
            let mut patch = sample_patch();
            patch.primary = text.into();
            patch.default_model = Some(text.into());
            let mut api = plain_spec("api", true);
            api.model = Some(text.into());
            let mut other = plain_spec(text, false);
            other.headers = vec![(text.into(), text.into()), ("b".into(), "c".into())];
            other.max_tokens = Some(7);
            patch.profiles = vec![api, other, plain_spec("last", false)];
            let out = patch_text("f", file, &patch).unwrap();
            let cfg = config_of(&out);
            assert_eq!(cfg.languages.primary, text, "{out}");
            assert_eq!(cfg.languages.secondary, "English");
            assert_eq!(cfg.ui_default_model(), Some(text));
            assert_eq!(cfg.hotkey_double_tap_timeout_ms(), Some(300));
            assert!(cfg.ui_single_tap_pinned() && !cfg.ui_double_tap_pinned());
            assert_eq!(
                cfg.ui.tabs.as_ref().unwrap().join(" "),
                "summarize translate rephrase",
                "{out}"
            );
            assert_eq!(
                cfg.mode_default_thinking(ProcessMode::Translate),
                Some(ThinkingMode::Think)
            );
            assert_eq!(cfg.mode_default_thinking(ProcessMode::Rephrase), None);
            assert_eq!(cfg.api.model.as_deref(), Some(text), "{out}");
            assert_eq!(cfg.api.endpoint.as_deref(), Some("https://h/v1"));
            assert_eq!(cfg.models.len(), 2, "{out}");
            assert_eq!(cfg.models[0].name.as_deref(), Some(text));
            assert_eq!(cfg.models[0].max_tokens, Some(7));
            assert!(cfg.models[0].headers.contains(&(text.to_string(), text.to_string())));
            assert_eq!(cfg.models[0].headers.len(), 2);
            assert_eq!(cfg.models[1].name.as_deref(), Some("last"));
            assert!(cfg.models[1].headers.is_empty());
        }
    }
}

#[test]
fn saving_keeps_the_rest_of_a_file() {
    let file =
        "[api.headers]\nX = \"a\"\n[[other]]\nk = 1\n[other.sub]\nz = 2\n[[other]]\nk = 3\n";
    let out = patch_text("f", file, &sample_patch()).unwrap();
    let t = out.parse::<toml::Table>().unwrap();
    assert_eq!(text_at(&section(&section(&t, "api"), "headers"), "X").as_deref(), Some("a"));
    let other = t.get("other").and_then(|v| v.as_array()).unwrap();
    assert_eq!(other.len(), 2);
    assert_eq!(number_at(other[0].as_table().unwrap(), "k"), Some(1));
    assert_eq!(number_at(&section(other[0].as_table().unwrap(), "sub"), "z"), Some(2));
    assert_eq!(number_at(other[1].as_table().unwrap(), "k"), Some(3));
}

#[test]
fn saving_keeps_order_and_comments() {
    let file = "\
# first
[[models]] # old
name = \"old\"

# about the panel
[ui] # here
# about a key
other = 0x10 # spelled
tabs = [] # mine
last = 'x'

# at the end
[zoo]
b = 1
a = 2
";
    let mut patch = sample_patch();
    patch.profiles = vec![plain_spec("new", false)];
    let out = patch_text("f", file, &patch).unwrap();
    let at = |s: &str| out.find(s).unwrap_or_else(|| panic!("{s} is missing:\n{out}"));
    // The further profiles keep their place, and everything else its order.
    assert!(at("[[models]]") < at("# about the panel\n[ui] # here\n"));
    assert!(at("# about a key\nother = 0x10 # spelled\n") < at("tabs = [\"summarize\""));
    assert!(at("# mine\n") < at("last = 'x'\n"));
    assert!(at("last = 'x'\n") < at("# at the end\n[zoo]\nb = 1\na = 2\n"));
    assert!(at("a = 2\n") < at("[languages]"));
}

#[test]
fn a_value_gives_way_to_a_section() {
    // No line before the name, so the header can take over what stands before it.
    for line in [
        "languages = { primary = \"x\", secondary = \"y\" }",
        "languages = 1",
        "  \"languages\"\t= [1, 2] # gone",
        "[[ languages ]]\nprimary = \"x\"",
    ] {
        let file = format!("{line}\n[ui]\nother = 1\n");
        let out = patch_text("f", &file, &sample_patch()).unwrap();
        let read = config_of(&out);
        let patch = sample_patch();
        assert_eq!(read.primary_lang(), patch.primary, "{out}");
        assert_eq!(read.secondary_lang(), patch.secondary, "{out}");
        let t = out.parse::<toml::Table>().unwrap();
        assert_eq!(section(&t, "ui").get("other").and_then(|v| v.as_integer()), Some(1));
    }
}
