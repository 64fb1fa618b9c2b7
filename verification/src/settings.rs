//! The settings panel: a form filled from the configuration, checked, and
//! written back into the configuration file in place.

use crate::config;
use crate::config::Config;
use crate::config::ModelSpec;
use crate::config::SpecView;
use crate::hotkey;
use crate::mode;
use crate::mode::ProcessMode;
use crate::mode::ThinkingMode;
use crate::numbers;
use crate::numbers::decimal;
use crate::numbers::parse_u64;
use crate::text;
use crate::text::chars_of;
use crate::text::copy_str;
use crate::text::lowered;
use crate::text::push_text;
use crate::text::same;
use crate::text::str_same;
use crate::text::string_of;
use crate::text::trimmed;
use crate::text::CharClass;
use crate::toml_doc;
use crate::toml_doc::Body;
use crate::toml_doc::EntryView;
use crate::toml_doc::ItemView;
use crate::toml_doc::Line;
use crate::toml_doc::Place;
use crate::toml_doc::TomlValue;
use crate::toml_doc::ValueView;
use vstd::prelude::*;

verus! {

/// The shortest window for a double tap, in milliseconds.
pub const DOUBLE_TAP_MS_MIN: u64 = 100;

/// The longest window for a double tap, in milliseconds.
pub const DOUBLE_TAP_MS_MAX: u64 = 2000;

/// How a profile's server is spoken to.
#[derive(Debug, Clone, Copy, PartialEq, Eq, Structural)]
pub enum Provider {
    OpenAi,
    GrokOauth,
}

/// The provider that a `provider` key stands for: the usual one unless it is
/// the other's.
pub open spec fn provider_of(raw: Option<Seq<char>>) -> Provider {
    match raw {
        Some(s) => if text::trim(s, CharClass::Space) == "grok-oauth"@ {
            Provider::GrokOauth
        } else {
            Provider::OpenAi
        },
        None => Provider::OpenAi,
    }
}

/// What a provider is called in the file.
pub open spec fn provider_key(p: Provider) -> Seq<char> {
    match p {
        Provider::OpenAi => "openai"@,
        Provider::GrokOauth => "grok-oauth"@,
    }
}

impl Provider {
    /// All providers, in the order in which they are offered.
    pub const ALL: [Provider; 2] = [Provider::OpenAi, Provider::GrokOauth];

    /// What it is called.
    pub fn label(self) -> (r: &'static str)
        ensures
            r@ == match self {
                Provider::OpenAi => "OpenAI-compatible"@,
                Provider::GrokOauth => "Grok (CLI sign-in)"@,
            },
    {
        match self {
            Provider::OpenAi => "OpenAI-compatible",
            Provider::GrokOauth => "Grok (CLI sign-in)",
        }
    }

    /// The value of the `provider` key.
    pub fn key(self) -> (r: &'static str)
        ensures
            r@ == provider_key(self),
    {
        match self {
            Provider::OpenAi => "openai",
            Provider::GrokOauth => "grok-oauth",
        }
    }

    /// The provider that a `provider` key stands for.
    pub fn parse(raw: Option<&str>) -> (r: Self)
        ensures
            r == provider_of(config::str_view(raw)),
    {
        match raw {
            Some(s) => {
                let t = trimmed_text(s);
                if str_same(t.as_str(), "grok-oauth") {
                    Provider::GrokOauth
                } else {
                    Provider::OpenAi
                }
            },
            None => Provider::OpenAi,
        }
    }
}

/// A provider's key stands for that provider.
pub proof fn provider_keys_read_back(p: Provider)
    ensures
        provider_of(Some(provider_key(p))) == p,
{
    reveal_strlit("openai");
    reveal_strlit("grok-oauth");
    lemma_trim_of_trimmed(provider_key(p));
    assert("openai"@.len() != "grok-oauth"@.len());
}

/// A text that neither starts nor ends with white space is its own trimming.
proof fn lemma_trim_of_trimmed(s: Seq<char>)
    requires
        s.len() > 0 ==> !text::is_space(s[0]) && !text::is_space(s.last()),
    ensures
        text::trim(s, CharClass::Space) == s,
{
}

fn trimmed_text(s: &str) -> (r: String)
    ensures
        r@ == text::trim(s@, CharClass::Space),
{
    let v = chars_of(s);
    let t = trimmed(&v, CharClass::Space);
    string_of(&t)
}

fn is_blank(s: &str) -> (r: bool)
    ensures
        r == (s@.len() == 0),
{
    chars_of(s).len() == 0
}

// ---------------------------------------------------------------------------
// One profile
// ---------------------------------------------------------------------------

/// The ways to switch thinking off that can be chosen: the value of the
/// `thinking_control` key, what it is called, and what it does.
pub const THINKING_CONTROLS: [(&'static str, &'static str, &'static str); 5] = [
    (
        "",
        "Auto",
        "Probe once: try reasoning_effort, chat_template_kwargs, then /no_think and keep the first one that actually stops reasoning",
    ),
    (
        "reasoning_effort",
        "reasoning_effort",
        "Send reasoning_effort = \"none\" (LM Studio, Groq, OpenAI)",
    ),
    (
        "chat_template_kwargs",
        "kwargs",
        "Send chat_template_kwargs.enable_thinking = false (vLLM Qwen3)",
    ),
    ("prompt_tag", "/no_think", "Prefix the system prompt with /no_think (Qwen)"),
    ("none", "None", "Never try to switch thinking off (always-on reasoning models)"),
];

/// One profile as it is edited: texts, until they are checked.
#[derive(Debug, Clone, PartialEq)]
pub struct ProfileForm {
    pub name: String,
    pub provider: Provider,
    pub endpoint: String,
    pub model: String,
    pub api_key: String,
    pub auth_file: String,
    pub max_tokens: String,
    pub token_budget: String,
    /// The `thinking_control` key; empty where it is found out on first use.
    pub thinking_control: String,
    /// Whether the profile is the one of the `[api]` section.
    pub from_api_section: bool,
}

/// What a profile's form says.
#[verifier::ext_equal]
pub struct ProfileView {
    pub name: Seq<char>,
    pub provider: Provider,
    pub endpoint: Seq<char>,
    pub model: Seq<char>,
    pub api_key: Seq<char>,
    pub auth_file: Seq<char>,
    pub max_tokens: Seq<char>,
    pub token_budget: Seq<char>,
    pub thinking_control: Seq<char>,
    pub from_api_section: bool,
}

/// A text, or the empty one.
pub open spec fn or_empty(s: Option<Seq<char>>) -> Seq<char> {
    match s {
        Some(t) => t,
        None => seq![],
    }
}

/// The digits of a number, or no text.
pub open spec fn digits_or_empty(n: Option<u32>) -> Seq<char> {
    match n {
        Some(v) => numbers::dec(v as nat),
        None => seq![],
    }
}

/// How a `thinking_control` key shows: without white space around it, and
/// empty where it is left to the program.
pub open spec fn shown_control(s: Option<Seq<char>>) -> Seq<char> {
    let t = text::trim(or_empty(s), CharClass::Space);
    if t == "auto"@ {
        seq![]
    } else {
        t
    }
}

/// The form that shows a profile.
pub open spec fn form_of(s: SpecView) -> ProfileView {
    ProfileView {
        name: s.name,
        provider: provider_of(s.provider),
        endpoint: or_empty(s.endpoint),
        model: or_empty(s.model),
        api_key: or_empty(s.api_key),
        auth_file: or_empty(s.auth_file),
        max_tokens: digits_or_empty(s.max_tokens),
        token_budget: digits_or_empty(s.token_budget),
        thinking_control: shown_control(s.thinking_control),
        from_api_section: s.from_api_section,
    }
}

/// A text without white space around it, where something is left.
pub open spec fn filled(s: Seq<char>) -> Option<Seq<char>> {
    config::non_empty(Some(text::trim(s, CharClass::Space)))
}

/// The number that a field holds: none where the field is empty. `None` where
/// it holds anything but a positive number that fits.
pub open spec fn field_number(s: Seq<char>) -> Option<Option<u32>> {
    let t = text::trim(s, CharClass::Space);
    if t.len() == 0 {
        Some(None)
    } else {
        match numbers::unsigned_up_to(t, u32::MAX as int) {
            Some(n) => if n > 0 {
                Some(Some(n as u32))
            } else {
                None
            },
            None => None,
        }
    }
}

/// What is said of a profile that lacks something.
pub open spec fn complaint(name: Seq<char>, what: Seq<char>) -> Seq<char> {
    "Profile \""@ + name + "\": "@ + what
}

/// What is said of a field that holds no number.
pub open spec fn number_complaint(name: Seq<char>, key: Seq<char>) -> Seq<char> {
    complaint(name, key + " must be a positive number."@)
}

/// The profile that a form describes. Only the `[api]` profile may have gaps:
/// the environment fills them.
pub open spec fn spec_of(f: ProfileView) -> Result<SpecView, Seq<char>> {
    let name = text::trim(f.name, CharClass::Space);
    let grok = f.provider is GrokOauth;
    if name.len() == 0 {
        Err("Every profile needs a name."@)
    } else if f.from_api_section {
        Ok(
            SpecView {
                name,
                provider: Some(provider_key(f.provider)),
                endpoint: filled(f.endpoint),
                model: filled(f.model),
                api_key: filled(f.api_key),
                auth_file: filled(f.auth_file),
                headers: seq![],
                max_tokens: None,
                token_budget: None,
                thinking_control: filled(f.thinking_control),
                from_api_section: true,
            },
        )
    } else if filled(f.model) is None {
        Err(complaint(name, "the model is required."@))
    } else if !grok && filled(f.endpoint) is None {
        Err(complaint(name, "the endpoint URL is required."@))
    } else if !grok && filled(f.api_key) is None {
        Err(complaint(name, "the API key is required."@))
    } else if field_number(f.max_tokens) is None {
        Err(number_complaint(name, "max_tokens"@))
    } else if field_number(f.token_budget) is None {
        Err(number_complaint(name, "token_budget"@))
    } else {
        Ok(
            SpecView {
                name,
                provider: Some(provider_key(f.provider)),
                endpoint: if grok {
                    None
                } else {
                    filled(f.endpoint)
                },
                model: filled(f.model),
                api_key: if grok {
                    None
                } else {
                    filled(f.api_key)
                },
                auth_file: filled(f.auth_file),
                headers: seq![],
                max_tokens: field_number(f.max_tokens)->0,
                token_budget: field_number(f.token_budget)->0,
                thinking_control: filled(f.thinking_control),
                from_api_section: false,
            },
        )
    }
}

/// Whether two checked profiles, or two complaints, say the same.
pub open spec fn says(r: Result<ModelSpec, String>, v: Result<SpecView, Seq<char>>) -> bool {
    match (r, v) {
        (Ok(s), Ok(w)) => s@ == w,
        (Err(e), Err(w)) => e@ == w,
        _ => false,
    }
}

fn text_or_empty(s: &Option<String>) -> (r: String)
    ensures
        r@ == or_empty(config::text_view(*s)),
{
    match s {
        Some(t) => t.clone(),
        None => String::new(),
    }
}

fn digits_text(n: Option<u32>) -> (r: String)
    ensures
        r@ == digits_or_empty(n),
{
    match n {
        Some(v) => decimal(v as u64),
        None => String::new(),
    }
}

fn filled_field(s: &str) -> (r: Option<String>)
    ensures
        config::text_view(r) == filled(s@),
{
    let t = trimmed_text(s);
    if is_blank(t.as_str()) {
        None
    } else {
        Some(t)
    }
}

fn read_field_number(s: &str) -> (r: Option<Option<u32>>)
    ensures
        r == field_number(s@),
{
    let v = chars_of(s);
    let t = trimmed(&v, CharClass::Space);
    if t.len() == 0 {
        return Some(None);
    }
    match parse_u64(&t) {
        Some(n) => if n > 0 && n <= u32::MAX as u64 {
            Some(Some(n as u32))
        } else {
            None
        },
        None => None,
    }
}

fn complain(name: &str, what: &str) -> (r: String)
    ensures
        r@ == complaint(name@, what@),
{
    let mut v = chars_of("Profile \"");
    push_text(&mut v, name);
    push_text(&mut v, "\": ");
    push_text(&mut v, what);
    string_of(&v)
}

fn complain_number(name: &str, key: &str) -> (r: String)
    ensures
        r@ == number_complaint(name@, key@),
{
    let mut v = chars_of(key);
    push_text(&mut v, " must be a positive number.");
    let what = string_of(&v);
    complain(name, what.as_str())
}

impl ProfileForm {
    /// What it says.
    pub open spec fn view(&self) -> ProfileView {
        ProfileView {
            name: self.name@,
            provider: self.provider,
            endpoint: self.endpoint@,
            model: self.model@,
            api_key: self.api_key@,
            auth_file: self.auth_file@,
            max_tokens: self.max_tokens@,
            token_budget: self.token_budget@,
            thinking_control: self.thinking_control@,
            from_api_section: self.from_api_section,
        }
    }

    /// The form that shows a profile.
    pub fn from_spec(spec: &ModelSpec) -> (r: Self)
        ensures
            r@ == form_of(spec@),
    {
        let control = text_or_empty(&spec.thinking_control);
        let control = trimmed_text(control.as_str());
        let shown = if str_same(control.as_str(), "auto") {
            String::new()
        } else {
            control
        };
        let provider = Provider::parse(config::as_text(&spec.provider));
        ProfileForm {
            name: spec.name.clone(),
            provider,
            endpoint: text_or_empty(&spec.endpoint),
            model: text_or_empty(&spec.model),
            api_key: text_or_empty(&spec.api_key),
            auth_file: text_or_empty(&spec.auth_file),
            max_tokens: digits_text(spec.max_tokens),
            token_budget: digits_text(spec.token_budget),
            thinking_control: shown,
            from_api_section: spec.from_api_section,
        }
    }

    /// An empty form for a further profile.
    pub fn blank() -> (r: Self)
        ensures
            r@ == (ProfileView {
                name: seq![],
                provider: Provider::OpenAi,
                endpoint: seq![],
                model: seq![],
                api_key: seq![],
                auth_file: seq![],
                max_tokens: seq![],
                token_budget: seq![],
                thinking_control: seq![],
                from_api_section: false,
            }),
    {
        ProfileForm {
            name: String::new(),
            provider: Provider::OpenAi,
            endpoint: String::new(),
            model: String::new(),
            api_key: String::new(),
            auth_file: String::new(),
            max_tokens: String::new(),
            token_budget: String::new(),
            thinking_control: String::new(),
            from_api_section: false,
        }
    }

    /// The profile that the form describes, or what is wrong with it.
    pub fn to_spec(&self) -> (r: Result<ModelSpec, String>)
        ensures
            says(r, spec_of(self@)),
    {
        let name = trimmed_text(self.name.as_str());
        if is_blank(name.as_str()) {
            return Err("Every profile needs a name.".to_owned());
        }
        let provider = Some(self.provider.key().to_owned());
        let endpoint = filled_field(self.endpoint.as_str());
        let model = filled_field(self.model.as_str());
        let api_key = filled_field(self.api_key.as_str());
        let auth_file = filled_field(self.auth_file.as_str());
        let thinking_control = filled_field(self.thinking_control.as_str());
        let headers: Vec<(String, String)> = Vec::new();
        assert(config::pairs_view(headers@) =~= seq![]);
        if self.from_api_section {
            return Ok(
                ModelSpec {
                    name,
                    provider,
                    endpoint,
                    model,
                    api_key,
                    auth_file,
                    headers,
                    max_tokens: None,
                    token_budget: None,
                    thinking_control,
                    from_api_section: true,
                },
            );
        }
        if model.is_none() {
            return Err(complain(name.as_str(), "the model is required."));
        }
        let (endpoint, api_key) = match self.provider {
            Provider::OpenAi => {
                if endpoint.is_none() {
                    return Err(complain(name.as_str(), "the endpoint URL is required."));
                }
                if api_key.is_none() {
                    return Err(complain(name.as_str(), "the API key is required."));
                }
                (endpoint, api_key)
            },
            Provider::GrokOauth => (None, None),
        };
        let max_tokens = match read_field_number(self.max_tokens.as_str()) {
            Some(n) => n,
            None => return Err(complain_number(name.as_str(), "max_tokens")),
        };
        let token_budget = match read_field_number(self.token_budget.as_str()) {
            Some(n) => n,
            None => return Err(complain_number(name.as_str(), "token_budget")),
        };
        Ok(
            ModelSpec {
                name,
                provider,
                endpoint,
                model,
                api_key,
                auth_file,
                headers,
                max_tokens,
                token_budget,
                thinking_control,
                from_api_section: false,
            },
        )
    }

    /// The profile in one line.
    pub fn summary(&self) -> (r: String)
        ensures
            r@ == provider_key(self.provider) + " \u{b7} "@ + match filled(self.model@) {
                Some(m) => m,
                None => "(no model)"@,
            },
    {
        let mut v = chars_of(self.provider.key());
        push_text(&mut v, " \u{b7} ");
        match filled_field(self.model.as_str()) {
            Some(m) => push_text(&mut v, m.as_str()),
            None => push_text(&mut v, "(no model)"),
        }
        string_of(&v)
    }
}

/// Whether a form's field could hold `s` as it stands.
pub open spec fn is_tidy(s: Option<Seq<char>>) -> bool {
    s matches Some(t) ==> t.len() > 0 && text::trim(t, CharClass::Space) == t
}

/// Whether a profile is complete: no field is blank or padded, the provider is
/// written in full, and what its provider needs is there and nothing else.
pub open spec fn is_complete(s: SpecView) -> bool {
    &&& is_tidy(Some(s.name))
    &&& s.provider == Some(provider_key(provider_of(s.provider)))
    &&& is_tidy(s.endpoint)
    &&& is_tidy(s.model)
    &&& is_tidy(s.api_key)
    &&& is_tidy(s.auth_file)
    &&& is_tidy(s.thinking_control)
    &&& s.thinking_control != Some("auto"@)
    &&& s.headers.len() == 0
    &&& s.max_tokens != Some(0u32)
    &&& s.token_budget != Some(0u32)
    &&& if s.from_api_section {
        s.max_tokens is None && s.token_budget is None
    } else {
        &&& s.model is Some
        &&& s.endpoint is Some == (provider_of(s.provider) is OpenAi)
        &&& s.api_key is Some == (provider_of(s.provider) is OpenAi)
    }
}

/// A complete profile comes through the form unchanged.
pub proof fn profiles_survive_the_form(s: SpecView)
    requires
        is_complete(s),
    ensures
        spec_of(form_of(s)) == Ok::<SpecView, Seq<char>>(s),
{
    provider_keys_read_back(provider_of(s.provider));
    lemma_filled_or_empty(s.endpoint);
    lemma_filled_or_empty(s.model);
    lemma_filled_or_empty(s.api_key);
    lemma_filled_or_empty(s.auth_file);
    lemma_filled_or_empty(s.thinking_control);
    if let Some(t) = s.thinking_control {
        assert(shown_control(s.thinking_control) == t);
    }
    lemma_number_or_empty(s.max_tokens);
    lemma_number_or_empty(s.token_budget);
    assert(s.headers =~= seq![]);
}

proof fn lemma_filled_or_empty(s: Option<Seq<char>>)
    requires
        is_tidy(s),
    ensures
        filled(or_empty(s)) == s,
{
    if s is None {
        lemma_trim_of_trimmed(seq![]);
    }
}

proof fn lemma_number_or_empty(n: Option<u32>)
    requires
        n != Some(0u32),
    ensures
        field_number(digits_or_empty(n)) == Some(n),
{
    match n {
        Some(v) => {
            let d = numbers::dec(v as nat);
            numbers::lemma_dec(v as nat);
            assert(numbers::is_digit(d[0]));
            assert(numbers::is_digit(d.last()));
            lemma_trim_of_trimmed(d);
            assert(numbers::unsigned(d) == Some(v as nat));
        },
        None => {
            lemma_trim_of_trimmed(seq![]);
        },
    }
}

/// What the form makes of a profile, it makes of it again.
pub proof fn checked_profiles_are_complete(f: ProfileView)
    requires
        spec_of(f) is Ok,
        filled(f.thinking_control) != Some("auto"@),
    ensures
        is_complete(spec_of(f)->Ok_0),
        spec_of(form_of(spec_of(f)->Ok_0)) == spec_of(f),
{
    provider_keys_read_back(f.provider);
    text::lemma_trim_idempotent(f.name, CharClass::Space);
    text::lemma_trim_idempotent(f.endpoint, CharClass::Space);
    text::lemma_trim_idempotent(f.model, CharClass::Space);
    text::lemma_trim_idempotent(f.api_key, CharClass::Space);
    text::lemma_trim_idempotent(f.auth_file, CharClass::Space);
    text::lemma_trim_idempotent(f.thinking_control, CharClass::Space);
    profiles_survive_the_form(spec_of(f)->Ok_0);
}

// ---------------------------------------------------------------------------
// The whole form
// ---------------------------------------------------------------------------

/// The languages that are offered; others are typed in.
pub const COMMON_LANGUAGES: [&'static str; 11] = [
    "Korean",
    "English",
    "Japanese",
    "Chinese",
    "German",
    "French",
    "Spanish",
    "Portuguese",
    "Vietnamese",
    "Thai",
    "Indonesian",
];

/// What the settings panel shows and edits.
#[derive(Debug, Clone, PartialEq)]
pub struct SettingsForm {
    pub primary: String,
    pub secondary: String,
    /// The mode that is selected at the start.
    pub default_mode: ProcessMode,
    pub double_tap_ms: String,
    pub single_tap_pinned: bool,
    pub double_tap_pinned: bool,
    /// Whether the model thinks first, for each mode in display order; `None`
    /// where nothing is said.
    pub thinking: Vec<(ProcessMode, Option<ThinkingMode>)>,
    /// The profiles in their order.
    pub profiles: Vec<ProfileForm>,
    /// The profile to start with.
    pub default_model: usize,
    /// The profile whose editor is open.
    pub editing: Option<usize>,
    /// Whether keys are shown in clear text.
    pub show_key: bool,
    /// What went wrong.
    pub error: Option<String>,
    /// What came of the last attempt to save.
    pub notice: Option<String>,
}

/// Settings that passed the checks.
#[derive(Debug, Clone, PartialEq)]
pub struct SettingsPatch {
    pub primary: String,
    pub secondary: String,
    /// All modes in their order, the one to start with first.
    pub tabs: Vec<ProcessMode>,
    pub double_tap_ms: u64,
    pub single_tap_pinned: bool,
    pub double_tap_pinned: bool,
    pub thinking: Vec<(ProcessMode, Option<ThinkingMode>)>,
    /// The profile to start with; `None` where there is only one.
    pub default_model: Option<String>,
    /// All profiles in their order.
    pub profiles: Vec<ModelSpec>,
}

/// What checked settings say.
#[verifier::ext_equal]
pub struct PatchView {
    pub primary: Seq<char>,
    pub secondary: Seq<char>,
    pub tabs: Seq<ProcessMode>,
    pub double_tap_ms: u64,
    pub single_tap_pinned: bool,
    pub double_tap_pinned: bool,
    pub thinking: Seq<(ProcessMode, Option<ThinkingMode>)>,
    pub default_model: Option<Seq<char>>,
    pub profiles: Seq<SpecView>,
}

impl SettingsPatch {
    /// What they say.
    pub open spec fn view(&self) -> PatchView {
        PatchView {
            primary: self.primary@,
            secondary: self.secondary@,
            tabs: self.tabs@,
            double_tap_ms: self.double_tap_ms,
            single_tap_pinned: self.single_tap_pinned,
            double_tap_pinned: self.double_tap_pinned,
            thinking: self.thinking@,
            default_model: config::text_view(self.default_model),
            profiles: config::specs_view(self.profiles@),
        }
    }
}

/// What the profiles of a form say.
pub open spec fn forms_view(v: Seq<ProfileForm>) -> Seq<ProfileView> {
    v.map_values(|p: ProfileForm| p@)
}

/// Whether the model thinks first in a mode, where the file says so.
pub open spec fn mode_thinking(c: Config, m: ProcessMode) -> Option<ThinkingMode> {
    config::thinking_of(
        match m {
            ProcessMode::Translate => c.translate.thinking,
            ProcessMode::Rephrase => c.rephrase.thinking,
            ProcessMode::Summarize => c.summarize.thinking,
        },
    )
}

/// The forms for the profiles of a configuration; none where one of them has
/// no name.
pub open spec fn config_forms(c: Config) -> Seq<ProfileView> {
    match config::profiles(c) {
        Some(v) => v.map_values(|s: SpecView| form_of(s)),
        None => seq![],
    }
}

/// The first profile from `from` on that is called `name`.
pub open spec fn named_from(v: Seq<ProfileView>, name: Seq<char>, from: int) -> Option<int>
    decreases v.len() - from,
{
    if from < 0 || from >= v.len() {
        None
    } else if v[from].name == name {
        Some(from)
    } else {
        named_from(v, name, from + 1)
    }
}

/// The profile that is selected: the active one, or the first.
pub open spec fn selected(v: Seq<ProfileView>, active: Option<Seq<char>>) -> int {
    match active {
        Some(name) => match named_from(v, name, 0) {
            Some(i) => i,
            None => 0,
        },
        None => 0,
    }
}

/// The modes of the thinking list but for `first`.
pub open spec fn other_modes(
    v: Seq<(ProcessMode, Option<ThinkingMode>)>,
    first: ProcessMode,
) -> Seq<ProcessMode>
    decreases v.len(),
{
    if v.len() == 0 {
        seq![]
    } else if v.last().0 == first {
        other_modes(v.drop_last(), first)
    } else {
        other_modes(v.drop_last(), first).push(v.last().0)
    }
}

/// The window that a field holds, where it is one that is accepted.
pub open spec fn window_of(s: Seq<char>) -> Option<u64> {
    match numbers::unsigned_up_to(text::trim(s, CharClass::Space), u64::MAX as int) {
        Some(n) => if DOUBLE_TAP_MS_MIN <= n <= DOUBLE_TAP_MS_MAX {
            Some(n as u64)
        } else {
            None
        },
        None => None,
    }
}

/// Whether one of the profiles is called `name`.
pub open spec fn has_name(v: Seq<SpecView>, name: Seq<char>) -> bool {
    exists|i: int| 0 <= i < v.len() && (#[trigger] v[i]).name == name
}

/// The profiles that the forms describe, or what is wrong with the first that
/// is not in order.
pub open spec fn checked(v: Seq<ProfileView>) -> Result<Seq<SpecView>, Seq<char>>
    decreases v.len(),
{
    if v.len() == 0 {
        Ok(seq![])
    } else {
        match checked(v.drop_last()) {
            Err(e) => Err(e),
            Ok(done) => match spec_of(v.last()) {
                Err(e) => Err(e),
                Ok(s) => if has_name(done, s.name) {
                    Err("Two profiles are named \""@ + s.name + "\"."@)
                } else {
                    Ok(done.push(s))
                },
            },
        }
    }
}

/// The settings that a form describes, or what is wrong with it.
pub open spec fn patch_of(f: SettingsForm) -> Result<PatchView, Seq<char>> {
    let primary = text::trim(f.primary@, CharClass::Space);
    let secondary = text::trim(f.secondary@, CharClass::Space);
    if primary.len() == 0 || secondary.len() == 0 {
        Err("Both language names are required."@)
    } else if text::lowercase(primary) == text::lowercase(secondary) {
        Err("The two languages must differ."@)
    } else if window_of(f.double_tap_ms@) is None {
        Err("Double-tap window must be 100\u{2013}2000 ms."@)
    } else if f.profiles@.len() == 0 {
        Err("At least one model profile is required."@)
    } else {
        match checked(forms_view(f.profiles@)) {
            Err(e) => Err(e),
            Ok(profiles) => Ok(
                PatchView {
                    primary,
                    secondary,
                    tabs: seq![f.default_mode] + other_modes(f.thinking@, f.default_mode),
                    double_tap_ms: window_of(f.double_tap_ms@)->0,
                    single_tap_pinned: f.single_tap_pinned,
                    double_tap_pinned: f.double_tap_pinned,
                    thinking: f.thinking@,
                    default_model: if 1 < f.profiles@.len() && f.default_model < f.profiles@.len() {
                        Some(text::trim(f.profiles@[f.default_model as int].name@, CharClass::Space))
                    } else {
                        None
                    },
                    profiles,
                },
            ),
        }
    }
}

/// The names of the profiles that are shown.
pub open spec fn shown_names(v: Seq<ProfileForm>) -> Seq<Seq<char>> {
    v.map_values(|p: ProfileForm| text::trim(p.name@, CharClass::Space))
}

fn position(v: &Vec<ProfileForm>, name: &str) -> (r: Option<usize>)
    ensures
        match r {
            Some(i) => named_from(forms_view(v@), name@, 0) == Some(i as int) && i < v@.len(),
            None => named_from(forms_view(v@), name@, 0) is None,
        },
{
    let mut i: usize = 0;
    while i < v.len()
        invariant
            i <= v@.len(),
            named_from(forms_view(v@), name@, 0) == named_from(forms_view(v@), name@, i as int),
        decreases v.len() - i,
    {
        if str_same(v[i].name.as_str(), name) {
            return Some(i);
        }
        i += 1;
    }
    None
}

fn read_window(s: &str) -> (r: Option<u64>)
    ensures
        r == window_of(s@),
{
    let v = chars_of(s);
    let t = trimmed(&v, CharClass::Space);
    match parse_u64(&t) {
        Some(n) => if DOUBLE_TAP_MS_MIN <= n && n <= DOUBLE_TAP_MS_MAX {
            Some(n)
        } else {
            None
        },
        None => None,
    }
}

fn names_profile(v: &Vec<ModelSpec>, name: &str) -> (r: bool)
    ensures
        r == has_name(config::specs_view(v@), name@),
{
    let mut i: usize = 0;
    while i < v.len()
        invariant
            i <= v@.len(),
            forall|j: int|
                0 <= j < i ==> (#[trigger] config::specs_view(v@)[j]).name != name@,
        decreases v.len() - i,
    {
        if str_same(v[i].name.as_str(), name) {
            assert(config::specs_view(v@)[i as int].name == name@);
            return true;
        }
        i += 1;
    }
    false
}

fn check_profiles(v: &Vec<ProfileForm>) -> (r: Result<Vec<ModelSpec>, String>)
    ensures
        match (r, checked(forms_view(v@))) {
            (Ok(done), Ok(w)) => config::specs_view(done@) == w,
            (Err(e), Err(w)) => e@ == w,
            _ => false,
        },
{
    let mut done: Vec<ModelSpec> = Vec::new();
    let mut i: usize = 0;
    let ghost forms = forms_view(v@);
    assert(forms.take(0) =~= seq![]);
    assert(config::specs_view(done@) =~= seq![]);
    while i < v.len()
        invariant
            i <= v@.len(),
            forms == forms_view(v@),
            checked(forms.take(i as int)) == Ok::<Seq<SpecView>, Seq<char>>(
                config::specs_view(done@),
            ),
        decreases v.len() - i,
    {
        let ghost part = forms.take(i + 1);
        assert(part.drop_last() =~= forms.take(i as int));
        assert(part.last() == v@[i as int]@);
        match v[i].to_spec() {
            Ok(spec) => {
                if names_profile(&done, spec.name.as_str()) {
                    let mut e = chars_of("Two profiles are named \"");
                    push_text(&mut e, spec.name.as_str());
                    push_text(&mut e, "\".");
                    proof {
                        lemma_checked_error(forms, i + 1);
                    }
                    return Err(string_of(&e));
                }
                let ghost before = config::specs_view(done@);
                done.push(spec);
                assert(config::specs_view(done@) =~= before.push(spec@));
            },
            Err(e) => {
                proof {
                    lemma_checked_error(forms, i + 1);
                }
                return Err(e);
            },
        }
        i += 1;
    }
    assert(forms.take(i as int) =~= forms);
    Ok(done)
}

/// What is wrong with the first profiles is wrong with all of them.
proof fn lemma_checked_error(v: Seq<ProfileView>, n: int)
    requires
        0 <= n <= v.len(),
        checked(v.take(n)) is Err,
    ensures
        checked(v) == checked(v.take(n)),
    decreases v.len() - n,
{
    if n < v.len() {
        assert(v.take(n + 1).drop_last() =~= v.take(n));
        lemma_checked_error(v, n + 1);
    } else {
        assert(v.take(n) =~= v);
    }
}

impl SettingsForm {
    /// The form that shows a configuration. `active_model` names the profile in
    /// use, which is then the one to start with.
    pub fn from_config(config: &Config, active_model: Option<&str>) -> (r: Self)
        ensures
            r.primary@ == config.languages.primary@,
            r.secondary@ == config.languages.secondary@,
            r.default_mode == config::tab_order(config.ui.tabs)[0],
            r.double_tap_ms@ == match config.hotkey.double_tap_timeout_ms {
                Some(ms) => numbers::dec(ms as nat),
                None => numbers::dec(
                    (hotkey::DEFAULT_DOUBLE_TAP_TIMEOUT / hotkey::MILLISECOND) as nat,
                ),
            },
            r.single_tap_pinned == (config.ui.single_tap_pinned == Some(true)),
            r.double_tap_pinned == (config.ui.double_tap_pinned == Some(true)),
            r.thinking@ == config::tab_order(config.ui.tabs).map_values(
                |m: ProcessMode| (m, mode_thinking(*config, m)),
            ),
            forms_view(r.profiles@) == config_forms(*config),
            r.default_model == selected(config_forms(*config), config::str_view(active_model)),
            r.editing is None,
            !r.show_key,
            r.error is None,
            r.notice is None,
    {
        let tabs = config.ui_tab_order();
        proof {
            config::tab_order_is_complete(config.ui.tabs, ProcessMode::Translate);
        }
        let mut profiles: Vec<ProfileForm> = Vec::new();
        assert(forms_view(profiles@) =~= seq![]);
        match config.model_specs() {
            Ok(specs) => {
                let ghost all = config::specs_view(specs@);
                let ghost forms = config_forms(*config);
                let mut i: usize = 0;
                while i < specs.len()
                    invariant
                        i <= specs@.len(),
                        all == config::specs_view(specs@),
                        forms == all.map_values(|s: SpecView| form_of(s)),
                        forms_view(profiles@) == forms.take(i as int),
                    decreases specs.len() - i,
                {
                    let ghost before = forms_view(profiles@);
                    let form = ProfileForm::from_spec(&specs[i]);
                    profiles.push(form);
                    i += 1;
                    assert(forms_view(profiles@) =~= before.push(form@));
                    assert(forms.take(i as int) =~= forms.take(i - 1).push(forms[i - 1]));
                }
                assert(forms.take(i as int) =~= forms);
            },
            Err(_) => {},
        }
        let default_model: usize = match active_model {
            Some(name) => match position(&profiles, name) {
                Some(i) => i,
                None => 0,
            },
            None => 0,
        };
        let mut thinking: Vec<(ProcessMode, Option<ThinkingMode>)> = Vec::new();
        let ghost wanted = tabs@.map_values(|m: ProcessMode| (m, mode_thinking(*config, m)));
        let mut i: usize = 0;
        while i < tabs.len()
            invariant
                i <= tabs@.len(),
                wanted == tabs@.map_values(|m: ProcessMode| (m, mode_thinking(*config, m))),
                thinking@ == wanted.take(i as int),
            decreases tabs.len() - i,
        {
            thinking.push((tabs[i], config.mode_default_thinking(tabs[i])));
            i += 1;
            assert(wanted.take(i as int) =~= wanted.take(i - 1).push(wanted[i - 1]));
        }
        assert(wanted.take(i as int) =~= wanted);
        let default_window: u64 = hotkey::DEFAULT_DOUBLE_TAP_TIMEOUT / hotkey::MILLISECOND;
        let window: u64 = match config.hotkey_double_tap_timeout_ms() {
            Some(ms) => ms,
            None => default_window,
        };
        SettingsForm {
            primary: copy_str(config.primary_lang()),
            secondary: copy_str(config.secondary_lang()),
            default_mode: tabs[0],
            double_tap_ms: decimal(window),
            single_tap_pinned: config.ui_single_tap_pinned(),
            double_tap_pinned: config.ui_double_tap_pinned(),
            thinking,
            profiles,
            default_model,
            editing: None,
            show_key: false,
            error: None,
            notice: None,
        }
    }

    /// The names of the profiles in their order.
    pub fn profile_names(&self) -> (r: Vec<String>)
        ensures
            r@.map_values(|s: String| s@) == shown_names(self.profiles@),
    {
        let mut r: Vec<String> = Vec::new();
        let ghost wanted = shown_names(self.profiles@);
        let mut i: usize = 0;
        assert(r@.map_values(|s: String| s@) =~= wanted.take(0));
        while i < self.profiles.len()
            invariant
                i <= self.profiles@.len(),
                wanted == shown_names(self.profiles@),
                r@.map_values(|s: String| s@) == wanted.take(i as int),
            decreases self.profiles.len() - i,
        {
            let ghost before = r@;
            let name = trimmed_text(self.profiles[i].name.as_str());
            r.push(name);
            i += 1;
            assert(r@.map_values(|s: String| s@) =~= before.map_values(|s: String| s@).push(
                name@,
            ));
            assert(wanted.take(i as int) =~= wanted.take(i - 1).push(wanted[i - 1]));
        }
        assert(wanted.take(i as int) =~= wanted);
        r
    }

    /// The settings that the form describes, or what is wrong with it.
    pub fn to_patch(&self) -> (r: Result<SettingsPatch, String>)
        ensures
            match (r, patch_of(*self)) {
                (Ok(p), Ok(w)) => p@ == w,
                (Err(e), Err(w)) => e@ == w,
                _ => false,
            },
    {
        let p = chars_of(self.primary.as_str());
        let p = trimmed(&p, CharClass::Space);
        let s = chars_of(self.secondary.as_str());
        let s = trimmed(&s, CharClass::Space);
        if p.len() == 0 || s.len() == 0 {
            return Err("Both language names are required.".to_owned());
        }
        let p_low = lowered(&p);
        let s_low = lowered(&s);
        if same(&p_low, &s_low) {
            return Err("The two languages must differ.".to_owned());
        }
        let double_tap_ms = match read_window(self.double_tap_ms.as_str()) {
            Some(ms) => ms,
            None => return Err("Double-tap window must be 100\u{2013}2000 ms.".to_owned()),
        };
        if self.profiles.len() == 0 {
            return Err("At least one model profile is required.".to_owned());
        }
        let profiles = match check_profiles(&self.profiles) {
            Ok(v) => v,
            Err(e) => return Err(e),
        };
        let mut tabs: Vec<ProcessMode> = Vec::new();
        let mut thinking: Vec<(ProcessMode, Option<ThinkingMode>)> = Vec::new();
        tabs.push(self.default_mode);
        let mut i: usize = 0;
        assert(self.thinking@.take(0) =~= seq![]);
        assert(tabs@ =~= seq![self.default_mode] + other_modes(
            self.thinking@.take(0),
            self.default_mode,
        ));
        while i < self.thinking.len()
            invariant
                i <= self.thinking@.len(),
                thinking@ == self.thinking@.take(i as int),
                tabs@ == seq![self.default_mode] + other_modes(
                    self.thinking@.take(i as int),
                    self.default_mode,
                ),
            decreases self.thinking.len() - i,
        {
            let (mode, wish) = self.thinking[i];
            assert(self.thinking@.take(i + 1).drop_last() =~= self.thinking@.take(i as int));
            thinking.push((mode, wish));
            if mode != self.default_mode {
                tabs.push(mode);
            }
            i += 1;
            assert(tabs@ =~= seq![self.default_mode] + other_modes(
                self.thinking@.take(i as int),
                self.default_mode,
            ));
            assert(thinking@ =~= self.thinking@.take(i as int));
        }
        assert(self.thinking@.take(i as int) =~= self.thinking@);
        let count: usize = self.profiles.len();
        let default_model = if count > 1 && self.default_model < count {
            Some(trimmed_text(self.profiles[self.default_model].name.as_str()))
        } else {
            None
        };
        Ok(
            SettingsPatch {
                primary: string_of(&p),
                secondary: string_of(&s),
                tabs,
                double_tap_ms,
                single_tap_pinned: self.single_tap_pinned,
                double_tap_pinned: self.double_tap_pinned,
                thinking,
                default_model,
                profiles,
            },
        )
    }
}

/// Checked settings hold one profile for each form, in the same order, and no
/// two of one name.
pub proof fn profiles_are_kept_apart(v: Seq<ProfileView>)
    requires
        checked(v) is Ok,
    ensures
        checked(v)->Ok_0.len() == v.len(),
        forall|i: int|
            0 <= i < v.len() ==> Ok::<SpecView, Seq<char>>(#[trigger] checked(v)->Ok_0[i])
                == spec_of(v[i]),
        forall|i: int, j: int|
            0 <= i < j < v.len() ==> (#[trigger] checked(v)->Ok_0[i]).name != (#[trigger] checked(
                v,
            )->Ok_0[j]).name,
    decreases v.len(),
{
    if v.len() > 0 {
        profiles_are_kept_apart(v.drop_last());
        let done = checked(v.drop_last())->Ok_0;
        let s = spec_of(v.last())->Ok_0;
        assert(checked(v)->Ok_0 == done.push(s));
    }
}

/// The profile that checked settings start with is one of theirs.
pub proof fn the_default_is_a_profile(f: SettingsForm)
    requires
        patch_of(f) is Ok,
        patch_of(f)->Ok_0.default_model is Some,
    ensures
        has_name(patch_of(f)->Ok_0.profiles, patch_of(f)->Ok_0.default_model->0),
{
    let v = forms_view(f.profiles@);
    profiles_are_kept_apart(v);
    let i = f.default_model as int;
    assert(v[i] == f.profiles@[i]@);
    assert(checked(v)->Ok_0[i].name == text::trim(f.profiles@[i].name@, CharClass::Space));
}

/// Where the form lists every mode once, so do the settings that it describes,
/// and the mode to start with comes first.
pub proof fn every_mode_keeps_a_tab(f: SettingsForm, keys: Option<Vec<String>>, m: ProcessMode)
    requires
        patch_of(f) is Ok,
        f.thinking@.map_values(|t: (ProcessMode, Option<ThinkingMode>)| t.0) == config::tab_order(
            keys,
        ),
    ensures
        patch_of(f)->Ok_0.tabs[0] == f.default_mode,
        patch_of(f)->Ok_0.tabs.contains(m),
        patch_of(f)->Ok_0.tabs.no_duplicates(),
{
    let order = config::tab_order(keys);
    config::tab_order_is_complete(keys, m);
    let t = f.thinking@;
    let modes = t.map_values(|t: (ProcessMode, Option<ThinkingMode>)| t.0);
    assert forall|i: int, j: int| 0 <= i < j < t.len() implies t[i].0 != t[j].0 by {
        assert(modes[i] == t[i].0);
        assert(modes[j] == t[j].0);
    }
    lemma_other_modes(t, f.default_mode);
    let others = other_modes(t, f.default_mode);
    let tabs = patch_of(f)->Ok_0.tabs;
    assert(tabs == seq![f.default_mode] + others);
    if m == f.default_mode {
        assert(tabs[0] == m);
    } else {
        let k = choose|k: int| 0 <= k < order.len() && order[k] == m;
        assert(modes[k] == t[k].0);
        assert(t[k].0 == m);
        let j = choose|j: int| 0 <= j < others.len() && others[j] == m;
        assert(tabs[j + 1] == m);
    }
    assert forall|i: int, j: int| 0 <= i < tabs.len() && 0 <= j < tabs.len() && i
        != j implies tabs[i] != tabs[j] by {
        if i == 0 {
            assert(others.contains(others[j - 1]));
        } else if j == 0 {
            assert(others.contains(others[i - 1]));
        } else {
            assert(others[i - 1] != others[j - 1]);
        }
    }
}

proof fn lemma_other_modes(t: Seq<(ProcessMode, Option<ThinkingMode>)>, first: ProcessMode)
    requires
        forall|i: int, j: int|
            0 <= i < j < t.len() ==> (#[trigger] t[i]).0 != (#[trigger] t[j]).0,
    ensures
        other_modes(t, first).no_duplicates(),
        forall|k: int|
            0 <= k < t.len() && (#[trigger] t[k]).0 != first ==> other_modes(t, first).contains(
                t[k].0,
            ),
        forall|x: ProcessMode|
            other_modes(t, first).contains(x) ==> x != first && exists|k: int|
                0 <= k < t.len() && (#[trigger] t[k]).0 == x,
    decreases t.len(),
{
    if t.len() > 0 {
        let rest = t.drop_last();
        lemma_other_modes(rest, first);
        let before = other_modes(rest, first);
        let after = other_modes(t, first);
        assert forall|k: int| 0 <= k < t.len() && (#[trigger] t[k]).0 != first implies after.contains(
            t[k].0,
        ) by {
            if k < rest.len() {
                assert(rest[k] == t[k]);
                let j = choose|j: int| 0 <= j < before.len() && before[j] == t[k].0;
                assert(after[j] == t[k].0);
            } else {
                assert(after.last() == t[k].0);
            }
        }
        assert forall|x: ProcessMode| after.contains(x) implies x != first && exists|k: int|
            0 <= k < t.len() && (#[trigger] t[k]).0 == x by {
            let j = choose|j: int| 0 <= j < after.len() && after[j] == x;
            if j < before.len() {
                assert(before.contains(x));
                let k = choose|k: int| 0 <= k < rest.len() && (#[trigger] rest[k]).0 == x;
                assert(t[k].0 == x);
            } else {
                assert(t[t.len() - 1].0 == x);
            }
        }
        if t.last().0 != first {
            assert forall|j: int| 0 <= j < before.len() implies before[j] != t.last().0 by {
                assert(before.contains(before[j]));
                let k = choose|k: int| 0 <= k < rest.len() && (#[trigger] rest[k]).0 == before[j];
                assert(t[k].0 != t[t.len() - 1].0);
            }
        }
    }
}

// ---------------------------------------------------------------------------
// Writing into the file
// ---------------------------------------------------------------------------

/// The section of a mode.
pub open spec fn mode_section(m: ProcessMode) -> Seq<char> {
    text::lowercase(mode::mode_label(m))
}

/// The name of a mode's section.
pub fn mode_key(mode: ProcessMode) -> (r: String)
    ensures
        r@ == mode_section(mode),
{
    let v = chars_of(mode.label());
    let w = lowered(&v);
    string_of(&w)
}

/// `m` with a section called `name`, in the place of anything else of the name.
pub open spec fn with_section(m: Map<Seq<char>, ItemView>, name: Seq<char>) -> Map<
    Seq<char>,
    ItemView,
> {
    if toml_doc::is_section(m, name) {
        m
    } else {
        m.insert(name, ItemView::Table(Map::empty()))
    }
}

/// `m` with a value in a section. A value that was there leaves its spacing and
/// its comment behind.
pub open spec fn with_value(
    m: Map<Seq<char>, ItemView>,
    name: Seq<char>,
    key: Seq<char>,
    v: ValueView,
) -> Map<Seq<char>, ItemView> {
    let there = with_section(m, name);
    let around = if toml_doc::holds_value(there, name, key) {
        toml_doc::table(there, name)[key]->Value_1
    } else {
        None
    };
    toml_doc::with_entry(there, name, key, EntryView::Value(v, around))
}

/// `m` without a key of a section.
pub open spec fn without_key(
    m: Map<Seq<char>, ItemView>,
    name: Seq<char>,
    key: Seq<char>,
) -> Map<Seq<char>, ItemView> {
    m.insert(name, ItemView::Table(toml_doc::table(m, name).remove(key)))
}

/// `m` with a text in a section, or without the key where there is no text.
pub open spec fn with_text(
    m: Map<Seq<char>, ItemView>,
    name: Seq<char>,
    key: Seq<char>,
    s: Option<Seq<char>>,
) -> Map<Seq<char>, ItemView> {
    match s {
        Some(t) => with_value(m, name, key, ValueView::Text(t)),
        None => without_key(with_section(m, name), name, key),
    }
}

/// `m` with the profile of the `[api]` section.
pub open spec fn with_api(m: Map<Seq<char>, ItemView>, s: SpecView) -> Map<Seq<char>, ItemView> {
    let m = with_text(m, "api"@, "provider"@, s.provider);
    let m = with_text(m, "api"@, "endpoint"@, s.endpoint);
    let m = with_text(m, "api"@, "model"@, s.model);
    let m = with_text(m, "api"@, "api_key"@, s.api_key);
    let m = with_text(m, "api"@, "auth_file"@, s.auth_file);
    with_text(m, "api"@, "thinking_control"@, s.thinking_control)
}

/// `m` without a profile in the `[api]` section.
pub open spec fn without_api(m: Map<Seq<char>, ItemView>) -> Map<Seq<char>, ItemView> {
    if toml_doc::is_section(m, "api"@) {
        let m = without_key(m, "api"@, "provider"@);
        let m = without_key(m, "api"@, "endpoint"@);
        let m = without_key(m, "api"@, "model"@);
        let m = without_key(m, "api"@, "api_key"@);
        let m = without_key(m, "api"@, "auth_file"@);
        without_key(m, "api"@, "thinking_control"@)
    } else {
        m
    }
}

/// The first profile from `from` on that belongs into the `[api]` section.
pub open spec fn api_from(v: Seq<SpecView>, from: int) -> Option<int>
    decreases v.len() - from,
{
    if from < 0 || from >= v.len() {
        None
    } else if v[from].from_api_section {
        Some(from)
    } else {
        api_from(v, from + 1)
    }
}

/// An entry of a table that holds a value as it was made.
pub open spec fn plain(v: ValueView) -> EntryView {
    EntryView::Value(v, None)
}

/// `t` with a text under `key`, where there is one.
pub open spec fn with_optional(
    t: Map<Seq<char>, EntryView>,
    key: Seq<char>,
    s: Option<Seq<char>>,
) -> Map<Seq<char>, EntryView> {
    match s {
        Some(v) => t.insert(key, plain(ValueView::Text(v))),
        None => t,
    }
}

/// `t` with a number under `key`, where there is one.
pub open spec fn with_number(
    t: Map<Seq<char>, EntryView>,
    key: Seq<char>,
    n: Option<u32>,
) -> Map<Seq<char>, EntryView> {
    match n {
        Some(v) => t.insert(key, plain(ValueView::Int(v as int))),
        None => t,
    }
}

/// The headers by name; of two of one name the later counts.
pub open spec fn header_map(v: Seq<(Seq<char>, Seq<char>)>) -> Map<Seq<char>, EntryView>
    decreases v.len(),
{
    if v.len() == 0 {
        Map::empty()
    } else {
        header_map(v.drop_last()).insert(v.last().0, plain(ValueView::Text(v.last().1)))
    }
}

/// `t` with headers, where there are any.
pub open spec fn with_headers(
    t: Map<Seq<char>, EntryView>,
    v: Seq<(Seq<char>, Seq<char>)>,
) -> Map<Seq<char>, EntryView> {
    if v.len() == 0 {
        t
    } else {
        t.insert("headers"@, EntryView::Table(header_map(v)))
    }
}

/// The table of a further profile.
pub open spec fn profile_table(s: SpecView) -> Map<Seq<char>, EntryView> {
    let t = Map::empty().insert("name"@, plain(ValueView::Text(s.name)));
    let t = with_optional(t, "provider"@, s.provider);
    let t = with_optional(t, "endpoint"@, s.endpoint);
    let t = with_optional(t, "model"@, s.model);
    let t = with_optional(t, "api_key"@, s.api_key);
    let t = with_optional(t, "auth_file"@, s.auth_file);
    let t = with_number(t, "max_tokens"@, s.max_tokens);
    let t = with_number(t, "token_budget"@, s.token_budget);
    let t = with_optional(t, "thinking_control"@, s.thinking_control);
    with_headers(t, s.headers)
}

/// The tables of the profiles that do not belong into the `[api]` section.
pub open spec fn further_tables(v: Seq<SpecView>) -> Seq<Map<Seq<char>, EntryView>>
    decreases v.len(),
{
    if v.len() == 0 {
        seq![]
    } else if v.last().from_api_section {
        further_tables(v.drop_last())
    } else {
        further_tables(v.drop_last()).push(profile_table(v.last()))
    }
}

/// `m` with these profiles and no others. An empty list says nothing.
pub open spec fn with_profiles(m: Map<Seq<char>, ItemView>, v: Seq<SpecView>) -> Map<
    Seq<char>,
    ItemView,
> {
    if v.len() == 0 {
        m
    } else {
        let m = match api_from(v, 0) {
            Some(i) => with_api(m, v[i]),
            None => without_api(m),
        };
        if further_tables(v).len() == 0 {
            m.remove("models"@)
        } else {
            m.insert("models"@, ItemView::Tables(further_tables(v)))
        }
    }
}

/// The value of a `thinking` key.
pub open spec fn thinking_key(t: ThinkingMode) -> Seq<char> {
    match t {
        ThinkingMode::Think => "think"@,
        ThinkingMode::NoThink => "no_think"@,
    }
}

/// `m` with what is said of thinking in one mode. Where nothing is said, a
/// section that would be left without keys goes too.
pub open spec fn with_thinking(
    m: Map<Seq<char>, ItemView>,
    mode: ProcessMode,
    wish: Option<ThinkingMode>,
) -> Map<Seq<char>, ItemView> {
    let name = mode_section(mode);
    match wish {
        Some(t) => with_value(m, name, "thinking"@, ValueView::Text(thinking_key(t))),
        None => if toml_doc::is_section(m, name) {
            let without = without_key(m, name, "thinking"@);
            if toml_doc::table(without, name) =~= Map::empty() {
                without.remove(name)
            } else {
                without
            }
        } else {
            m
        },
    }
}

/// `m` with what is said of thinking in every mode.
pub open spec fn with_all_thinking(
    m: Map<Seq<char>, ItemView>,
    v: Seq<(ProcessMode, Option<ThinkingMode>)>,
) -> Map<Seq<char>, ItemView>
    decreases v.len(),
{
    if v.len() == 0 {
        m
    } else {
        with_thinking(with_all_thinking(m, v.drop_last()), v.last().0, v.last().1)
    }
}

/// The sections of these modes.
pub open spec fn mode_sections(v: Seq<ProcessMode>) -> Seq<Seq<char>> {
    v.map_values(|m: ProcessMode| mode_section(m))
}

/// `m` with checked settings.
pub open spec fn patched(m: Map<Seq<char>, ItemView>, p: PatchView) -> Map<Seq<char>, ItemView> {
    let m = with_value(m, "languages"@, "primary"@, ValueView::Text(p.primary));
    let m = with_value(m, "languages"@, "secondary"@, ValueView::Text(p.secondary));
    let m = with_value(m, "ui"@, "tabs"@, ValueView::Texts(mode_sections(p.tabs)));
    let m = with_value(m, "ui"@, "single_tap_pinned"@, ValueView::Bool(p.single_tap_pinned));
    let m = with_value(m, "ui"@, "double_tap_pinned"@, ValueView::Bool(p.double_tap_pinned));
    let m = match p.default_model {
        Some(name) => with_value(m, "ui"@, "default_model"@, ValueView::Text(name)),
        None => m,
    };
    let m = with_value(
        m,
        "hotkey"@,
        "double_tap_timeout_ms"@,
        ValueView::Int((p.double_tap_ms as i64) as int),
    );
    let m = with_profiles(m, p.profiles);
    with_all_thinking(m, p.thinking)
}

/// Whether a section can be opened under a name: nothing else stands there, or
/// nothing stands before the name that a header cannot have in it. Here and below,
/// `m` is what the document holds and `l` how it is laid out.
pub open spec fn is_open(m: Map<Seq<char>, ItemView>, l: Seq<Place>, name: Seq<char>) -> bool {
    (m.dom().contains(name) ==> m[name] is Table) || toml_doc::is_clear(l, name)
}

/// Whether checked settings are written into the section `name`, which is opened
/// where it is missing.
pub open spec fn opens(p: PatchView, name: Seq<char>) -> bool {
    ||| name == "languages"@
    ||| name == "ui"@
    ||| name == "hotkey"@
    ||| name == "api"@ && api_from(p.profiles, 0) is Some
    ||| exists|i: int|
        0 <= i < p.thinking.len() && (#[trigger] p.thinking[i]).1 is Some && mode_section(
            p.thinking[i].0,
        ) == name
}

/// Whether every section for checked settings can be opened.
pub open spec fn has_room(m: Map<Seq<char>, ItemView>, l: Seq<Place>, p: PatchView) -> bool {
    forall|name: Seq<char>| opens(p, name) ==> #[trigger] is_open(m, l, name)
}

/// Whether every section that can be opened in one document can be opened in
/// another; that of the further profiles aside.
spec fn as_open(
    m: Map<Seq<char>, ItemView>,
    l: Seq<Place>,
    n: Map<Seq<char>, ItemView>,
    k: Seq<Place>,
) -> bool {
    forall|name: Seq<char>|
        name != "models"@ && is_open(m, l, name) ==> #[trigger] is_open(n, k, name)
}

/// The layout with a section called `name`, in the place of anything else of the
/// name.
pub open spec fn laid_section(
    m: Map<Seq<char>, ItemView>,
    l: Seq<Place>,
    name: Seq<char>,
) -> Seq<Place> {
    if toml_doc::is_section(m, name) {
        l
    } else {
        toml_doc::with_body(l, name, true, toml_doc::new_section())
    }
}

/// The layout with a value in a section: in the line where a value was, and
/// otherwise as something new.
pub open spec fn laid_value(
    m: Map<Seq<char>, ItemView>,
    l: Seq<Place>,
    name: Seq<char>,
    key: Seq<char>,
) -> Seq<Place> {
    let there = laid_section(m, l, name);
    let lines = toml_doc::lines(there, name);
    toml_doc::with_lines(
        there,
        name,
        if toml_doc::holds_value(with_section(m, name), name, key) {
            toml_doc::respelled(lines, key, None)
        } else {
            toml_doc::with_line(lines, key, None)
        },
    )
}

/// The layout without a key of a section.
pub open spec fn laid_without(l: Seq<Place>, name: Seq<char>, key: Seq<char>) -> Seq<Place> {
    toml_doc::with_lines(l, name, toml_doc::without_line(toml_doc::lines(l, name), key))
}

/// The layout with a text in a section, or without the key.
pub open spec fn laid_text(
    m: Map<Seq<char>, ItemView>,
    l: Seq<Place>,
    name: Seq<char>,
    key: Seq<char>,
    s: Option<Seq<char>>,
) -> Seq<Place> {
    match s {
        Some(_) => laid_value(m, l, name, key),
        None => laid_without(laid_section(m, l, name), name, key),
    }
}

/// The layout with the profile of the `[api]` section.
pub open spec fn laid_api(m: Map<Seq<char>, ItemView>, l: Seq<Place>, s: SpecView) -> Seq<Place> {
    let l = laid_text(m, l, "api"@, "provider"@, s.provider);
    let m = with_text(m, "api"@, "provider"@, s.provider);
    let l = laid_text(m, l, "api"@, "endpoint"@, s.endpoint);
    let m = with_text(m, "api"@, "endpoint"@, s.endpoint);
    let l = laid_text(m, l, "api"@, "model"@, s.model);
    let m = with_text(m, "api"@, "model"@, s.model);
    let l = laid_text(m, l, "api"@, "api_key"@, s.api_key);
    let m = with_text(m, "api"@, "api_key"@, s.api_key);
    let l = laid_text(m, l, "api"@, "auth_file"@, s.auth_file);
    let m = with_text(m, "api"@, "auth_file"@, s.auth_file);
    laid_text(m, l, "api"@, "thinking_control"@, s.thinking_control)
}

/// The layout without a profile in the `[api]` section.
pub open spec fn laid_without_api(m: Map<Seq<char>, ItemView>, l: Seq<Place>) -> Seq<Place> {
    if toml_doc::is_section(m, "api"@) {
        let l = laid_without(l, "api"@, "provider"@);
        let l = laid_without(l, "api"@, "endpoint"@);
        let l = laid_without(l, "api"@, "model"@);
        let l = laid_without(l, "api"@, "api_key"@);
        let l = laid_without(l, "api"@, "auth_file"@);
        laid_without(l, "api"@, "thinking_control"@)
    } else {
        l
    }
}

/// The layout with these profiles and no others.
pub open spec fn laid_profiles(
    m: Map<Seq<char>, ItemView>,
    l: Seq<Place>,
    v: Seq<SpecView>,
) -> Seq<Place> {
    if v.len() == 0 {
        l
    } else {
        let l = match api_from(v, 0) {
            Some(i) => laid_api(m, l, v[i]),
            None => laid_without_api(m, l),
        };
        if further_tables(v).len() == 0 {
            toml_doc::without_place(l, "models"@)
        } else {
            toml_doc::with_body(l, "models"@, false, Body::Plain)
        }
    }
}

/// The layout with what is said of thinking in one mode.
pub open spec fn laid_thinking(
    m: Map<Seq<char>, ItemView>,
    l: Seq<Place>,
    mode: ProcessMode,
    wish: Option<ThinkingMode>,
) -> Seq<Place> {
    let name = mode_section(mode);
    match wish {
        Some(_) => laid_value(m, l, name, "thinking"@),
        None => if toml_doc::is_section(m, name) {
            let l = laid_without(l, name, "thinking"@);
            if toml_doc::table(without_key(m, name, "thinking"@), name) =~= Map::empty() {
                toml_doc::without_place(l, name)
            } else {
                l
            }
        } else {
            l
        },
    }
}

/// The layout with what is said of thinking in every mode.
pub open spec fn laid_all_thinking(
    m: Map<Seq<char>, ItemView>,
    l: Seq<Place>,
    v: Seq<(ProcessMode, Option<ThinkingMode>)>,
) -> Seq<Place>
    decreases v.len(),
{
    if v.len() == 0 {
        l
    } else {
        laid_thinking(
            with_all_thinking(m, v.drop_last()),
            laid_all_thinking(m, l, v.drop_last()),
            v.last().0,
            v.last().1,
        )
    }
}

/// The layout with checked settings, up to the profiles.
pub open spec fn laid_before_profiles(
    m: Map<Seq<char>, ItemView>,
    l: Seq<Place>,
    p: PatchView,
) -> Seq<Place> {
    let l = laid_value(m, l, "languages"@, "primary"@);
    let m = with_value(m, "languages"@, "primary"@, ValueView::Text(p.primary));
    let l = laid_value(m, l, "languages"@, "secondary"@);
    let m = with_value(m, "languages"@, "secondary"@, ValueView::Text(p.secondary));
    let l = laid_value(m, l, "ui"@, "tabs"@);
    let m = with_value(m, "ui"@, "tabs"@, ValueView::Texts(mode_sections(p.tabs)));
    let l = laid_value(m, l, "ui"@, "single_tap_pinned"@);
    let m = with_value(m, "ui"@, "single_tap_pinned"@, ValueView::Bool(p.single_tap_pinned));
    let l = laid_value(m, l, "ui"@, "double_tap_pinned"@);
    let m = with_value(m, "ui"@, "double_tap_pinned"@, ValueView::Bool(p.double_tap_pinned));
    let l = match p.default_model {
        Some(_) => laid_value(m, l, "ui"@, "default_model"@),
        None => l,
    };
    let m = match p.default_model {
        Some(name) => with_value(m, "ui"@, "default_model"@, ValueView::Text(name)),
        None => m,
    };
    laid_value(m, l, "hotkey"@, "double_tap_timeout_ms"@)
}

/// The layout with checked settings.
pub open spec fn relaid(m: Map<Seq<char>, ItemView>, l: Seq<Place>, p: PatchView) -> Seq<Place> {
    let before = before_profiles(m, p);
    let l = laid_profiles(before, laid_before_profiles(m, l, p), p.profiles);
    laid_all_thinking(with_profiles(before, p.profiles), l, p.thinking)
}

/// What is done with one name leaves the others as they are set.
proof fn lemma_set_of(l: Seq<Place>, k: Seq<Place>, name: Seq<char>, set: bool, body: Body, v: Seq<Line>)
    requires
        k == toml_doc::with_body(l, name, set, body) || k == toml_doc::without_place(l, name) || k
            == toml_doc::with_lines(l, name, v),
    ensures
        forall|n: Seq<char>|
            n != name ==> #[trigger] toml_doc::set_of(k, n) == toml_doc::set_of(l, n),
{
    lemma_place_from(l, name, 0);
    assert forall|n: Seq<char>| n != name implies #[trigger] toml_doc::set_of(k, n)
        == toml_doc::set_of(l, n) by {
        lemma_place_from(l, n, 0);
        lemma_place_from(k, n, 0);
        match toml_doc::place(l, n) {
            Some(i) => {
                let j = if k.len() < l.len() && toml_doc::place(l, name)->0 < i {
                    i - 1
                } else {
                    i
                };
                assert(k[j].name == n && k[j].set == l[i].set);
                lemma_place_is(k, n, 0, j);
            },
            None => {},
        }
    }
}

proof fn lemma_open_section(m: Map<Seq<char>, ItemView>, l: Seq<Place>, name: Seq<char>)
    ensures
        as_open(
            m,
            l,
            m.insert(name, ItemView::Table(Map::empty())),
            toml_doc::with_body(l, name, true, toml_doc::new_section()),
        ),
{
    let n = m.insert(name, ItemView::Table(Map::empty()));
    let k = toml_doc::with_body(l, name, true, toml_doc::new_section());
    lemma_set_of(l, k, name, true, toml_doc::new_section(), Seq::empty());
    assert forall|x: Seq<char>| x != "models"@ && is_open(m, l, x) implies #[trigger] is_open(
        n,
        k,
        x,
    ) by {
        if x != name {
            assert(toml_doc::set_of(k, x) == toml_doc::set_of(l, x));
        }
    }
}

/// A change to the lines of a section leaves the names as open as they are.
proof fn lemma_open_lines(
    m: Map<Seq<char>, ItemView>,
    l: Seq<Place>,
    n: Map<Seq<char>, ItemView>,
    k: Seq<Place>,
    name: Seq<char>,
)
    requires
        exists|v: Seq<Line>| k == #[trigger] toml_doc::with_lines(l, name, v),
        n.dom().contains(name) ==> n[name] is Table,
        forall|x: Seq<char>| x != name ==> same_item(m, n, x),
    ensures
        as_open(m, l, n, k),
{
    let v = choose|v: Seq<Line>| k == #[trigger] toml_doc::with_lines(l, name, v);
    lemma_set_of(l, k, name, true, Body::Plain, v);
    assert forall|x: Seq<char>| x != "models"@ && is_open(m, l, x) implies #[trigger] is_open(
        n,
        k,
        x,
    ) by {
        if x != name {
            assert(same_item(m, n, x));
            assert(toml_doc::set_of(k, x) == toml_doc::set_of(l, x));
        }
    }
}

proof fn lemma_as_open(
    a: Map<Seq<char>, ItemView>,
    la: Seq<Place>,
    b: Map<Seq<char>, ItemView>,
    lb: Seq<Place>,
    c: Map<Seq<char>, ItemView>,
    lc: Seq<Place>,
)
    requires
        as_open(a, la, b, lb),
        as_open(b, lb, c, lc),
    ensures
        as_open(a, la, c, lc),
{
    assert forall|x: Seq<char>| x != "models"@ && is_open(a, la, x) implies #[trigger] is_open(
        c,
        lc,
        x,
    ) by {
        assert(is_open(b, lb, x));
    }
}

fn section(doc: &mut toml_edit::DocumentMut, name: &str)
    ensures
        toml_doc::items(*final(doc)) == with_section(toml_doc::items(*old(doc)), name@),
        toml_doc::layout(*final(doc)) == laid_section(
            toml_doc::items(*old(doc)),
            toml_doc::layout(*old(doc)),
            name@,
        ),
        toml_doc::is_section(toml_doc::items(*final(doc)), name@),
        as_open(
            toml_doc::items(*old(doc)),
            toml_doc::layout(*old(doc)),
            toml_doc::items(*final(doc)),
            toml_doc::layout(*final(doc)),
        ),
        toml_doc::is_tidy(*old(doc)) && is_open(
            toml_doc::items(*old(doc)),
            toml_doc::layout(*old(doc)),
            name@,
        ) ==> toml_doc::is_tidy(*final(doc)),
{
    let ghost (m, l) = (toml_doc::items(*doc), toml_doc::layout(*doc));
    if !toml_doc::has_section(doc, name) {
        toml_doc::put_section(doc, name);
        proof {
            lemma_open_section(m, l, name@);
        }
    }
}

fn set_scalar(doc: &mut toml_edit::DocumentMut, name: &str, key: &str, value: TomlValue)
    ensures
        toml_doc::items(*final(doc)) == with_value(
            toml_doc::items(*old(doc)),
            name@,
            key@,
            value@,
        ),
        toml_doc::layout(*final(doc)) == laid_value(
            toml_doc::items(*old(doc)),
            toml_doc::layout(*old(doc)),
            name@,
            key@,
        ),
        toml_doc::is_section(toml_doc::items(*final(doc)), name@),
        as_open(
            toml_doc::items(*old(doc)),
            toml_doc::layout(*old(doc)),
            toml_doc::items(*final(doc)),
            toml_doc::layout(*final(doc)),
        ),
        toml_doc::is_tidy(*old(doc)) && is_open(
            toml_doc::items(*old(doc)),
            toml_doc::layout(*old(doc)),
            name@,
        ) ==> toml_doc::is_tidy(*final(doc)),
{
    let ghost (m, l) = (toml_doc::items(*doc), toml_doc::layout(*doc));
    section(doc, name);
    let ghost (n, k) = (toml_doc::items(*doc), toml_doc::layout(*doc));
    let new = toml_doc::value(&value);
    if toml_doc::has_value(doc, name, key) {
        toml_doc::replace_value(doc, name, key, new);
    } else {
        toml_doc::insert_value(doc, name, key, new);
    }
    proof {
        lemma_open_lines(n, k, toml_doc::items(*doc), toml_doc::layout(*doc), name@);
        lemma_as_open(m, l, n, k, toml_doc::items(*doc), toml_doc::layout(*doc));
    }
}

fn set_optional(doc: &mut toml_edit::DocumentMut, name: &str, key: &str, value: &Option<String>)
    ensures
        toml_doc::items(*final(doc)) == with_text(
            toml_doc::items(*old(doc)),
            name@,
            key@,
            config::text_view(*value),
        ),
        toml_doc::layout(*final(doc)) == laid_text(
            toml_doc::items(*old(doc)),
            toml_doc::layout(*old(doc)),
            name@,
            key@,
            config::text_view(*value),
        ),
        toml_doc::is_section(toml_doc::items(*final(doc)), name@),
        as_open(
            toml_doc::items(*old(doc)),
            toml_doc::layout(*old(doc)),
            toml_doc::items(*final(doc)),
            toml_doc::layout(*final(doc)),
        ),
        toml_doc::is_tidy(*old(doc)) && is_open(
            toml_doc::items(*old(doc)),
            toml_doc::layout(*old(doc)),
            name@,
        ) ==> toml_doc::is_tidy(*final(doc)),
{
    match value {
        Some(s) => set_scalar(doc, name, key, TomlValue::Text(s.clone())),
        None => {
            section(doc, name);
            drop_key(doc, name, key);
        },
    }
}

fn drop_key(doc: &mut toml_edit::DocumentMut, name: &str, key: &str)
    requires
        toml_doc::is_section(toml_doc::items(*old(doc)), name@),
    ensures
        toml_doc::items(*final(doc)) == without_key(toml_doc::items(*old(doc)), name@, key@),
        toml_doc::layout(*final(doc)) == laid_without(
            toml_doc::layout(*old(doc)),
            name@,
            key@,
        ),
        as_open(
            toml_doc::items(*old(doc)),
            toml_doc::layout(*old(doc)),
            toml_doc::items(*final(doc)),
            toml_doc::layout(*final(doc)),
        ),
        toml_doc::is_tidy(*old(doc)) ==> toml_doc::is_tidy(*final(doc)),
{
    let ghost (m, l) = (toml_doc::items(*doc), toml_doc::layout(*doc));
    toml_doc::remove_key(doc, name, key);
    proof {
        lemma_open_lines(m, l, toml_doc::items(*doc), toml_doc::layout(*doc), name@);
    }
}

fn write_text(table: &mut toml_edit::Table, key: &str, value: &Option<String>)
    ensures
        toml_doc::entries(*final(table)) == with_optional(
            toml_doc::entries(*old(table)),
            key@,
            config::text_view(*value),
        ),
        toml_doc::is_plain(*old(table)) ==> toml_doc::is_plain(*final(table)),
{
    if let Some(s) = value {
        let new = toml_doc::value(&TomlValue::Text(s.clone()));
        toml_doc::put_value(table, key, new);
    }
}

fn write_number(table: &mut toml_edit::Table, key: &str, value: Option<u32>)
    ensures
        toml_doc::entries(*final(table)) == with_number(
            toml_doc::entries(*old(table)),
            key@,
            value,
        ),
        toml_doc::is_plain(*old(table)) ==> toml_doc::is_plain(*final(table)),
{
    if let Some(n) = value {
        let new = toml_doc::value(&TomlValue::Int(n as i64));
        toml_doc::put_value(table, key, new);
    }
}

fn write_headers(table: &mut toml_edit::Table, headers: &Vec<(String, String)>)
    ensures
        toml_doc::entries(*final(table)) == with_headers(
            toml_doc::entries(*old(table)),
            config::pairs_view(headers@),
        ),
        toml_doc::is_plain(*old(table)) ==> toml_doc::is_plain(*final(table)),
{
    if headers.len() == 0 {
        return ;
    }
    let ghost pairs = config::pairs_view(headers@);
    let mut inner = toml_doc::new_table();
    assert(toml_doc::entries(inner) =~= Map::empty());
    let mut i: usize = 0;
    assert(pairs.take(0) =~= seq![]);
    while i < headers.len()
        invariant
            i <= headers@.len(),
            pairs == config::pairs_view(headers@),
            toml_doc::entries(inner) == header_map(pairs.take(i as int)),
            toml_doc::is_plain(inner),
        decreases headers.len() - i,
    {
        assert(pairs.take(i + 1).drop_last() =~= pairs.take(i as int));
        let new = toml_doc::value(&TomlValue::Text(headers[i].1.clone()));
        toml_doc::put_value(&mut inner, headers[i].0.as_str(), new);
        i += 1;
    }
    assert(pairs.take(i as int) =~= pairs);
    toml_doc::put_table(table, "headers", inner);
}

fn table_of(spec: &ModelSpec) -> (r: toml_edit::Table)
    ensures
        toml_doc::entries(r) == profile_table(spec@),
        toml_doc::is_plain(r),
{
    let mut table = toml_doc::new_table();
    assert(toml_doc::entries(table) =~= Map::empty());
    let name = toml_doc::value(&TomlValue::Text(spec.name.clone()));
    toml_doc::put_value(&mut table, "name", name);
    write_text(&mut table, "provider", &spec.provider);
    write_text(&mut table, "endpoint", &spec.endpoint);
    write_text(&mut table, "model", &spec.model);
    write_text(&mut table, "api_key", &spec.api_key);
    write_text(&mut table, "auth_file", &spec.auth_file);
    write_number(&mut table, "max_tokens", spec.max_tokens);
    write_number(&mut table, "token_budget", spec.token_budget);
    write_text(&mut table, "thinking_control", &spec.thinking_control);
    write_headers(&mut table, &spec.headers);
    table
}

fn remove_api_profile(doc: &mut toml_edit::DocumentMut)
    ensures
        toml_doc::items(*final(doc)) == without_api(toml_doc::items(*old(doc))),
        toml_doc::layout(*final(doc)) == laid_without_api(
            toml_doc::items(*old(doc)),
            toml_doc::layout(*old(doc)),
        ),
        as_open(
            toml_doc::items(*old(doc)),
            toml_doc::layout(*old(doc)),
            toml_doc::items(*final(doc)),
            toml_doc::layout(*final(doc)),
        ),
        toml_doc::is_tidy(*old(doc)) ==> toml_doc::is_tidy(*final(doc)),
{
    if toml_doc::has_section(doc, "api") {
        drop_key(doc, "api", "provider");
        drop_key(doc, "api", "endpoint");
        drop_key(doc, "api", "model");
        drop_key(doc, "api", "api_key");
        drop_key(doc, "api", "auth_file");
        drop_key(doc, "api", "thinking_control");
    }
}

fn find_api(v: &Vec<ModelSpec>) -> (r: Option<usize>)
    ensures
        match r {
            Some(i) => api_from(config::specs_view(v@), 0) == Some(i as int) && i < v@.len(),
            None => api_from(config::specs_view(v@), 0) is None,
        },
{
    let mut i: usize = 0;
    while i < v.len()
        invariant
            i <= v@.len(),
            api_from(config::specs_view(v@), 0) == api_from(config::specs_view(v@), i as int),
        decreases v.len() - i,
    {
        if v[i].from_api_section {
            return Some(i);
        }
        i += 1;
    }
    None
}

/// Writes the profiles: the one of the `[api]` section in place, and the
/// others as new tables.
fn apply_profiles(doc: &mut toml_edit::DocumentMut, profiles: &Vec<ModelSpec>)
    ensures
        toml_doc::items(*final(doc)) == with_profiles(
            toml_doc::items(*old(doc)),
            config::specs_view(profiles@),
        ),
        toml_doc::layout(*final(doc)) == laid_profiles(
            toml_doc::items(*old(doc)),
            toml_doc::layout(*old(doc)),
            config::specs_view(profiles@),
        ),
        as_open(
            toml_doc::items(*old(doc)),
            toml_doc::layout(*old(doc)),
            toml_doc::items(*final(doc)),
            toml_doc::layout(*final(doc)),
        ),
        toml_doc::is_tidy(*old(doc)) && (api_from(config::specs_view(profiles@), 0) is Some
            ==> is_open(toml_doc::items(*old(doc)), toml_doc::layout(*old(doc)), "api"@))
            ==> toml_doc::is_tidy(*final(doc)),
{
    if profiles.len() == 0 {
        return ;
    }
    let ghost all = config::specs_view(profiles@);
    match find_api(profiles) {
        Some(i) => {
            let api = &profiles[i];
            set_optional(doc, "api", "provider", &api.provider);
            set_optional(doc, "api", "endpoint", &api.endpoint);
            set_optional(doc, "api", "model", &api.model);
            set_optional(doc, "api", "api_key", &api.api_key);
            set_optional(doc, "api", "auth_file", &api.auth_file);
            set_optional(doc, "api", "thinking_control", &api.thinking_control);
        },
        None => remove_api_profile(doc),
    }
    let ghost start = toml_doc::items(*doc);
    let ghost laid = toml_doc::layout(*doc);
    let ghost tidy = toml_doc::is_tidy(*doc);
    let mut any = false;
    let mut i: usize = 0;
    assert(all.take(0) =~= seq![]);
    while i < profiles.len()
        invariant
            i <= profiles@.len(),
            all == config::specs_view(profiles@),
            any == (further_tables(all.take(i as int)).len() > 0),
            tidy ==> toml_doc::is_tidy(*doc),
            toml_doc::layout(*doc) == if any {
                toml_doc::with_body(laid, "models"@, false, Body::Plain)
            } else {
                laid
            },
            toml_doc::items(*doc) == if any {
                start.insert("models"@, ItemView::Tables(further_tables(all.take(i as int))))
            } else {
                start
            },
        decreases profiles.len() - i,
    {
        assert(all.take(i + 1).drop_last() =~= all.take(i as int));
        if !profiles[i].from_api_section {
            if !any {
                toml_doc::put_tables(doc, "models");
                any = true;
            }
            assert(toml_doc::tables(toml_doc::items(*doc), "models"@) =~= further_tables(
                all.take(i as int),
            ));
            proof {
                lemma_are_plain(laid, "models"@);
            }
            toml_doc::push_table(doc, "models", table_of(&profiles[i]));
            assert(toml_doc::items(*doc) =~= start.insert(
                "models"@,
                ItemView::Tables(further_tables(all.take(i + 1))),
            ));
        }
        i += 1;
    }
    assert(all.take(i as int) =~= all);
    if !any {
        toml_doc::remove_item(doc, "models");
    }
    proof {
        let k = toml_doc::layout(*doc);
        lemma_set_of(laid, k, "models"@, false, Body::Plain, Seq::empty());
        assert forall|x: Seq<char>|
            x != "models"@ && is_open(start, laid, x) implies #[trigger] is_open(
            toml_doc::items(*doc),
            k,
            x,
        ) by {
            assert(toml_doc::set_of(k, x) == toml_doc::set_of(laid, x));
        }
    }
}

proof fn lemma_place_from(l: Seq<Place>, name: Seq<char>, from: int)
    requires
        0 <= from,
    ensures
        toml_doc::place_from(l, name, from) matches Some(i) ==> from <= i < l.len() && l[i].name
            == name && forall|j: int| from <= j < i ==> (#[trigger] l[j]).name != name,
        toml_doc::place_from(l, name, from) is None ==> forall|j: int|
            from <= j < l.len() ==> (#[trigger] l[j]).name != name,
    decreases l.len() - from,
{
    if from < l.len() && l[from].name != name {
        lemma_place_from(l, name, from + 1);
    }
}

proof fn lemma_place_is(l: Seq<Place>, name: Seq<char>, from: int, i: int)
    requires
        0 <= from <= i < l.len(),
        l[i].name == name,
        forall|j: int| from <= j < i ==> (#[trigger] l[j]).name != name,
    ensures
        toml_doc::place_from(l, name, from) == Some(i),
    decreases i - from,
{
    if from < i {
        lemma_place_is(l, name, from + 1, i);
    }
}

proof fn lemma_are_plain(l: Seq<Place>, name: Seq<char>)
    ensures
        toml_doc::are_plain(toml_doc::with_body(l, name, false, Body::Plain), name),
{
    lemma_place_from(l, name, 0);
    let after = toml_doc::with_body(l, name, false, Body::Plain);
    match toml_doc::place(l, name) {
        Some(i) => lemma_place_is(after, name, 0, i),
        None => lemma_place_is(after, name, 0, l.len() as int),
    }
}

fn set_thinking(doc: &mut toml_edit::DocumentMut, mode: ProcessMode, wish: Option<ThinkingMode>)
    ensures
        toml_doc::items(*final(doc)) == with_thinking(toml_doc::items(*old(doc)), mode, wish),
        toml_doc::layout(*final(doc)) == laid_thinking(
            toml_doc::items(*old(doc)),
            toml_doc::layout(*old(doc)),
            mode,
            wish,
        ),
        as_open(
            toml_doc::items(*old(doc)),
            toml_doc::layout(*old(doc)),
            toml_doc::items(*final(doc)),
            toml_doc::layout(*final(doc)),
        ),
        toml_doc::is_tidy(*old(doc)) && (wish is Some ==> is_open(
            toml_doc::items(*old(doc)),
            toml_doc::layout(*old(doc)),
            mode_section(mode),
        )) ==> toml_doc::is_tidy(*final(doc)),
{
    let name = mode_key(mode);
    match wish {
        Some(t) => {
            let key = match t {
                ThinkingMode::Think => "think",
                ThinkingMode::NoThink => "no_think",
            };
            set_scalar(doc, name.as_str(), "thinking", TomlValue::Text(key.to_owned()));
        },
        None => {
            if toml_doc::has_section(doc, name.as_str()) {
                drop_key(doc, name.as_str(), "thinking");
                if toml_doc::section_is_empty(doc, name.as_str()) {
                    let ghost (m, l) = (toml_doc::items(*doc), toml_doc::layout(*doc));
                    toml_doc::remove_item(doc, name.as_str());
                    proof {
                        let k = toml_doc::layout(*doc);
                        lemma_set_of(l, k, name@, false, Body::Plain, Seq::empty());
                        assert forall|x: Seq<char>|
                            x != "models"@ && is_open(m, l, x) implies #[trigger] is_open(
                            toml_doc::items(*doc),
                            k,
                            x,
                        ) by {
                            if x != name@ {
                                assert(toml_doc::set_of(k, x) == toml_doc::set_of(l, x));
                            }
                        }
                    }
                }
            }
        },
    }
}

/// Writes checked settings into a document: the keys that the panel owns, and
/// nothing else.
pub fn apply_patch(doc: &mut toml_edit::DocumentMut, patch: &SettingsPatch)
    ensures
        toml_doc::items(*final(doc)) == patched(toml_doc::items(*old(doc)), patch@),
        toml_doc::layout(*final(doc)) == relaid(
            toml_doc::items(*old(doc)),
            toml_doc::layout(*old(doc)),
            patch@,
        ),
        toml_doc::is_tidy(*old(doc)) && has_room(
            toml_doc::items(*old(doc)),
            toml_doc::layout(*old(doc)),
            patch@,
        ) ==> toml_doc::is_tidy(*final(doc)),
{
    let ghost (first, l1) = (toml_doc::items(*doc), toml_doc::layout(*doc));
    let ghost fine = toml_doc::is_tidy(*doc) && has_room(first, l1, patch@);
    proof {
        lemma_names();
        assert(opens(patch@, "languages"@) && opens(patch@, "ui"@) && opens(patch@, "hotkey"@));
        assert(fine ==> is_open(first, l1, "languages"@) && is_open(first, l1, "ui"@) && is_open(
            first,
            l1,
            "hotkey"@,
        ));
    }
    set_scalar(doc, "languages", "primary", TomlValue::Text(patch.primary.clone()));
    set_scalar(doc, "languages", "secondary", TomlValue::Text(patch.secondary.clone()));
    let mut keys: Vec<String> = Vec::new();
    let ghost wanted = mode_sections(patch.tabs@);
    assert(keys@.map_values(|s: String| s@) =~= wanted.take(0));
    let mut i: usize = 0;
    while i < patch.tabs.len()
        invariant
            i <= patch.tabs@.len(),
            wanted == mode_sections(patch.tabs@),
            keys@.map_values(|s: String| s@) == wanted.take(i as int),
        decreases patch.tabs.len() - i,
    {
        let ghost before = keys@;
        let key = mode_key(patch.tabs[i]);
        keys.push(key);
        i += 1;
        assert(keys@.map_values(|s: String| s@) =~= before.map_values(|s: String| s@).push(key@));
        assert(wanted.take(i as int) =~= wanted.take(i - 1).push(wanted[i - 1]));
    }
    assert(wanted.take(i as int) =~= wanted);
    let ghost (second, l2) = (toml_doc::items(*doc), toml_doc::layout(*doc));
    assert(as_open(first, l1, second, l2));
    assert(fine ==> is_open(second, l2, "ui"@));
    set_scalar(doc, "ui", "tabs", TomlValue::Texts(keys));
    set_scalar(doc, "ui", "single_tap_pinned", TomlValue::Bool(patch.single_tap_pinned));
    set_scalar(doc, "ui", "double_tap_pinned", TomlValue::Bool(patch.double_tap_pinned));
    if let Some(name) = &patch.default_model {
        set_scalar(doc, "ui", "default_model", TomlValue::Text(name.clone()));
    }
    let ghost (third, l3) = (toml_doc::items(*doc), toml_doc::layout(*doc));
    assert(as_open(second, l2, third, l3));
    assert(fine ==> is_open(second, l2, "hotkey"@) && is_open(third, l3, "hotkey"@));
    set_scalar(
        doc,
        "hotkey",
        "double_tap_timeout_ms",
        TomlValue::Int(
            #[verifier::truncate]
            (patch.double_tap_ms as i64),
        ),
    );
    let ghost (fourth, l4) = (toml_doc::items(*doc), toml_doc::layout(*doc));
    proof {
        assert(as_open(third, l3, fourth, l4));
        lemma_as_open(first, l1, second, l2, third, l3);
        lemma_as_open(first, l1, third, l3, fourth, l4);
        assert(fine && api_from(patch@.profiles, 0) is Some ==> opens(patch@, "api"@) && is_open(
            first,
            l1,
            "api"@,
        ) && is_open(fourth, l4, "api"@));
    }
    apply_profiles(doc, &patch.profiles);
    let ghost start = toml_doc::items(*doc);
    let ghost laid = toml_doc::layout(*doc);
    proof {
        lemma_as_open(first, l1, fourth, l4, start, laid);
    }
    let mut i: usize = 0;
    assert(patch.thinking@.take(0) =~= seq![]);
    while i < patch.thinking.len()
        invariant
            i <= patch.thinking@.len(),
            toml_doc::items(*doc) == with_all_thinking(start, patch.thinking@.take(i as int)),
            toml_doc::layout(*doc) == laid_all_thinking(
                start,
                laid,
                patch.thinking@.take(i as int),
            ),
            as_open(first, l1, toml_doc::items(*doc), toml_doc::layout(*doc)),
            fine ==> has_room(first, l1, patch@) && toml_doc::is_tidy(*doc),
        decreases patch.thinking.len() - i,
    {
        assert(patch.thinking@.take(i + 1).drop_last() =~= patch.thinking@.take(i as int));
        let (mode, wish) = patch.thinking[i];
        let ghost (before, lb) = (toml_doc::items(*doc), toml_doc::layout(*doc));
        proof {
            lemma_names();
            assert(is_mode_section(mode_section(mode)));
            assert(patch@.thinking[i as int] == (mode, wish));
            if fine && wish is Some {
                assert(opens(patch@, mode_section(mode)));
                assert(is_open(first, l1, mode_section(mode)));
                assert(is_open(before, lb, mode_section(mode)));
            }
        }
        set_thinking(doc, mode, wish);
        proof {
            lemma_as_open(
                first,
                l1,
                before,
                lb,
                toml_doc::items(*doc),
                toml_doc::layout(*doc),
            );
        }
        i += 1;
    }
    assert(patch.thinking@.take(i as int) =~= patch.thinking@);
}

/// The text of a configuration file with checked settings written into it: that
/// of the document that the file holds, with the settings in it.
/// `path` only serves to say which file cannot be read.
pub fn patch_text(path: &str, contents: &str, patch: &SettingsPatch) -> (r: Result<String, String>)
    ensures
        match (r, toml_doc::items_of_text(contents@), toml_doc::layout_of_text(contents@)) {
            (Ok(out), Some(m), Some(l)) => {
                &&& exists|doc: toml_edit::DocumentMut|
                    toml_doc::items(doc) == patched(m, patch@) && toml_doc::layout(doc) == relaid(
                        m,
                        l,
                        patch@,
                    ) && out@ == #[trigger] toml_doc::text_of(doc)
                &&& has_room(m, l, patch@) ==> toml_doc::text_says(out@, patched(m, patch@))
            },
            (Err(e), None, None) => e@ == path@ + " is not valid TOML; fix it by hand first"@,
            _ => false,
        },
{
    match toml_doc::parse(contents) {
        Some(parsed) => {
            let mut doc = parsed;
            apply_patch(&mut doc, patch);
            Ok(toml_doc::write(&doc))
        },
        None => {
            let mut v = chars_of(path);
            push_text(&mut v, " is not valid TOML; fix it by hand first");
            Err(string_of(&v))
        },
    }
}

// ---------------------------------------------------------------------------
// What writing keeps and what it changes
// ---------------------------------------------------------------------------

/// What a section holds under a key.
pub open spec fn entry(m: Map<Seq<char>, ItemView>, name: Seq<char>, key: Seq<char>) -> Option<
    EntryView,
> {
    if toml_doc::is_section(m, name) && toml_doc::table(m, name).dom().contains(key) {
        Some(toml_doc::table(m, name)[key])
    } else {
        None
    }
}

/// The value that a section holds under a key.
pub open spec fn value_at(m: Map<Seq<char>, ItemView>, name: Seq<char>, key: Seq<char>) -> Option<
    ValueView,
> {
    match entry(m, name, key) {
        Some(EntryView::Value(v, _)) => Some(v),
        _ => None,
    }
}

/// Whether two documents hold the same under a name.
pub open spec fn same_item(
    a: Map<Seq<char>, ItemView>,
    b: Map<Seq<char>, ItemView>,
    name: Seq<char>,
) -> bool {
    a.dom().contains(name) == b.dom().contains(name) && (a.dom().contains(name) ==> a[name]
        == b[name])
}

/// Whether a name is that of a mode's section.
pub open spec fn is_mode_section(name: Seq<char>) -> bool {
    exists|m: ProcessMode| name == #[trigger] mode_section(m)
}

/// Whether `key` is one of `[api]` that make up its profile.
pub open spec fn is_api_key(key: Seq<char>) -> bool {
    key == "provider"@ || key == "endpoint"@ || key == "model"@ || key == "api_key"@ || key
        == "auth_file"@ || key == "thinking_control"@
}

/// Whether the panel owns a key of a section.
pub open spec fn owned(name: Seq<char>, key: Seq<char>) -> bool {
    ||| name == "languages"@ && (key == "primary"@ || key == "secondary"@)
    ||| name == "ui"@ && (key == "tabs"@ || key == "single_tap_pinned"@ || key
        == "double_tap_pinned"@ || key == "default_model"@)
    ||| name == "hotkey"@ && key == "double_tap_timeout_ms"@
    ||| name == "api"@ && is_api_key(key)
    ||| is_mode_section(name) && key == "thinking"@
}

/// Whether the panel writes into a section or a run of sections.
pub open spec fn touched(name: Seq<char>) -> bool {
    name == "languages"@ || name == "ui"@ || name == "hotkey"@ || name == "api"@ || name
        == "models"@ || is_mode_section(name)
}

/// `b` is `a` but for one key of one section.
spec fn differs_at(
    a: Map<Seq<char>, ItemView>,
    b: Map<Seq<char>, ItemView>,
    name: Seq<char>,
    key: Seq<char>,
) -> bool {
    &&& forall|n: Seq<char>| n != name ==> #[trigger] same_item(a, b, n)
    &&& forall|n: Seq<char>, k: Seq<char>|
        n != name || k != key ==> #[trigger] entry(a, n, k) == entry(b, n, k)
}

proof fn lemma_same_item(
    a: Map<Seq<char>, ItemView>,
    b: Map<Seq<char>, ItemView>,
    n: Seq<char>,
    k: Seq<char>,
)
    requires
        same_item(a, b, n),
    ensures
        entry(a, n, k) == entry(b, n, k),
{
}

proof fn lemma_with_value(
    m: Map<Seq<char>, ItemView>,
    name: Seq<char>,
    key: Seq<char>,
    v: ValueView,
)
    ensures
        differs_at(m, with_value(m, name, key, v), name, key),
        value_at(with_value(m, name, key, v), name, key) == Some(v),
{
    let b = with_value(m, name, key, v);
    assert forall|n: Seq<char>, k: Seq<char>| n != name || k != key implies #[trigger] entry(m, n, k)
        == entry(b, n, k) by {
        if n != name {
            assert(same_item(m, b, n));
        }
    }
}

proof fn lemma_without_key(m: Map<Seq<char>, ItemView>, name: Seq<char>, key: Seq<char>)
    requires
        toml_doc::is_section(m, name),
    ensures
        differs_at(m, without_key(m, name, key), name, key),
        toml_doc::is_section(without_key(m, name, key), name),
        entry(without_key(m, name, key), name, key) is None,
{
    let b = without_key(m, name, key);
    assert forall|n: Seq<char>, k: Seq<char>| n != name || k != key implies #[trigger] entry(m, n, k)
        == entry(b, n, k) by {
        if n != name {
            assert(same_item(m, b, n));
        }
    }
}

proof fn lemma_with_text(
    m: Map<Seq<char>, ItemView>,
    name: Seq<char>,
    key: Seq<char>,
    s: Option<Seq<char>>,
)
    ensures
        differs_at(m, with_text(m, name, key, s), name, key),
        s matches Some(t) ==> value_at(with_text(m, name, key, s), name, key) == Some(
            ValueView::Text(t),
        ),
        s is None ==> entry(with_text(m, name, key, s), name, key) is None,
{
    match s {
        Some(t) => lemma_with_value(m, name, key, ValueView::Text(t)),
        None => {
            let a = with_section(m, name);
            lemma_without_key(a, name, key);
            let b = without_key(a, name, key);
            assert forall|n: Seq<char>| n != name implies #[trigger] same_item(m, b, n) by {
                assert(same_item(a, b, n));
            }
            assert forall|n: Seq<char>, k: Seq<char>| n != name || k
                != key implies #[trigger] entry(m, n, k) == entry(b, n, k) by {
                assert(entry(a, n, k) == entry(b, n, k));
            }
        },
    }
}

proof fn lemma_with_thinking(
    m: Map<Seq<char>, ItemView>,
    mode: ProcessMode,
    wish: Option<ThinkingMode>,
)
    ensures
        differs_at(m, with_thinking(m, mode, wish), mode_section(mode), "thinking"@),
        value_at(with_thinking(m, mode, wish), mode_section(mode), "thinking"@) == match wish {
            Some(t) => Some(ValueView::Text(thinking_key(t))),
            None => None,
        },
        wish is None ==> entry(with_thinking(m, mode, wish), mode_section(mode), "thinking"@)
            is None,
{
    let name = mode_section(mode);
    match wish {
        Some(t) => lemma_with_value(m, name, "thinking"@, ValueView::Text(thinking_key(t))),
        None => {
            let b = with_thinking(m, mode, wish);
            if toml_doc::is_section(m, name) {
                let without = without_key(m, name, "thinking"@);
                lemma_without_key(m, name, "thinking"@);
                assert forall|n: Seq<char>| n != name implies #[trigger] same_item(m, b, n) by {
                    assert(same_item(m, without, n));
                }
                assert forall|n: Seq<char>, k: Seq<char>| n != name || k
                    != "thinking"@ implies #[trigger] entry(m, n, k) == entry(b, n, k) by {
                    assert(entry(m, n, k) == entry(without, n, k));
                    if n == name && toml_doc::table(without, name) =~= Map::empty() {
                        assert(!toml_doc::table(without, name).dom().contains(k));
                    } else if n != name {
                        assert(same_item(without, b, n));
                    }
                }
            }
        },
    }
}

/// `b` is `a` but for keys of `[api]` that make up its profile.
spec fn differs_in_api(a: Map<Seq<char>, ItemView>, b: Map<Seq<char>, ItemView>) -> bool {
    &&& forall|n: Seq<char>| n != "api"@ ==> #[trigger] same_item(a, b, n)
    &&& forall|n: Seq<char>, k: Seq<char>|
        n != "api"@ || !is_api_key(k) ==> #[trigger] entry(a, n, k) == entry(b, n, k)
}

proof fn lemma_differs_in_api(
    a: Map<Seq<char>, ItemView>,
    b: Map<Seq<char>, ItemView>,
    c: Map<Seq<char>, ItemView>,
    key: Seq<char>,
)
    requires
        differs_in_api(a, b),
        differs_at(b, c, "api"@, key),
        is_api_key(key),
    ensures
        differs_in_api(a, c),
{
    assert forall|n: Seq<char>| n != "api"@ implies #[trigger] same_item(a, c, n) by {
        assert(same_item(a, b, n));
        assert(same_item(b, c, n));
    }
    assert forall|n: Seq<char>, k: Seq<char>| n != "api"@ || !is_api_key(
        k,
    ) implies #[trigger] entry(a, n, k) == entry(c, n, k) by {
        assert(entry(a, n, k) == entry(b, n, k));
        assert(entry(b, n, k) == entry(c, n, k));
    }
}

proof fn lemma_with_api(m: Map<Seq<char>, ItemView>, s: SpecView)
    ensures
        differs_in_api(m, with_api(m, s)),
{
    let a = with_text(m, "api"@, "provider"@, s.provider);
    lemma_with_text(m, "api"@, "provider"@, s.provider);
    lemma_differs_in_api(m, m, a, "provider"@);
    let b = with_text(a, "api"@, "endpoint"@, s.endpoint);
    lemma_with_text(a, "api"@, "endpoint"@, s.endpoint);
    lemma_differs_in_api(m, a, b, "endpoint"@);
    let c = with_text(b, "api"@, "model"@, s.model);
    lemma_with_text(b, "api"@, "model"@, s.model);
    lemma_differs_in_api(m, b, c, "model"@);
    let d = with_text(c, "api"@, "api_key"@, s.api_key);
    lemma_with_text(c, "api"@, "api_key"@, s.api_key);
    lemma_differs_in_api(m, c, d, "api_key"@);
    let e = with_text(d, "api"@, "auth_file"@, s.auth_file);
    lemma_with_text(d, "api"@, "auth_file"@, s.auth_file);
    lemma_differs_in_api(m, d, e, "auth_file"@);
    let f = with_text(e, "api"@, "thinking_control"@, s.thinking_control);
    lemma_with_text(e, "api"@, "thinking_control"@, s.thinking_control);
    lemma_differs_in_api(m, e, f, "thinking_control"@);
}

proof fn lemma_without_api(m: Map<Seq<char>, ItemView>)
    ensures
        differs_in_api(m, without_api(m)),
{
    if toml_doc::is_section(m, "api"@) {
        let a = without_key(m, "api"@, "provider"@);
        lemma_without_key(m, "api"@, "provider"@);
        lemma_differs_in_api(m, m, a, "provider"@);
        let b = without_key(a, "api"@, "endpoint"@);
        lemma_without_key(a, "api"@, "endpoint"@);
        lemma_differs_in_api(m, a, b, "endpoint"@);
        let c = without_key(b, "api"@, "model"@);
        lemma_without_key(b, "api"@, "model"@);
        lemma_differs_in_api(m, b, c, "model"@);
        let d = without_key(c, "api"@, "api_key"@);
        lemma_without_key(c, "api"@, "api_key"@);
        lemma_differs_in_api(m, c, d, "api_key"@);
        let e = without_key(d, "api"@, "auth_file"@);
        lemma_without_key(d, "api"@, "auth_file"@);
        lemma_differs_in_api(m, d, e, "auth_file"@);
        let f = without_key(e, "api"@, "thinking_control"@);
        lemma_without_key(e, "api"@, "thinking_control"@);
        lemma_differs_in_api(m, e, f, "thinking_control"@);
    }
}

/// What writing profiles does to the other keys, and to `[[models]]`.
proof fn lemma_with_profiles(m: Map<Seq<char>, ItemView>, v: Seq<SpecView>)
    ensures
        forall|n: Seq<char>|
            n != "api"@ && n != "models"@ ==> #[trigger] same_item(m, with_profiles(m, v), n),
        forall|n: Seq<char>, k: Seq<char>|
            n != "models"@ && (n != "api"@ || !is_api_key(k)) ==> #[trigger] entry(m, n, k)
                == entry(with_profiles(m, v), n, k),
{
    if v.len() > 0 {
        let a = match api_from(v, 0) {
            Some(i) => with_api(m, v[i]),
            None => without_api(m),
        };
        match api_from(v, 0) {
            Some(i) => lemma_with_api(m, v[i]),
            None => lemma_without_api(m),
        }
        let b = with_profiles(m, v);
        assert forall|n: Seq<char>| n != "models"@ implies #[trigger] same_item(a, b, n) by {}
        assert forall|n: Seq<char>| n != "api"@ && n != "models"@ implies #[trigger] same_item(
            m,
            b,
            n,
        ) by {
            assert(same_item(m, a, n));
            assert(same_item(a, b, n));
        }
        assert forall|n: Seq<char>, k: Seq<char>| n != "models"@ && (n != "api"@ || !is_api_key(
            k,
        )) implies #[trigger] entry(m, n, k) == entry(b, n, k) by {
            assert(entry(m, n, k) == entry(a, n, k));
            assert(same_item(a, b, n));
        }
    }
}

proof fn lemma_with_all_thinking(
    m: Map<Seq<char>, ItemView>,
    v: Seq<(ProcessMode, Option<ThinkingMode>)>,
)
    ensures
        forall|n: Seq<char>|
            !is_mode_section(n) ==> #[trigger] same_item(m, with_all_thinking(m, v), n),
        forall|n: Seq<char>, k: Seq<char>|
            !is_mode_section(n) || k != "thinking"@ ==> #[trigger] entry(m, n, k) == entry(
                with_all_thinking(m, v),
                n,
                k,
            ),
    decreases v.len(),
{
    if v.len() > 0 {
        let a = with_all_thinking(m, v.drop_last());
        lemma_with_all_thinking(m, v.drop_last());
        lemma_with_thinking(a, v.last().0, v.last().1);
        let b = with_all_thinking(m, v);
        assert(is_mode_section(mode_section(v.last().0)));
        assert forall|n: Seq<char>| !is_mode_section(n) implies #[trigger] same_item(m, b, n) by {
            assert(same_item(m, a, n));
            assert(same_item(a, b, n));
        }
        assert forall|n: Seq<char>, k: Seq<char>| !is_mode_section(n) || k
            != "thinking"@ implies #[trigger] entry(m, n, k) == entry(b, n, k) by {
            assert(entry(m, n, k) == entry(a, n, k));
            assert(entry(a, n, k) == entry(b, n, k));
        }
    }
}

/// Writing settings leaves every key that the panel does not own as it was,
/// with its value, its spacing and its comment; and everything outside the
/// sections that it writes into.
pub proof fn the_rest_stays(
    m: Map<Seq<char>, ItemView>,
    p: PatchView,
    name: Seq<char>,
    key: Seq<char>,
)
    requires
        name != "models"@,
        !owned(name, key),
    ensures
        entry(patched(m, p), name, key) == entry(m, name, key),
        !touched(name) ==> same_item(m, patched(m, p), name),
{
    let a = with_value(m, "languages"@, "primary"@, ValueView::Text(p.primary));
    lemma_with_value(m, "languages"@, "primary"@, ValueView::Text(p.primary));
    assert(entry(m, name, key) == entry(a, name, key));
    let b = with_value(a, "languages"@, "secondary"@, ValueView::Text(p.secondary));
    lemma_with_value(a, "languages"@, "secondary"@, ValueView::Text(p.secondary));
    assert(entry(a, name, key) == entry(b, name, key));
    let tabs = ValueView::Texts(mode_sections(p.tabs));
    let c = with_value(b, "ui"@, "tabs"@, tabs);
    lemma_with_value(b, "ui"@, "tabs"@, tabs);
    assert(entry(b, name, key) == entry(c, name, key));
    let single = ValueView::Bool(p.single_tap_pinned);
    let d = with_value(c, "ui"@, "single_tap_pinned"@, single);
    lemma_with_value(c, "ui"@, "single_tap_pinned"@, single);
    assert(entry(c, name, key) == entry(d, name, key));
    let double = ValueView::Bool(p.double_tap_pinned);
    let e = with_value(d, "ui"@, "double_tap_pinned"@, double);
    lemma_with_value(d, "ui"@, "double_tap_pinned"@, double);
    assert(entry(d, name, key) == entry(e, name, key));
    let f = match p.default_model {
        Some(n) => with_value(e, "ui"@, "default_model"@, ValueView::Text(n)),
        None => e,
    };
    if let Some(n) = p.default_model {
        lemma_with_value(e, "ui"@, "default_model"@, ValueView::Text(n));
        assert(entry(e, name, key) == entry(f, name, key));
    }
    let ms = ValueView::Int((p.double_tap_ms as i64) as int);
    let g = with_value(f, "hotkey"@, "double_tap_timeout_ms"@, ms);
    lemma_with_value(f, "hotkey"@, "double_tap_timeout_ms"@, ms);
    assert(entry(f, name, key) == entry(g, name, key));
    let h = with_profiles(g, p.profiles);
    lemma_with_profiles(g, p.profiles);
    assert(entry(g, name, key) == entry(h, name, key));
    let i = with_all_thinking(h, p.thinking);
    lemma_with_all_thinking(h, p.thinking);
    assert(entry(h, name, key) == entry(i, name, key));
    if !touched(name) {
        assert(same_item(m, a, name));
        assert(same_item(a, b, name));
        assert(same_item(b, c, name));
        assert(same_item(c, d, name));
        assert(same_item(d, e, name));
        if p.default_model is Some {
            assert(same_item(e, f, name));
        }
        assert(same_item(f, g, name));
        assert(same_item(g, h, name));
        assert(same_item(h, i, name));
    }
}

proof fn lemma_names()
    ensures
        "languages"@ != "ui"@,
        "languages"@ != "hotkey"@,
        "languages"@ != "api"@,
        "languages"@ != "models"@,
        "ui"@ != "hotkey"@,
        "ui"@ != "api"@,
        "ui"@ != "models"@,
        "hotkey"@ != "api"@,
        "hotkey"@ != "models"@,
        "api"@ != "models"@,
        !is_mode_section("languages"@),
        !is_mode_section("ui"@),
        !is_mode_section("hotkey"@),
        !is_mode_section("api"@),
        !is_mode_section("models"@),
        mode_section(ProcessMode::Translate) != mode_section(ProcessMode::Rephrase),
        mode_section(ProcessMode::Translate) != mode_section(ProcessMode::Summarize),
        mode_section(ProcessMode::Rephrase) != mode_section(ProcessMode::Summarize),
{
    reveal_strlit("languages");
    assert("languages"@.len() == 9);
    reveal_strlit("ui");
    assert("ui"@.len() == 2);
    reveal_strlit("hotkey");
    assert("hotkey"@.len() == 6);
    reveal_strlit("api");
    assert("api"@.len() == 3);
    reveal_strlit("models");
    assert("models"@.len() == 6);
    reveal_strlit("Translate");
    assert("Translate"@.len() == 9);
    reveal_strlit("Rephrase");
    assert("Rephrase"@.len() == 8);
    reveal_strlit("Summarize");
    assert("Summarize"@.len() == 9);
    assert("hotkey"@[0] == 'h');
    assert("models"@[0] == 'm');
    assert("languages"@[0] == 'l');
    let a = mode_section(ProcessMode::Translate);
    let b = mode_section(ProcessMode::Rephrase);
    let c = mode_section(ProcessMode::Summarize);
    assert(a.len() == 9 && b.len() == 8 && c.len() == 9);
    assert(a[0] == 't');
    assert(c[0] == 's');
    assert forall|m: ProcessMode| true implies #[trigger] mode_section(m) == a || mode_section(m) == b
        || mode_section(m) == c by {
        match m {
            ProcessMode::Translate => {},
            ProcessMode::Rephrase => {},
            ProcessMode::Summarize => {},
        }
    }
}

proof fn lemma_keys()
    ensures
        "primary"@ != "secondary"@,
        "tabs"@ != "single_tap_pinned"@,
        "tabs"@ != "double_tap_pinned"@,
        "tabs"@ != "default_model"@,
        "single_tap_pinned"@ != "double_tap_pinned"@,
        "single_tap_pinned"@ != "default_model"@,
        "double_tap_pinned"@ != "default_model"@,
{
    reveal_strlit("primary");
    assert("primary"@.len() == 7);
    reveal_strlit("secondary");
    assert("secondary"@.len() == 9);
    reveal_strlit("tabs");
    assert("tabs"@.len() == 4);
    reveal_strlit("single_tap_pinned");
    assert("single_tap_pinned"@.len() == 17);
    reveal_strlit("double_tap_pinned");
    assert("double_tap_pinned"@.len() == 17);
    reveal_strlit("default_model");
    assert("default_model"@.len() == 13);
    assert("single_tap_pinned"@[0] == 's');
    assert("double_tap_pinned"@[0] == 'd');
}

proof fn lemma_api_keys()
    ensures
        "provider"@ != "endpoint"@,
        "provider"@ != "model"@,
        "provider"@ != "api_key"@,
        "provider"@ != "auth_file"@,
        "provider"@ != "thinking_control"@,
        "endpoint"@ != "model"@,
        "endpoint"@ != "api_key"@,
        "endpoint"@ != "auth_file"@,
        "endpoint"@ != "thinking_control"@,
        "model"@ != "api_key"@,
        "model"@ != "auth_file"@,
        "model"@ != "thinking_control"@,
        "api_key"@ != "auth_file"@,
        "api_key"@ != "thinking_control"@,
        "auth_file"@ != "thinking_control"@,
{
    reveal_strlit("provider");
    assert("provider"@.len() == 8);
    reveal_strlit("endpoint");
    assert("endpoint"@.len() == 8);
    reveal_strlit("model");
    assert("model"@.len() == 5);
    reveal_strlit("api_key");
    assert("api_key"@.len() == 7);
    reveal_strlit("auth_file");
    assert("auth_file"@.len() == 9);
    reveal_strlit("thinking_control");
    assert("thinking_control"@.len() == 16);
    assert("provider"@[0] == 'p');
    assert("endpoint"@[0] == 'e');
}

/// Whether a key of `[api]` holds an optional text.
pub open spec fn api_says(
    m: Map<Seq<char>, ItemView>,
    key: Seq<char>,
    s: Option<Seq<char>>,
) -> bool {
    match s {
        Some(t) => value_at(m, "api"@, key) == Some(ValueView::Text(t)),
        None => entry(m, "api"@, key) is None,
    }
}

/// Whether the `[api]` section holds a profile.
pub open spec fn api_holds(m: Map<Seq<char>, ItemView>, s: SpecView) -> bool {
    &&& api_says(m, "provider"@, s.provider)
    &&& api_says(m, "endpoint"@, s.endpoint)
    &&& api_says(m, "model"@, s.model)
    &&& api_says(m, "api_key"@, s.api_key)
    &&& api_says(m, "auth_file"@, s.auth_file)
    &&& api_says(m, "thinking_control"@, s.thinking_control)
}

/// Whether the `[api]` section holds no profile.
pub open spec fn api_is_bare(m: Map<Seq<char>, ItemView>) -> bool {
    forall|k: Seq<char>| is_api_key(k) ==> #[trigger] entry(m, "api"@, k) is None
}

proof fn lemma_api_holds(m: Map<Seq<char>, ItemView>, s: SpecView)
    ensures
        api_holds(with_api(m, s), s),
{
    lemma_api_keys();
    let a = with_text(m, "api"@, "provider"@, s.provider);
    lemma_with_text(m, "api"@, "provider"@, s.provider);
    let b = with_text(a, "api"@, "endpoint"@, s.endpoint);
    lemma_with_text(a, "api"@, "endpoint"@, s.endpoint);
    assert(entry(a, "api"@, "provider"@) == entry(b, "api"@, "provider"@));
    let c = with_text(b, "api"@, "model"@, s.model);
    lemma_with_text(b, "api"@, "model"@, s.model);
    assert(entry(b, "api"@, "provider"@) == entry(c, "api"@, "provider"@));
    assert(entry(b, "api"@, "endpoint"@) == entry(c, "api"@, "endpoint"@));
    let d = with_text(c, "api"@, "api_key"@, s.api_key);
    lemma_with_text(c, "api"@, "api_key"@, s.api_key);
    assert(entry(c, "api"@, "provider"@) == entry(d, "api"@, "provider"@));
    assert(entry(c, "api"@, "endpoint"@) == entry(d, "api"@, "endpoint"@));
    assert(entry(c, "api"@, "model"@) == entry(d, "api"@, "model"@));
    let e = with_text(d, "api"@, "auth_file"@, s.auth_file);
    lemma_with_text(d, "api"@, "auth_file"@, s.auth_file);
    assert(entry(d, "api"@, "provider"@) == entry(e, "api"@, "provider"@));
    assert(entry(d, "api"@, "endpoint"@) == entry(e, "api"@, "endpoint"@));
    assert(entry(d, "api"@, "model"@) == entry(e, "api"@, "model"@));
    assert(entry(d, "api"@, "api_key"@) == entry(e, "api"@, "api_key"@));
    let f = with_text(e, "api"@, "thinking_control"@, s.thinking_control);
    lemma_with_text(e, "api"@, "thinking_control"@, s.thinking_control);
    assert(entry(e, "api"@, "provider"@) == entry(f, "api"@, "provider"@));
    assert(entry(e, "api"@, "endpoint"@) == entry(f, "api"@, "endpoint"@));
    assert(entry(e, "api"@, "model"@) == entry(f, "api"@, "model"@));
    assert(entry(e, "api"@, "api_key"@) == entry(f, "api"@, "api_key"@));
    assert(entry(e, "api"@, "auth_file"@) == entry(f, "api"@, "auth_file"@));
}

/// The profiles that are written are those that are there: the one of `[api]`
/// under its keys, and the others, all of them and no more, in `[[models]]`.
pub proof fn profiles_read_back(m: Map<Seq<char>, ItemView>, p: PatchView)
    requires
        p.profiles.len() > 0,
    ensures
        match api_from(p.profiles, 0) {
            Some(i) => api_holds(patched(m, p), p.profiles[i]),
            None => api_is_bare(patched(m, p)),
        },
        if further_tables(p.profiles).len() == 0 {
            !patched(m, p).dom().contains("models"@)
        } else {
            patched(m, p).dom().contains("models"@) && patched(m, p)["models"@]
                == ItemView::Tables(further_tables(p.profiles))
        },
{
    lemma_names();
    let g = before_profiles(m, p);
    let h = with_profiles(g, p.profiles);
    let i = with_all_thinking(h, p.thinking);
    assert(i == patched(m, p));
    lemma_with_all_thinking(h, p.thinking);
    assert(same_item(h, i, "models"@));
    assert(same_item(h, i, "api"@));
    let a = match api_from(p.profiles, 0) {
        Some(j) => with_api(g, p.profiles[j]),
        None => without_api(g),
    };
    assert(same_item(a, h, "api"@));
    match api_from(p.profiles, 0) {
        Some(j) => {
            lemma_api_holds(g, p.profiles[j]);
        },
        None => {
            assert forall|k: Seq<char>| is_api_key(k) implies #[trigger] entry(i, "api"@, k)
                is None by {
                assert(entry(a, "api"@, k) is None);
            }
        },
    }
}

/// What stands before the profiles are written.
pub open spec fn before_profiles(m: Map<Seq<char>, ItemView>, p: PatchView) -> Map<Seq<char>, ItemView> {
    let m = with_value(m, "languages"@, "primary"@, ValueView::Text(p.primary));
    let m = with_value(m, "languages"@, "secondary"@, ValueView::Text(p.secondary));
    let m = with_value(m, "ui"@, "tabs"@, ValueView::Texts(mode_sections(p.tabs)));
    let m = with_value(m, "ui"@, "single_tap_pinned"@, ValueView::Bool(p.single_tap_pinned));
    let m = with_value(m, "ui"@, "double_tap_pinned"@, ValueView::Bool(p.double_tap_pinned));
    let m = match p.default_model {
        Some(name) => with_value(m, "ui"@, "default_model"@, ValueView::Text(name)),
        None => m,
    };
    with_value(
        m,
        "hotkey"@,
        "double_tap_timeout_ms"@,
        ValueView::Int((p.double_tap_ms as i64) as int),
    )
}

/// What is written is what is there: every key that the panel owns outside the
/// profiles holds what the settings say.
pub proof fn settings_read_back(m: Map<Seq<char>, ItemView>, p: PatchView)
    ensures
        value_at(patched(m, p), "languages"@, "primary"@) == Some(ValueView::Text(p.primary)),
        value_at(patched(m, p), "languages"@, "secondary"@) == Some(ValueView::Text(p.secondary)),
        value_at(patched(m, p), "ui"@, "tabs"@) == Some(ValueView::Texts(mode_sections(p.tabs))),
        value_at(patched(m, p), "ui"@, "single_tap_pinned"@) == Some(
            ValueView::Bool(p.single_tap_pinned),
        ),
        value_at(patched(m, p), "ui"@, "double_tap_pinned"@) == Some(
            ValueView::Bool(p.double_tap_pinned),
        ),
        match p.default_model {
            Some(n) => value_at(patched(m, p), "ui"@, "default_model"@) == Some(ValueView::Text(n)),
            None => entry(patched(m, p), "ui"@, "default_model"@) == entry(
                m,
                "ui"@,
                "default_model"@,
            ),
        },
        p.double_tap_ms <= i64::MAX ==> value_at(
            patched(m, p),
            "hotkey"@,
            "double_tap_timeout_ms"@,
        ) == Some(ValueView::Int(p.double_tap_ms as int)),
{
    lemma_names();
    lemma_keys();
    let a = with_value(m, "languages"@, "primary"@, ValueView::Text(p.primary));
    lemma_with_value(m, "languages"@, "primary"@, ValueView::Text(p.primary));
    let b = with_value(a, "languages"@, "secondary"@, ValueView::Text(p.secondary));
    lemma_with_value(a, "languages"@, "secondary"@, ValueView::Text(p.secondary));
    let tabs = ValueView::Texts(mode_sections(p.tabs));
    let c = with_value(b, "ui"@, "tabs"@, tabs);
    lemma_with_value(b, "ui"@, "tabs"@, tabs);
    let single = ValueView::Bool(p.single_tap_pinned);
    let d = with_value(c, "ui"@, "single_tap_pinned"@, single);
    lemma_with_value(c, "ui"@, "single_tap_pinned"@, single);
    let double = ValueView::Bool(p.double_tap_pinned);
    let e = with_value(d, "ui"@, "double_tap_pinned"@, double);
    lemma_with_value(d, "ui"@, "double_tap_pinned"@, double);
    let f = match p.default_model {
        Some(n) => with_value(e, "ui"@, "default_model"@, ValueView::Text(n)),
        None => e,
    };
    if let Some(n) = p.default_model {
        lemma_with_value(e, "ui"@, "default_model"@, ValueView::Text(n));
        assert(differs_at(e, f, "ui"@, "default_model"@));
    }
    let ms = ValueView::Int((p.double_tap_ms as i64) as int);
    let g = with_value(f, "hotkey"@, "double_tap_timeout_ms"@, ms);
    lemma_with_value(f, "hotkey"@, "double_tap_timeout_ms"@, ms);
    let h = with_profiles(g, p.profiles);
    lemma_with_profiles(g, p.profiles);
    let i = with_all_thinking(h, p.thinking);
    lemma_with_all_thinking(h, p.thinking);
    assert(entry(a, "languages"@, "primary"@) == entry(b, "languages"@, "primary"@));
    assert(same_item(b, c, "languages"@));
    assert(same_item(c, d, "languages"@));
    assert(same_item(d, e, "languages"@));
    assert(same_item(e, f, "languages"@));
    assert(same_item(f, g, "languages"@));
    assert(same_item(g, h, "languages"@));
    assert(same_item(h, i, "languages"@));
    lemma_same_item(b, i, "languages"@, "primary"@);
    lemma_same_item(b, i, "languages"@, "secondary"@);
    assert(entry(c, "ui"@, "tabs"@) == entry(d, "ui"@, "tabs"@));
    assert(entry(d, "ui"@, "tabs"@) == entry(e, "ui"@, "tabs"@));
    assert(entry(d, "ui"@, "single_tap_pinned"@) == entry(e, "ui"@, "single_tap_pinned"@));
    assert(entry(e, "ui"@, "tabs"@) == entry(f, "ui"@, "tabs"@));
    assert(entry(e, "ui"@, "single_tap_pinned"@) == entry(f, "ui"@, "single_tap_pinned"@));
    assert(entry(e, "ui"@, "double_tap_pinned"@) == entry(f, "ui"@, "double_tap_pinned"@));
    assert(same_item(f, g, "ui"@));
    assert(same_item(g, h, "ui"@));
    assert(same_item(h, i, "ui"@));
    assert(entry(m, "ui"@, "default_model"@) == entry(a, "ui"@, "default_model"@));
    assert(entry(a, "ui"@, "default_model"@) == entry(b, "ui"@, "default_model"@));
    assert(entry(b, "ui"@, "default_model"@) == entry(c, "ui"@, "default_model"@));
    assert(entry(c, "ui"@, "default_model"@) == entry(d, "ui"@, "default_model"@));
    assert(entry(d, "ui"@, "default_model"@) == entry(e, "ui"@, "default_model"@));
    assert(same_item(g, h, "hotkey"@));
    assert(same_item(h, i, "hotkey"@));
}

/// What is written of thinking in a mode is what is there, where each mode is
/// spoken of once.
pub proof fn thinking_reads_back(m: Map<Seq<char>, ItemView>, p: PatchView, i: int)
    requires
        0 <= i < p.thinking.len(),
        forall|j: int, k: int|
            0 <= j < k < p.thinking.len() ==> (#[trigger] p.thinking[j]).0 != (
            #[trigger] p.thinking[k]).0,
    ensures
        match p.thinking[i].1 {
            Some(t) => value_at(patched(m, p), mode_section(p.thinking[i].0), "thinking"@) == Some(
                ValueView::Text(thinking_key(t)),
            ),
            None => entry(patched(m, p), mode_section(p.thinking[i].0), "thinking"@) is None,
        },
{
    let h = with_profiles(before_profiles(m, p), p.profiles);
    lemma_thinking(h, p.thinking, i);
    assert(patched(m, p) == with_all_thinking(h, p.thinking));
}

proof fn lemma_thinking(
    m: Map<Seq<char>, ItemView>,
    v: Seq<(ProcessMode, Option<ThinkingMode>)>,
    i: int,
)
    requires
        0 <= i < v.len(),
        forall|j: int, k: int|
            0 <= j < k < v.len() ==> (#[trigger] v[j]).0 != (#[trigger] v[k]).0,
    ensures
        match v[i].1 {
            Some(t) => value_at(with_all_thinking(m, v), mode_section(v[i].0), "thinking"@) == Some(
                ValueView::Text(thinking_key(t)),
            ),
            None => entry(with_all_thinking(m, v), mode_section(v[i].0), "thinking"@) is None,
        },
    decreases v.len(),
{
    let a = with_all_thinking(m, v.drop_last());
    lemma_with_thinking(a, v.last().0, v.last().1);
    if i < v.len() - 1 {
        lemma_thinking(m, v.drop_last(), i);
        lemma_names();
        assert(v[i].0 != v[v.len() - 1].0);
        assert(mode_section(v[i].0) != mode_section(v.last().0));
        assert(entry(a, mode_section(v[i].0), "thinking"@) == entry(
            with_all_thinking(m, v),
            mode_section(v[i].0),
            "thinking"@,
        ));
    }
}

// ---------------------------------------------------------------------------
// What a file says once settings are saved in it
// ---------------------------------------------------------------------------

proof fn lemma_reads_value(
    m: Map<Seq<char>, ItemView>,
    n: Map<Seq<char>, ItemView>,
    name: Seq<char>,
    key: Seq<char>,
)
    requires
        toml_doc::reads_as(m, n),
    ensures
        value_at(m, name, key) matches Some(v) ==> v !is Other ==> value_at(n, name, key) == Some(v),
        entry(m, name, key) is None ==> entry(n, name, key) is None,
{
    assert(toml_doc::keeps(toml_doc::table(m, name), toml_doc::table(n, name)));
    if value_at(m, name, key) is Some && value_at(m, name, key)->0 !is Other {
        assert(toml_doc::holds_plain(toml_doc::table(m, name), key));
        assert(toml_doc::holds_plain(toml_doc::table(n, name), key));
    }
    if entry(n, name, key) is Some {
        assert(toml_doc::table(n, name).dom().contains(key));
    }
}

/// A file into which settings were saved says them: every key that the panel owns
/// outside the profiles and the modes reads as what was saved. `m` is what the
/// file held before, and `n` what it holds then.
pub proof fn saved_settings_read_back(
    m: Map<Seq<char>, ItemView>,
    p: PatchView,
    n: Map<Seq<char>, ItemView>,
)
    requires
        toml_doc::reads_as(patched(m, p), n),
    ensures
        value_at(n, "languages"@, "primary"@) == Some(ValueView::Text(p.primary)),
        value_at(n, "languages"@, "secondary"@) == Some(ValueView::Text(p.secondary)),
        value_at(n, "ui"@, "tabs"@) == Some(ValueView::Texts(mode_sections(p.tabs))),
        value_at(n, "ui"@, "single_tap_pinned"@) == Some(ValueView::Bool(p.single_tap_pinned)),
        value_at(n, "ui"@, "double_tap_pinned"@) == Some(ValueView::Bool(p.double_tap_pinned)),
        p.default_model matches Some(name) ==> value_at(n, "ui"@, "default_model"@) == Some(
            ValueView::Text(name),
        ),
        p.double_tap_ms <= i64::MAX ==> value_at(n, "hotkey"@, "double_tap_timeout_ms"@) == Some(
            ValueView::Int(p.double_tap_ms as int),
        ),
{
    let w = patched(m, p);
    settings_read_back(m, p);
    lemma_reads_value(w, n, "languages"@, "primary"@);
    lemma_reads_value(w, n, "languages"@, "secondary"@);
    lemma_reads_value(w, n, "ui"@, "tabs"@);
    lemma_reads_value(w, n, "ui"@, "single_tap_pinned"@);
    lemma_reads_value(w, n, "ui"@, "double_tap_pinned"@);
    lemma_reads_value(w, n, "ui"@, "default_model"@);
    lemma_reads_value(w, n, "hotkey"@, "double_tap_timeout_ms"@);
}

/// A file into which settings were saved says of thinking in a mode what was
/// saved, where each mode is spoken of once.
pub proof fn saved_thinking_reads_back(
    m: Map<Seq<char>, ItemView>,
    p: PatchView,
    n: Map<Seq<char>, ItemView>,
    i: int,
)
    requires
        toml_doc::reads_as(patched(m, p), n),
        0 <= i < p.thinking.len(),
        forall|j: int, k: int|
            0 <= j < k < p.thinking.len() ==> (#[trigger] p.thinking[j]).0 != (
            #[trigger] p.thinking[k]).0,
    ensures
        match p.thinking[i].1 {
            Some(t) => value_at(n, mode_section(p.thinking[i].0), "thinking"@) == Some(
                ValueView::Text(thinking_key(t)),
            ),
            None => entry(n, mode_section(p.thinking[i].0), "thinking"@) is None,
        },
{
    thinking_reads_back(m, p, i);
    lemma_reads_value(patched(m, p), n, mode_section(p.thinking[i].0), "thinking"@);
}

/// A file into which settings were saved keeps what it said elsewhere in texts,
/// numbers, truth values and arrays of texts.
pub proof fn saved_files_keep_the_rest(
    m: Map<Seq<char>, ItemView>,
    p: PatchView,
    n: Map<Seq<char>, ItemView>,
    name: Seq<char>,
    key: Seq<char>,
)
    requires
        toml_doc::reads_as(patched(m, p), n),
        name != "models"@,
        !owned(name, key),
    ensures
        value_at(m, name, key) matches Some(v) ==> v !is Other ==> value_at(n, name, key) == Some(v),
        entry(m, name, key) is None ==> entry(n, name, key) is None,
{
    the_rest_stays(m, p, name, key);
    lemma_reads_value(patched(m, p), n, name, key);
}

/// The profiles that do not belong into the `[api]` section.
pub open spec fn further(v: Seq<SpecView>) -> Seq<SpecView>
    decreases v.len(),
{
    if v.len() == 0 {
        seq![]
    } else if v.last().from_api_section {
        further(v.drop_last())
    } else {
        further(v.drop_last()).push(v.last())
    }
}

proof fn lemma_further(v: Seq<SpecView>)
    ensures
        further_tables(v).len() == further(v).len(),
        forall|i: int|
            0 <= i < further(v).len() ==> #[trigger] further_tables(v)[i] == profile_table(
                further(v)[i],
            ),
    decreases v.len(),
{
    if v.len() > 0 {
        lemma_further(v.drop_last());
    }
}

/// Whether a table says an optional thing under a key.
pub open spec fn table_says(
    t: Map<Seq<char>, EntryView>,
    key: Seq<char>,
    v: Option<ValueView>,
) -> bool {
    match v {
        Some(w) => t.dom().contains(key) && t[key] is Value && t[key]->Value_0 == w,
        None => !t.dom().contains(key),
    }
}

/// An optional text as a value.
pub open spec fn text_value(s: Option<Seq<char>>) -> Option<ValueView> {
    match s {
        Some(t) => Some(ValueView::Text(t)),
        None => None,
    }
}

/// An optional number as a value.
pub open spec fn number_value(n: Option<u32>) -> Option<ValueView> {
    match n {
        Some(k) => Some(ValueView::Int(k as int)),
        None => None,
    }
}

/// Whether a table says a profile.
pub open spec fn says_profile(t: Map<Seq<char>, EntryView>, s: SpecView) -> bool {
    &&& table_says(t, "name"@, Some(ValueView::Text(s.name)))
    &&& table_says(t, "provider"@, text_value(s.provider))
    &&& table_says(t, "endpoint"@, text_value(s.endpoint))
    &&& table_says(t, "model"@, text_value(s.model))
    &&& table_says(t, "api_key"@, text_value(s.api_key))
    &&& table_says(t, "auth_file"@, text_value(s.auth_file))
    &&& table_says(t, "max_tokens"@, number_value(s.max_tokens))
    &&& table_says(t, "token_budget"@, number_value(s.token_budget))
    &&& table_says(t, "thinking_control"@, text_value(s.thinking_control))
    &&& toml_doc::keeps(header_map(s.headers), toml_doc::inner(t, "headers"@))
}

proof fn lemma_profile_keys()
    ensures
        "name"@.len() == 4,
        "provider"@.len() == 8 && "provider"@[0] == 'p',
        "endpoint"@.len() == 8 && "endpoint"@[0] == 'e',
        "model"@.len() == 5,
        "api_key"@.len() == 7 && "api_key"@[0] == 'a',
        "auth_file"@.len() == 9,
        "max_tokens"@.len() == 10,
        "token_budget"@.len() == 12,
        "thinking_control"@.len() == 16,
        "headers"@.len() == 7 && "headers"@[0] == 'h',
{
    reveal_strlit("name");
    reveal_strlit("provider");
    reveal_strlit("endpoint");
    reveal_strlit("model");
    reveal_strlit("api_key");
    reveal_strlit("auth_file");
    reveal_strlit("max_tokens");
    reveal_strlit("token_budget");
    reveal_strlit("thinking_control");
    reveal_strlit("headers");
}


proof fn lemma_profile_table(s: SpecView)
    ensures
        says_profile(profile_table(s), s),
        toml_doc::inner(profile_table(s), "headers"@) == header_map(s.headers),
{
    lemma_profile_keys();
}

proof fn lemma_table_read(
    t: Map<Seq<char>, EntryView>,
    u: Map<Seq<char>, EntryView>,
    key: Seq<char>,
    v: Option<ValueView>,
)
    requires
        toml_doc::keeps(t, u),
        table_says(t, key, v),
        v matches Some(w) ==> w !is Other,
    ensures
        table_says(u, key, v),
{
    if v is Some {
        assert(toml_doc::holds_plain(t, key));
        assert(toml_doc::holds_plain(u, key));
    }
}

/// A file into which settings were saved says their profiles: the one of `[api]`
/// under its keys, and the others, all of them and no more, in `[[models]]` in
/// their order.
pub proof fn saved_profiles_read_back(
    m: Map<Seq<char>, ItemView>,
    p: PatchView,
    n: Map<Seq<char>, ItemView>,
)
    requires
        toml_doc::reads_as(patched(m, p), n),
        p.profiles.len() > 0,
    ensures
        match api_from(p.profiles, 0) {
            Some(i) => api_holds(n, p.profiles[i]),
            None => api_is_bare(n),
        },
        toml_doc::tables(n, "models"@).len() == further(p.profiles).len(),
        forall|i: int|
            0 <= i < further(p.profiles).len() ==> says_profile(
                #[trigger] toml_doc::tables(n, "models"@)[i],
                further(p.profiles)[i],
            ),
{
    let w = patched(m, p);
    profiles_read_back(m, p);
    lemma_further(p.profiles);
    match api_from(p.profiles, 0) {
        Some(i) => {
            lemma_reads_value(w, n, "api"@, "provider"@);
            lemma_reads_value(w, n, "api"@, "endpoint"@);
            lemma_reads_value(w, n, "api"@, "model"@);
            lemma_reads_value(w, n, "api"@, "api_key"@);
            lemma_reads_value(w, n, "api"@, "auth_file"@);
            lemma_reads_value(w, n, "api"@, "thinking_control"@);
        },
        None => {
            assert forall|k: Seq<char>| is_api_key(k) implies #[trigger] entry(n, "api"@, k)
                is None by {
                assert(entry(w, "api"@, k) is None);
                lemma_reads_value(w, n, "api"@, k);
            }
        },
    }
    let written = toml_doc::tables(w, "models"@);
    let read = toml_doc::tables(n, "models"@);
    assert(written =~= further_tables(p.profiles));
    assert(written.len() == read.len());
    assert forall|i: int| 0 <= i < further(p.profiles).len() implies says_profile(
        #[trigger] read[i],
        further(p.profiles)[i],
    ) by {
        let s = further(p.profiles)[i];
        let t = written[i];
        let u = read[i];
        assert(t == profile_table(s));
        lemma_profile_table(s);
        assert(toml_doc::keeps(t, u));
        assert(toml_doc::keeps(toml_doc::inner(t, "headers"@), toml_doc::inner(u, "headers"@)));
        lemma_table_read(t, u, "name"@, Some(ValueView::Text(s.name)));
        lemma_table_read(t, u, "provider"@, text_value(s.provider));
        lemma_table_read(t, u, "endpoint"@, text_value(s.endpoint));
        lemma_table_read(t, u, "model"@, text_value(s.model));
        lemma_table_read(t, u, "api_key"@, text_value(s.api_key));
        lemma_table_read(t, u, "auth_file"@, text_value(s.auth_file));
        lemma_table_read(t, u, "max_tokens"@, number_value(s.max_tokens));
        lemma_table_read(t, u, "token_budget"@, number_value(s.token_budget));
        lemma_table_read(t, u, "thinking_control"@, text_value(s.thinking_control));
    }
}

// ---------------------------------------------------------------------------
// What saving leaves where and as it is
// ---------------------------------------------------------------------------

/// The lines of a section that the panel does not own, in order.
pub open spec fn others(name: Seq<char>, v: Seq<Line>) -> Seq<Line>
    decreases v.len(),
{
    if v.len() == 0 {
        seq![]
    } else if owned(name, v.last().key) {
        others(name, v.drop_last())
    } else {
        others(name, v.drop_last()).push(v.last())
    }
}

/// What the panel does not own of something that a document holds: of the further
/// profiles, only where they stand.
pub open spec fn unowned(x: Place) -> Place {
    if x.name == "models"@ {
        Place { name: x.name, set: None, body: Body::Plain }
    } else {
        match x.body {
            Body::Section { head, lines } => Place {
                body: Body::Section { head, lines: others(x.name, lines) },
                ..x
            },
            _ => x,
        }
    }
}

/// What the panel does not own of what stands under some names, in order.
pub open spec fn kept(l: Seq<Place>, names: Set<Seq<char>>) -> Seq<Place>
    decreases l.len(),
{
    if l.len() == 0 {
        seq![]
    } else if names.contains(l.last().name) {
        kept(l.drop_last(), names).push(unowned(l.last()))
    } else {
        kept(l.drop_last(), names)
    }
}

/// Whether checked settings take the thinking of a mode out of the section `name`.
pub open spec fn closes(p: PatchView, name: Seq<char>) -> bool {
    exists|i: int|
        0 <= i < p.thinking.len() && (#[trigger] p.thinking[i]).1 is None && mode_section(
            p.thinking[i].0,
        ) == name
}

/// Whether what stands under a name stays there when checked settings are written:
/// a section that is written into is there, one that loses a key has another, and
/// there are further profiles before and after.
pub open spec fn stays(
    m: Map<Seq<char>, ItemView>,
    l: Seq<Place>,
    p: PatchView,
    name: Seq<char>,
) -> bool {
    &&& opens(p, name) ==> toml_doc::is_section(m, name)
    &&& closes(p, name) && toml_doc::is_section(m, name) ==> exists|k: Seq<char>|
        k != "thinking"@ && #[trigger] entry(m, name, k) is Some
    &&& name == "models"@ && p.profiles.len() > 0 ==> further_tables(p.profiles).len() > 0
        && toml_doc::place(l, name) is Some
}

proof fn lemma_others_update(name: Seq<char>, v: Seq<Line>, j: int, x: Line)
    requires
        0 <= j < v.len(),
        owned(name, v[j].key),
        x.key == v[j].key,
    ensures
        others(name, v.update(j, x)) == others(name, v),
    decreases v.len(),
{
    let w = v.update(j, x);
    if j < v.len() - 1 {
        assert(w.drop_last() =~= v.drop_last().update(j, x));
        lemma_others_update(name, v.drop_last(), j, x);
    } else {
        assert(w.drop_last() =~= v.drop_last());
    }
}

proof fn lemma_others_remove(name: Seq<char>, v: Seq<Line>, j: int)
    requires
        0 <= j < v.len(),
        owned(name, v[j].key),
    ensures
        others(name, v.remove(j)) == others(name, v),
    decreases v.len(),
{
    let w = v.remove(j);
    if j < v.len() - 1 {
        assert(w.drop_last() =~= v.drop_last().remove(j));
        assert(w.last() == v.last());
        lemma_others_remove(name, v.drop_last(), j);
    } else {
        assert(w =~= v.drop_last());
    }
}

proof fn lemma_line_from(v: Seq<Line>, key: Seq<char>, from: int)
    requires
        0 <= from,
    ensures
        toml_doc::line_from(v, key, from) matches Some(j) ==> from <= j < v.len() && v[j].key == key,
    decreases v.len() - from,
{
    if from < v.len() && v[from].key != key {
        lemma_line_from(v, key, from + 1);
    }
}

proof fn lemma_others(name: Seq<char>, v: Seq<Line>, key: Seq<char>)
    requires
        owned(name, key),
    ensures
        others(name, toml_doc::respelled(v, key, None)) == others(name, v),
        others(name, toml_doc::with_line(v, key, None)) == others(name, v),
        others(name, toml_doc::without_line(v, key)) == others(name, v),
{
    lemma_line_from(v, key, 0);
    let line = Line { key, set: None, own: None };
    match toml_doc::line_from(v, key, 0) {
        Some(j) => {
            lemma_others_update(name, v, j, Line { own: None, ..v[j] });
            lemma_others_update(name, v, j, line);
            lemma_others_remove(name, v, j);
        },
        None => {
            assert(v.push(line).drop_last() =~= v);
        },
    }
}

proof fn lemma_kept_update(l: Seq<Place>, names: Set<Seq<char>>, i: int, x: Place)
    requires
        0 <= i < l.len(),
        x.name == l[i].name,
        names.contains(x.name) ==> unowned(x) == unowned(l[i]),
    ensures
        kept(l.update(i, x), names) == kept(l, names),
    decreases l.len(),
{
    let w = l.update(i, x);
    if i < l.len() - 1 {
        assert(w.drop_last() =~= l.drop_last().update(i, x));
        lemma_kept_update(l.drop_last(), names, i, x);
    } else {
        assert(w.drop_last() =~= l.drop_last());
    }
}

proof fn lemma_kept_remove(l: Seq<Place>, names: Set<Seq<char>>, i: int)
    requires
        0 <= i < l.len(),
        !names.contains(l[i].name),
    ensures
        kept(l.remove(i), names) == kept(l, names),
    decreases l.len(),
{
    let w = l.remove(i);
    if i < l.len() - 1 {
        assert(w.drop_last() =~= l.drop_last().remove(i));
        assert(w.last() == l.last());
        lemma_kept_remove(l.drop_last(), names, i);
    } else {
        assert(w =~= l.drop_last());
    }
}

proof fn lemma_kept_body(l: Seq<Place>, names: Set<Seq<char>>, name: Seq<char>, set: bool, body: Body)
    requires
        !names.contains(name) || name == "models"@ && toml_doc::place(l, name) is Some,
    ensures
        kept(toml_doc::with_body(l, name, set, body), names) == kept(l, names),
{
    lemma_place_from(l, name, 0);
    match toml_doc::place(l, name) {
        Some(i) => {
            let x = Place {
                name,
                set: if set {
                    l[i].set
                } else {
                    None
                },
                body,
            };
            lemma_kept_update(l, names, i, x);
        },
        None => {
            let x = Place { name, set: None, body };
            assert(l.push(x).drop_last() =~= l);
        },
    }
}

proof fn lemma_kept_lines(l: Seq<Place>, names: Set<Seq<char>>, name: Seq<char>, v: Seq<Line>)
    requires
        others(name, v) == others(name, toml_doc::lines(l, name)),
    ensures
        kept(toml_doc::with_lines(l, name, v), names) == kept(l, names),
{
    lemma_place_from(l, name, 0);
    if let Some(i) = toml_doc::place(l, name) {
        if let Body::Section { head, lines } = l[i].body {
            lemma_kept_update(
                l,
                names,
                i,
                Place { body: Body::Section { head, lines: v }, ..l[i] },
            );
        }
    }
}

/// Whether a name has a place in both layouts or in neither.
spec fn same_place(a: Seq<Place>, b: Seq<Place>, name: Seq<char>) -> bool {
    toml_doc::place(a, name) is Some ==> toml_doc::place(b, name) is Some
}

proof fn lemma_place_exists(l: Seq<Place>, name: Seq<char>, i: int)
    requires
        0 <= i < l.len(),
        l[i].name == name,
    ensures
        toml_doc::place(l, name) is Some,
{
    lemma_place_from(l, name, 0);
}

proof fn lemma_place_lines(l: Seq<Place>, name: Seq<char>, v: Seq<Line>, other: Seq<char>)
    ensures
        same_place(l, toml_doc::with_lines(l, name, v), other),
{
    lemma_place_from(l, name, 0);
    lemma_place_from(l, other, 0);
    if let Some(i) = toml_doc::place(l, other) {
        lemma_place_exists(toml_doc::with_lines(l, name, v), other, i);
    }
}

proof fn lemma_place_body(l: Seq<Place>, name: Seq<char>, set: bool, body: Body, other: Seq<char>)
    ensures
        same_place(l, toml_doc::with_body(l, name, set, body), other),
{
    lemma_place_from(l, name, 0);
    lemma_place_from(l, other, 0);
    if let Some(i) = toml_doc::place(l, other) {
        lemma_place_exists(toml_doc::with_body(l, name, set, body), other, i);
    }
}

/// What is kept, and that the further profiles keep their place.
spec fn steady(a: Seq<Place>, b: Seq<Place>, names: Set<Seq<char>>) -> bool {
    kept(a, names) == kept(b, names) && same_place(a, b, "models"@)
}

proof fn lemma_steady_value(
    m: Map<Seq<char>, ItemView>,
    l: Seq<Place>,
    names: Set<Seq<char>>,
    name: Seq<char>,
    key: Seq<char>,
)
    requires
        owned(name, key),
        names.contains(name) ==> toml_doc::is_section(m, name),
    ensures
        steady(l, laid_section(m, l, name), names),
        steady(l, laid_value(m, l, name, key), names),
        steady(l, laid_without(laid_section(m, l, name), name, key), names),
{
    let there = laid_section(m, l, name);
    if !toml_doc::is_section(m, name) {
        lemma_kept_body(l, names, name, true, toml_doc::new_section());
        lemma_place_body(l, name, true, toml_doc::new_section(), "models"@);
    }
    let lines = toml_doc::lines(there, name);
    lemma_others(name, lines, key);
    let v = if toml_doc::holds_value(with_section(m, name), name, key) {
        toml_doc::respelled(lines, key, None)
    } else {
        toml_doc::with_line(lines, key, None)
    };
    lemma_kept_lines(there, names, name, v);
    lemma_place_lines(there, name, v, "models"@);
    let w = toml_doc::without_line(lines, key);
    lemma_kept_lines(there, names, name, w);
    lemma_place_lines(there, name, w, "models"@);
}

proof fn lemma_steady_without(l: Seq<Place>, names: Set<Seq<char>>, name: Seq<char>, key: Seq<char>)
    requires
        owned(name, key),
    ensures
        steady(l, laid_without(l, name, key), names),
{
    let lines = toml_doc::lines(l, name);
    lemma_others(name, lines, key);
    let w = toml_doc::without_line(lines, key);
    lemma_kept_lines(l, names, name, w);
    lemma_place_lines(l, name, w, "models"@);
}

proof fn lemma_steady_api(
    m: Map<Seq<char>, ItemView>,
    l: Seq<Place>,
    names: Set<Seq<char>>,
    s: SpecView,
)
    requires
        names.contains("api"@) ==> toml_doc::is_section(m, "api"@),
    ensures
        steady(l, laid_api(m, l, s), names),
{
    let a = laid_text(m, l, "api"@, "provider"@, s.provider);
    lemma_steady_value(m, l, names, "api"@, "provider"@);
    let m = with_text(m, "api"@, "provider"@, s.provider);
    let b = laid_text(m, a, "api"@, "endpoint"@, s.endpoint);
    lemma_steady_value(m, a, names, "api"@, "endpoint"@);
    let m = with_text(m, "api"@, "endpoint"@, s.endpoint);
    let c = laid_text(m, b, "api"@, "model"@, s.model);
    lemma_steady_value(m, b, names, "api"@, "model"@);
    let m = with_text(m, "api"@, "model"@, s.model);
    let d = laid_text(m, c, "api"@, "api_key"@, s.api_key);
    lemma_steady_value(m, c, names, "api"@, "api_key"@);
    let m = with_text(m, "api"@, "api_key"@, s.api_key);
    let e = laid_text(m, d, "api"@, "auth_file"@, s.auth_file);
    lemma_steady_value(m, d, names, "api"@, "auth_file"@);
    let m = with_text(m, "api"@, "auth_file"@, s.auth_file);
    lemma_steady_value(m, e, names, "api"@, "thinking_control"@);
}

proof fn lemma_steady_without_api(
    m: Map<Seq<char>, ItemView>,
    l: Seq<Place>,
    names: Set<Seq<char>>,
)
    ensures
        steady(l, laid_without_api(m, l), names),
{
    let a = laid_without(l, "api"@, "provider"@);
    lemma_steady_without(l, names, "api"@, "provider"@);
    let b = laid_without(a, "api"@, "endpoint"@);
    lemma_steady_without(a, names, "api"@, "endpoint"@);
    let c = laid_without(b, "api"@, "model"@);
    lemma_steady_without(b, names, "api"@, "model"@);
    let d = laid_without(c, "api"@, "api_key"@);
    lemma_steady_without(c, names, "api"@, "api_key"@);
    let e = laid_without(d, "api"@, "auth_file"@);
    lemma_steady_without(d, names, "api"@, "auth_file"@);
    lemma_steady_without(e, names, "api"@, "thinking_control"@);
}

proof fn lemma_steady_profiles(
    m: Map<Seq<char>, ItemView>,
    l: Seq<Place>,
    names: Set<Seq<char>>,
    v: Seq<SpecView>,
)
    requires
        names.contains("api"@) && api_from(v, 0) is Some ==> toml_doc::is_section(m, "api"@),
        names.contains("models"@) && v.len() > 0 ==> further_tables(v).len() > 0
            && toml_doc::place(l, "models"@) is Some,
    ensures
        kept(laid_profiles(m, l, v), names) == kept(l, names),
{
    if v.len() > 0 {
        let a = match api_from(v, 0) {
            Some(i) => laid_api(m, l, v[i]),
            None => laid_without_api(m, l),
        };
        match api_from(v, 0) {
            Some(i) => lemma_steady_api(m, l, names, v[i]),
            None => lemma_steady_without_api(m, l, names),
        }
        if further_tables(v).len() == 0 {
            lemma_place_from(a, "models"@, 0);
            if let Some(i) = toml_doc::place(a, "models"@) {
                lemma_kept_remove(a, names, i);
            }
        } else {
            lemma_kept_body(a, names, "models"@, false, Body::Plain);
        }
    }
}

/// Whether the sections of some names are there, and have a key beside that for
/// thinking where they lose it.
spec fn holds_up(
    m: Map<Seq<char>, ItemView>,
    v: Seq<(ProcessMode, Option<ThinkingMode>)>,
    name: Seq<char>,
) -> bool {
    &&& (exists|i: int|
        0 <= i < v.len() && (#[trigger] v[i]).1 is Some && mode_section(v[i].0) == name)
        ==> toml_doc::is_section(m, name)
    &&& (exists|i: int|
        0 <= i < v.len() && (#[trigger] v[i]).1 is None && mode_section(v[i].0) == name)
        && toml_doc::is_section(m, name) ==> exists|k: Seq<char>|
        k != "thinking"@ && #[trigger] entry(m, name, k) is Some
}

proof fn lemma_no_new_section(
    m: Map<Seq<char>, ItemView>,
    v: Seq<(ProcessMode, Option<ThinkingMode>)>,
    name: Seq<char>,
)
    requires
        holds_up(m, v, name),
    ensures
        toml_doc::is_section(with_all_thinking(m, v), name) ==> toml_doc::is_section(m, name),
    decreases v.len(),
{
    if v.len() > 0 && !toml_doc::is_section(m, name) {
        let front = v.drop_last();
        let (mode, wish) = v.last();
        assert(v[v.len() - 1] == (mode, wish));
        assert forall|i: int| 0 <= i < front.len() implies front[i] == v[i] by {}
        assert(holds_up(m, front, name));
        lemma_no_new_section(m, front, name);
        let a = with_all_thinking(m, front);
        lemma_with_thinking(a, mode, wish);
        if mode_section(mode) != name {
            assert(same_item(a, with_all_thinking(m, v), name));
        }
    }
}

proof fn lemma_steady_thinking(
    m: Map<Seq<char>, ItemView>,
    l: Seq<Place>,
    names: Set<Seq<char>>,
    v: Seq<(ProcessMode, Option<ThinkingMode>)>,
)
    requires
        forall|n: Seq<char>| #[trigger] names.contains(n) ==> holds_up(m, v, n),
    ensures
        kept(laid_all_thinking(m, l, v), names) == kept(l, names),
        forall|n: Seq<char>|
            names.contains(n) && toml_doc::is_section(m, n) ==> #[trigger] toml_doc::is_section(
                with_all_thinking(m, v),
                n,
            ),
    decreases v.len(),
{
    if v.len() > 0 {
        let front = v.drop_last();
        let (mode, wish) = v.last();
        let name = mode_section(mode);
        assert(v[v.len() - 1] == (mode, wish));
        assert forall|n: Seq<char>| #[trigger] names.contains(n) implies holds_up(m, front, n) by {
            assert(holds_up(m, v, n));
            assert forall|i: int| 0 <= i < front.len() implies front[i] == v[i] by {}
        }
        lemma_steady_thinking(m, l, names, front);
        let a = with_all_thinking(m, front);
        let la = laid_all_thinking(m, l, front);
        lemma_with_all_thinking(m, front);
        assert(is_mode_section(name));
        assert(owned(name, "thinking"@));
        if names.contains(name) {
            assert(holds_up(m, v, name));
        }
        match wish {
            Some(_) => {
                lemma_steady_value(a, la, names, name, "thinking"@);
            },
            None => {
                if toml_doc::is_section(a, name) {
                    lemma_steady_without(la, names, name, "thinking"@);
                    let lb = laid_without(la, name, "thinking"@);
                    let b = without_key(a, name, "thinking"@);
                    if names.contains(name) {
                        lemma_no_new_section(m, front, name);
                        let k = choose|k: Seq<char>|
                            k != "thinking"@ && #[trigger] entry(m, name, k) is Some;
                        assert(entry(m, name, k) == entry(a, name, k));
                        assert(toml_doc::table(b, name).dom().contains(k));
                    } else if toml_doc::table(b, name) =~= Map::empty() {
                        lemma_place_from(lb, name, 0);
                        if let Some(i) = toml_doc::place(lb, name) {
                            lemma_kept_remove(lb, names, i);
                        }
                    }
                }
            },
        }
        lemma_with_thinking(a, mode, wish);
        let b = with_all_thinking(m, v);
        assert forall|n: Seq<char>|
            names.contains(n) && toml_doc::is_section(m, n) implies #[trigger] toml_doc::is_section(
            b,
            n,
        ) by {
            assert(toml_doc::is_section(a, n));
            if n != name {
                assert(same_item(a, b, n));
            }
        }
    }
}

proof fn lemma_before(m: Map<Seq<char>, ItemView>, p: PatchView, n: Seq<char>)
    ensures
        toml_doc::is_section(m, n) ==> toml_doc::is_section(before_profiles(m, p), n),
        n != "languages"@ && n != "ui"@ && n != "hotkey"@ ==> same_item(
            m,
            before_profiles(m, p),
            n,
        ),
{
}

proof fn lemma_holds_up(
    m: Map<Seq<char>, ItemView>,
    l: Seq<Place>,
    p: PatchView,
    n: Seq<char>,
)
    requires
        stays(m, l, p, n),
    ensures
        holds_up(with_profiles(before_profiles(m, p), p.profiles), p.thinking, n),
{
    lemma_names();
    let g = before_profiles(m, p);
    let h = with_profiles(g, p.profiles);
    if is_mode_section(n) {
        lemma_before(m, p, n);
        lemma_with_profiles(g, p.profiles);
        assert(same_item(m, g, n));
        assert(same_item(g, h, n));
        assert(same_item(m, h, n));
        assert forall|k: Seq<char>| #[trigger] entry(m, n, k) is Some implies entry(h, n, k)
            is Some by {
            lemma_same_item(m, h, n, k);
        }
    } else {
        assert forall|i: int| 0 <= i < p.thinking.len() implies mode_section(
            (#[trigger] p.thinking[i]).0,
        ) != n by {}
    }
}

/// Writing settings leaves what the panel does not own where and as it is: the
/// sections that stay keep their order, each with its header and the comments
/// before it, and in each the other lines keep their order, each with its
/// comments and its spelling. The further profiles keep their place.
pub proof fn order_and_comments_stay(
    m: Map<Seq<char>, ItemView>,
    l: Seq<Place>,
    p: PatchView,
    names: Set<Seq<char>>,
)
    requires
        forall|n: Seq<char>| #[trigger] names.contains(n) ==> stays(m, l, p, n),
    ensures
        kept(relaid(m, l, p), names) == kept(l, names),
{
    lemma_names();
    assert forall|n: Seq<char>| #[trigger] names.contains(n) implies stays(m, l, p, n) by {}
    assert(opens(p, "languages"@) && opens(p, "ui"@) && opens(p, "hotkey"@));
    if names.contains("languages"@) {
        assert(stays(m, l, p, "languages"@));
    }
    if names.contains("ui"@) {
        assert(stays(m, l, p, "ui"@));
    }
    if names.contains("hotkey"@) {
        assert(stays(m, l, p, "hotkey"@));
    }
    let la = laid_value(m, l, "languages"@, "primary"@);
    let a = with_value(m, "languages"@, "primary"@, ValueView::Text(p.primary));
    lemma_steady_value(m, l, names, "languages"@, "primary"@);
    lemma_with_value(m, "languages"@, "primary"@, ValueView::Text(p.primary));
    let lb = laid_value(a, la, "languages"@, "secondary"@);
    let b = with_value(a, "languages"@, "secondary"@, ValueView::Text(p.secondary));
    lemma_steady_value(a, la, names, "languages"@, "secondary"@);
    lemma_with_value(a, "languages"@, "secondary"@, ValueView::Text(p.secondary));
    assert(same_item(m, a, "ui"@) && same_item(a, b, "ui"@));
    let tabs = ValueView::Texts(mode_sections(p.tabs));
    let lc = laid_value(b, lb, "ui"@, "tabs"@);
    let c = with_value(b, "ui"@, "tabs"@, tabs);
    lemma_steady_value(b, lb, names, "ui"@, "tabs"@);
    let single = ValueView::Bool(p.single_tap_pinned);
    let ld = laid_value(c, lc, "ui"@, "single_tap_pinned"@);
    let d = with_value(c, "ui"@, "single_tap_pinned"@, single);
    lemma_steady_value(c, lc, names, "ui"@, "single_tap_pinned"@);
    let double = ValueView::Bool(p.double_tap_pinned);
    let le = laid_value(d, ld, "ui"@, "double_tap_pinned"@);
    let e = with_value(d, "ui"@, "double_tap_pinned"@, double);
    lemma_steady_value(d, ld, names, "ui"@, "double_tap_pinned"@);
    let lf = match p.default_model {
        Some(_) => laid_value(e, le, "ui"@, "default_model"@),
        None => le,
    };
    let f = match p.default_model {
        Some(n) => with_value(e, "ui"@, "default_model"@, ValueView::Text(n)),
        None => e,
    };
    if p.default_model is Some {
        lemma_steady_value(e, le, names, "ui"@, "default_model"@);
    }
    assert(toml_doc::is_section(m, "hotkey"@) ==> toml_doc::is_section(f, "hotkey"@));
    lemma_steady_value(f, lf, names, "hotkey"@, "double_tap_timeout_ms"@);
    let lg = laid_before_profiles(m, l, p);
    let g = before_profiles(m, p);
    assert(steady(l, lg, names));
    lemma_before(m, p, "api"@);
    if names.contains("api"@) {
        assert(stays(m, l, p, "api"@));
        if api_from(p.profiles, 0) is Some {
            assert(opens(p, "api"@));
        }
    }
    if names.contains("models"@) {
        assert(stays(m, l, p, "models"@));
    }
    lemma_steady_profiles(g, lg, names, p.profiles);
    let h = with_profiles(g, p.profiles);
    assert forall|n: Seq<char>| #[trigger] names.contains(n) implies holds_up(h, p.thinking, n) by {
        assert(stays(m, l, p, n));
        lemma_holds_up(m, l, p, n);
    }
    lemma_steady_thinking(h, laid_profiles(g, lg, p.profiles), names, p.thinking);
}

} // verus!
