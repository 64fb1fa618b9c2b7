//! Settings: what the configuration file may say, and what holds where it says
//! nothing.
//!
//! Everything is optional. The connection settings also have an environment
//! variable each, which wins over the file; that is for the reader of a setting
//! to apply.

use crate::mode::ProcessMode;
use crate::mode::RephraseLength;
use crate::mode::RephraseParams;
use crate::mode::RephraseStyle;
use crate::mode::ThinkingMode;
use crate::mode::PRIMARY_LANG;
use crate::mode::SECONDARY_LANG;
use crate::prompt;
use crate::prompt::collapse_spaces;
use crate::prompt::substitute;
use crate::prompt::substitute_tokens;
use crate::prompt::DEFAULT_PROMPT_PREAMBLE;
use crate::prompt::DEFAULT_REPHRASE_BASE;
use crate::prompt::DEFAULT_REPHRASE_LENGTH_BRIEF;
use crate::prompt::DEFAULT_REPHRASE_LENGTH_DETAILED;
use crate::prompt::DEFAULT_REPHRASE_LENGTH_FULL;
use crate::prompt::DEFAULT_REPHRASE_LENGTH_SAME;
use crate::prompt::DEFAULT_REPHRASE_LENGTH_TERSE;
use crate::prompt::DEFAULT_REPHRASE_STYLE_BUSINESS;
use crate::prompt::DEFAULT_REPHRASE_STYLE_CASUAL;
use crate::prompt::DEFAULT_REPHRASE_STYLE_CORRECT;
use crate::prompt::DEFAULT_REPHRASE_STYLE_FORMAL;
use crate::prompt::DEFAULT_REPHRASE_STYLE_TECHNICAL;
use crate::prompt::DEFAULT_SUMMARIZE_IMAGE_PROMPT;
use crate::prompt::DEFAULT_SUMMARIZE_PROMPT;
use crate::prompt::DEFAULT_TRANSLATE_PROMPT;
use crate::text;
use crate::text::chars_of;
use crate::text::lowered;
use crate::text::push_text;
use crate::text::same;
use crate::text::string_of;
use crate::text::trimmed;
use crate::text::CharClass;
use vstd::prelude::*;

verus! {

/// `[prompt]`: what all modes share.
#[derive(Debug)]
pub struct PromptConfig {
    /// What goes before every prompt; empty for nothing.
    pub preamble: Option<String>,
}

/// `[api]`: the connection, which is also the first model profile.
#[derive(Debug)]
pub struct ApiConfig {
    /// `openai` or `grok-oauth`.
    pub provider: Option<String>,
    pub endpoint: Option<String>,
    pub model: Option<String>,
    pub api_key: Option<String>,
    /// Where the provider's command line tool keeps its credentials.
    pub auth_file: Option<String>,
    /// How thinking is switched; by default the model is tried out.
    pub thinking_control: Option<String>,
    pub streaming: Option<bool>,
    /// Headers that go with every request, in the order of their names.
    pub headers: Vec<(String, String)>,
}

/// `[[models]]`: a further model profile.
#[derive(Debug)]
pub struct ModelConfig {
    pub name: Option<String>,
    pub provider: Option<String>,
    pub endpoint: Option<String>,
    pub model: Option<String>,
    pub api_key: Option<String>,
    pub auth_file: Option<String>,
    pub headers: Vec<(String, String)>,
    pub max_tokens: Option<u32>,
    pub token_budget: Option<u32>,
    pub thinking_control: Option<String>,
}

/// `[generation]`: how requests are made.
#[derive(Debug)]
pub struct GenerationConfig {
    /// How freely the model picks its words, as JSON writes the number.
    pub temperature: Option<serde_json::Number>,
    /// How many tokens an answer may have.
    pub max_tokens: Option<u32>,
    /// How many tokens prompt and answer may have together.
    pub token_budget: Option<u32>,
    pub request_timeout_secs: Option<u64>,
    /// How long a streamed answer may take to begin.
    pub initial_response_timeout_secs: Option<u64>,
}

/// `[telemetry]`: where logs are sent, if anywhere.
#[derive(Debug)]
pub struct TelemetryConfig {
    pub url: Option<String>,
    pub level: Option<String>,
    pub batch_max: Option<usize>,
}

/// `[hotkey]`.
#[derive(Debug)]
pub struct HotkeyConfig {
    pub double_tap_timeout_ms: Option<u64>,
}

/// `[ui]`.
#[derive(Debug)]
pub struct UiConfig {
    pub single_tap_pinned: Option<bool>,
    pub double_tap_pinned: Option<bool>,
    /// The order of the modes, by their keys.
    pub tabs: Option<Vec<String>>,
    /// The name of the profile to start with.
    pub default_model: Option<String>,
}

/// `[languages]`.
#[derive(Debug)]
pub struct LanguagesConfig {
    pub primary: String,
    pub secondary: String,
}

/// `[translate]`.
#[derive(Debug)]
pub struct TranslateConfig {
    pub prompt: Option<String>,
    pub thinking: Option<String>,
}

/// `[rephrase]`.
#[derive(Debug)]
pub struct RephraseConfig {
    pub base: Option<String>,
    pub style: RephraseStyleTable,
    pub length: RephraseLengthTable,
    pub thinking: Option<String>,
}

/// `[rephrase.style]`.
#[derive(Debug)]
pub struct RephraseStyleTable {
    pub correct: Option<String>,
    pub casual: Option<String>,
    pub formal: Option<String>,
    pub business: Option<String>,
    pub technical: Option<String>,
}

/// `[rephrase.length]`.
#[derive(Debug)]
pub struct RephraseLengthTable {
    pub terse: Option<String>,
    pub brief: Option<String>,
    pub same: Option<String>,
    pub detailed: Option<String>,
    pub full: Option<String>,
}

/// `[summarize]`.
#[derive(Debug)]
pub struct SummarizeConfig {
    pub prompt: Option<String>,
    pub image_prompt: Option<String>,
    pub thinking: Option<String>,
}

/// All settings.
#[derive(Debug)]
pub struct Config {
    pub api: ApiConfig,
    pub models: Vec<ModelConfig>,
    pub generation: GenerationConfig,
    pub telemetry: TelemetryConfig,
    pub hotkey: HotkeyConfig,
    pub ui: UiConfig,
    pub languages: LanguagesConfig,
    pub translate: TranslateConfig,
    pub rephrase: RephraseConfig,
    pub summarize: SummarizeConfig,
    pub prompt: PromptConfig,
}

/// A model that can be talked to.
#[derive(Debug, Clone, PartialEq)]
pub struct ModelSpec {
    pub name: String,
    pub provider: Option<String>,
    pub endpoint: Option<String>,
    pub model: Option<String>,
    pub api_key: Option<String>,
    pub auth_file: Option<String>,
    pub headers: Vec<(String, String)>,
    pub max_tokens: Option<u32>,
    pub token_budget: Option<u32>,
    pub thinking_control: Option<String>,
    /// Whether it is the one of `[api]`.
    pub from_api_section: bool,
}

/// Settings that say nothing.
pub open spec fn says_nothing(c: Config) -> bool {
    &&& c.api.provider is None
    &&& c.api.endpoint is None
    &&& c.api.model is None
    &&& c.api.api_key is None
    &&& c.api.auth_file is None
    &&& c.api.thinking_control is None
    &&& c.api.streaming is None
    &&& c.api.headers@.len() == 0
    &&& c.models@.len() == 0
    &&& c.generation == no_generation()
    &&& c.telemetry == (TelemetryConfig { url: None, level: None, batch_max: None })
    &&& c.hotkey.double_tap_timeout_ms is None
    &&& c.ui == (UiConfig {
        single_tap_pinned: None,
        double_tap_pinned: None,
        tabs: None,
        default_model: None,
    })
    &&& c.languages.primary@ == PRIMARY_LANG@
    &&& c.languages.secondary@ == SECONDARY_LANG@
    &&& c.translate == (TranslateConfig { prompt: None, thinking: None })
    &&& c.rephrase == (RephraseConfig {
        base: None,
        style: RephraseStyleTable {
            correct: None,
            casual: None,
            formal: None,
            business: None,
            technical: None,
        },
        length: RephraseLengthTable {
            terse: None,
            brief: None,
            same: None,
            detailed: None,
            full: None,
        },
        thinking: None,
    })
    &&& c.summarize == (SummarizeConfig { prompt: None, image_prompt: None, thinking: None })
    &&& c.prompt.preamble is None
}

/// `[generation]` that says nothing.
pub open spec fn no_generation() -> GenerationConfig {
    GenerationConfig {
        temperature: None,
        max_tokens: None,
        token_budget: None,
        request_timeout_secs: None,
        initial_response_timeout_secs: None,
    }
}

impl Default for Config {
    fn default() -> (r: Self)
        ensures
            says_nothing(r),
    {
        Config {
            api: ApiConfig {
                provider: None,
                endpoint: None,
                model: None,
                api_key: None,
                auth_file: None,
                thinking_control: None,
                streaming: None,
                headers: Vec::new(),
            },
            models: Vec::new(),
            generation: GenerationConfig {
                temperature: None,
                max_tokens: None,
                token_budget: None,
                request_timeout_secs: None,
                initial_response_timeout_secs: None,
            },
            telemetry: TelemetryConfig { url: None, level: None, batch_max: None },
            hotkey: HotkeyConfig { double_tap_timeout_ms: None },
            ui: UiConfig {
                single_tap_pinned: None,
                double_tap_pinned: None,
                tabs: None,
                default_model: None,
            },
            languages: LanguagesConfig {
                primary: PRIMARY_LANG.to_owned(),
                secondary: SECONDARY_LANG.to_owned(),
            },
            translate: TranslateConfig { prompt: None, thinking: None },
            rephrase: RephraseConfig {
                base: None,
                style: RephraseStyleTable {
                    correct: None,
                    casual: None,
                    formal: None,
                    business: None,
                    technical: None,
                },
                length: RephraseLengthTable {
                    terse: None,
                    brief: None,
                    same: None,
                    detailed: None,
                    full: None,
                },
                thinking: None,
            },
            summarize: SummarizeConfig { prompt: None, image_prompt: None, thinking: None },
            prompt: PromptConfig { preamble: None },
        }
    }
}

/// What an optional text says.
pub open spec fn text_view(s: Option<String>) -> Option<Seq<char>> {
    match s {
        Some(t) => Some(t@),
        None => None,
    }
}

/// What an optional borrowed text says.
pub open spec fn str_view(s: Option<&str>) -> Option<Seq<char>> {
    match s {
        Some(t) => Some(t@),
        None => None,
    }
}

/// A text, or what holds where there is none.
pub open spec fn or_default(s: Option<String>, other: Seq<char>) -> Seq<char> {
    match s {
        Some(t) => t@,
        None => other,
    }
}

/// A text that is there and not empty.
pub open spec fn non_empty(s: Option<Seq<char>>) -> Option<Seq<char>> {
    match s {
        Some(t) => if t.len() > 0 {
            Some(t)
        } else {
            None
        },
        None => None,
    }
}

/// A borrowed optional text.
pub fn as_text(s: &Option<String>) -> (r: Option<&str>)
    ensures
        str_view(r) == text_view(*s),
{
    match s {
        Some(t) => Some(t.as_str()),
        None => None,
    }
}

/// A copy of an optional text.
pub fn copy_text(s: &Option<String>) -> (r: Option<String>)
    ensures
        text_view(r) == text_view(*s),
{
    match s {
        Some(t) => Some(t.clone()),
        None => None,
    }
}

fn text_or<'a>(s: &'a Option<String>, other: &'a str) -> (r: &'a str)
    ensures
        r@ == or_default(*s, other@),
{
    match s {
        Some(t) => t.as_str(),
        None => other,
    }
}

/// What the style asks for.
pub open spec fn style_text(c: Config, style: RephraseStyle) -> Seq<char> {
    match style {
        RephraseStyle::Correct => or_default(
            c.rephrase.style.correct,
            DEFAULT_REPHRASE_STYLE_CORRECT@,
        ),
        RephraseStyle::Casual => or_default(c.rephrase.style.casual, DEFAULT_REPHRASE_STYLE_CASUAL@),
        RephraseStyle::Formal => or_default(c.rephrase.style.formal, DEFAULT_REPHRASE_STYLE_FORMAL@),
        RephraseStyle::Business => or_default(
            c.rephrase.style.business,
            DEFAULT_REPHRASE_STYLE_BUSINESS@,
        ),
        RephraseStyle::Technical => or_default(
            c.rephrase.style.technical,
            DEFAULT_REPHRASE_STYLE_TECHNICAL@,
        ),
    }
}

/// What the length asks for.
pub open spec fn length_text(c: Config, length: RephraseLength) -> Seq<char> {
    match length {
        RephraseLength::Terse => or_default(c.rephrase.length.terse, DEFAULT_REPHRASE_LENGTH_TERSE@),
        RephraseLength::Brief => or_default(c.rephrase.length.brief, DEFAULT_REPHRASE_LENGTH_BRIEF@),
        RephraseLength::Same => or_default(c.rephrase.length.same, DEFAULT_REPHRASE_LENGTH_SAME@),
        RephraseLength::Detailed => or_default(
            c.rephrase.length.detailed,
            DEFAULT_REPHRASE_LENGTH_DETAILED@,
        ),
        RephraseLength::Full => or_default(c.rephrase.length.full, DEFAULT_REPHRASE_LENGTH_FULL@),
    }
}

/// The prompt for rephrasing.
pub open spec fn rephrase_text(c: Config, style: RephraseStyle, length: RephraseLength) -> Seq<
    char,
> {
    prompt::collapsed(
        prompt::filled(
            or_default(c.rephrase.base, DEFAULT_REPHRASE_BASE@),
            seq![("{style}"@, style_text(c, style)), ("{length}"@, length_text(c, length))],
        ),
    )
}

/// What goes before every prompt, if anything does.
pub open spec fn preamble(c: Config) -> Option<Seq<char>> {
    non_empty(Some(or_default(c.prompt.preamble, DEFAULT_PROMPT_PREAMBLE@)))
}

/// `t` with the configured languages filled in.
pub open spec fn in_languages(c: Config, t: Seq<char>) -> Seq<char> {
    prompt::filled(t, prompt::languages(c.languages.primary@, c.languages.secondary@))
}

/// The prompt of a mode, without what goes before it.
pub open spec fn mode_prompt(
    c: Config,
    mode: ProcessMode,
    params: RephraseParams,
    image_only: bool,
) -> Seq<char> {
    match mode {
        ProcessMode::Translate => in_languages(
            c,
            or_default(c.translate.prompt, DEFAULT_TRANSLATE_PROMPT@),
        ),
        ProcessMode::Rephrase => rephrase_text(c, params.style, params.length),
        ProcessMode::Summarize => if image_only {
            in_languages(c, or_default(c.summarize.image_prompt, DEFAULT_SUMMARIZE_IMAGE_PROMPT@))
        } else {
            in_languages(c, or_default(c.summarize.prompt, DEFAULT_SUMMARIZE_PROMPT@))
        },
    }
}

/// The prompt of a mode, with what goes before it.
pub open spec fn full_prompt(
    c: Config,
    mode: ProcessMode,
    params: RephraseParams,
    image_only: bool,
) -> Seq<char> {
    match preamble(c) {
        Some(p) => in_languages(c, p) + "\n\n"@ + mode_prompt(c, mode, params, image_only),
        None => mode_prompt(c, mode, params, image_only),
    }
}

/// How a thinking mode is written.
pub open spec fn thinking_of(s: Option<String>) -> Option<ThinkingMode> {
    match s {
        Some(t) => if text::trim(t@, CharClass::Space) == "think"@ {
            Some(ThinkingMode::Think)
        } else if text::trim(t@, CharClass::Space) == "no_think"@ {
            Some(ThinkingMode::NoThink)
        } else {
            None
        },
        None => None,
    }
}

fn read_thinking(s: &Option<String>) -> (r: Option<ThinkingMode>)
    ensures
        r == thinking_of(*s),
{
    match s {
        Some(t) => {
            let v = chars_of(t.as_str());
            let w = trimmed(&v, CharClass::Space);
            let yes = chars_of("think");
            let no = chars_of("no_think");
            if same(&w, &yes) {
                Some(ThinkingMode::Think)
            } else if same(&w, &no) {
                Some(ThinkingMode::NoThink)
            } else {
                None
            }
        },
        None => None,
    }
}

/// The mode that a key stands for; letter case does not matter.
pub open spec fn mode_of_key(k: Seq<char>) -> Option<ProcessMode> {
    let key = text::lowercase(text::trim(k, CharClass::Space));
    if key == "translate"@ {
        Some(ProcessMode::Translate)
    } else if key == "rephrase"@ {
        Some(ProcessMode::Rephrase)
    } else if key == "summarize"@ {
        Some(ProcessMode::Summarize)
    } else {
        None
    }
}

fn read_mode(k: &str) -> (r: Option<ProcessMode>)
    ensures
        r == mode_of_key(k@),
{
    let v = chars_of(k);
    let t = trimmed(&v, CharClass::Space);
    let key = lowered(&t);
    let translate = chars_of("translate");
    let rephrase = chars_of("rephrase");
    let summarize = chars_of("summarize");
    if same(&key, &translate) {
        Some(ProcessMode::Translate)
    } else if same(&key, &rephrase) {
        Some(ProcessMode::Rephrase)
    } else if same(&key, &summarize) {
        Some(ProcessMode::Summarize)
    } else {
        None
    }
}

/// `tabs` with `m` at the end, unless it is there.
pub open spec fn with_tab(tabs: Seq<ProcessMode>, m: Option<ProcessMode>) -> Seq<ProcessMode> {
    match m {
        Some(mode) => if tabs.contains(mode) {
            tabs
        } else {
            tabs.push(mode)
        },
        None => tabs,
    }
}

/// The modes that the keys name, each once, in that order.
pub open spec fn named_tabs(keys: Seq<String>) -> Seq<ProcessMode>
    decreases keys.len(),
{
    if keys.len() == 0 {
        seq![]
    } else {
        with_tab(named_tabs(keys.drop_last()), mode_of_key(keys.last()@))
    }
}

/// The order of the modes: those that are named, then the others in the usual
/// order. No mode is ever left out.
pub open spec fn tab_order(keys: Option<Vec<String>>) -> Seq<ProcessMode> {
    let named = match keys {
        Some(k) => named_tabs(k@),
        None => seq![],
    };
    with_tab(
        with_tab(
            with_tab(named, Some(ProcessMode::Translate)),
            Some(ProcessMode::Rephrase),
        ),
        Some(ProcessMode::Summarize),
    )
}

/// Every mode has its place, and only one.
pub proof fn tab_order_is_complete(keys: Option<Vec<String>>, m: ProcessMode)
    ensures
        tab_order(keys).contains(m),
        tab_order(keys).no_duplicates(),
        tab_order(keys).len() == 3,
{
    let named = match keys {
        Some(k) => named_tabs(k@),
        None => seq![],
    };
    if let Some(k) = keys {
        lemma_named_tabs(k@);
    }
    let a = with_tab(named, Some(ProcessMode::Translate));
    lemma_with_tab(named, ProcessMode::Translate);
    let b = with_tab(a, Some(ProcessMode::Rephrase));
    lemma_with_tab(a, ProcessMode::Rephrase);
    let c = with_tab(b, Some(ProcessMode::Summarize));
    lemma_with_tab(b, ProcessMode::Summarize);
    assert(c.contains(ProcessMode::Translate));
    assert(c.contains(ProcessMode::Rephrase));
    assert(c.contains(ProcessMode::Summarize));
    let i = choose|i: int| 0 <= i < c.len() && c[i] == ProcessMode::Translate;
    let j = choose|j: int| 0 <= j < c.len() && c[j] == ProcessMode::Rephrase;
    let k = choose|k: int| 0 <= k < c.len() && c[k] == ProcessMode::Summarize;
    if c.len() > 3 {
        assert(c[0] != c[1] && c[0] != c[2] && c[0] != c[3] && c[1] != c[2] && c[1] != c[3] && c[2]
            != c[3]);
    }
}

proof fn lemma_with_tab(tabs: Seq<ProcessMode>, m: ProcessMode)
    requires
        tabs.no_duplicates(),
    ensures
        with_tab(tabs, Some(m)).no_duplicates(),
        with_tab(tabs, Some(m)).contains(m),
        forall|x: ProcessMode| tabs.contains(x) ==> with_tab(tabs, Some(m)).contains(x),
{
    let after = with_tab(tabs, Some(m));
    if !tabs.contains(m) {
        assert(after[tabs.len() as int] == m);
        assert forall|x: ProcessMode| tabs.contains(x) implies after.contains(x) by {
            let i = choose|i: int| 0 <= i < tabs.len() && tabs[i] == x;
            assert(after[i] == x);
        }
    }
}

proof fn lemma_named_tabs(keys: Seq<String>)
    ensures
        named_tabs(keys).no_duplicates(),
    decreases keys.len(),
{
    if keys.len() > 0 {
        lemma_named_tabs(keys.drop_last());
        if let Some(m) = mode_of_key(keys.last()@) {
            lemma_with_tab(named_tabs(keys.drop_last()), m);
        }
    }
}

fn add_tab(tabs: &mut Vec<ProcessMode>, m: Option<ProcessMode>)
    ensures
        final(tabs)@ == with_tab(old(tabs)@, m),
{
    if let Some(mode) = m {
        let mut i: usize = 0;
        while i < tabs.len()
            invariant
                i <= tabs@.len(),
                forall|j: int| 0 <= j < i ==> tabs@[j] != mode,
                tabs@ == old(tabs)@,
                m == Some(mode),
            decreases tabs.len() - i,
        {
            if tabs[i] == mode {
                assert(tabs@.contains(mode));
                return ;
            }
            i += 1;
        }
        assert(!tabs@.contains(mode));
        tabs.push(mode);
    }
}

impl Config {
    /// The provider that `[api]` names.
    pub fn api_provider(&self) -> (r: Option<&str>)
        ensures
            str_view(r) == text_view(self.api.provider),
    {
        as_text(&self.api.provider)
    }

    /// The address that `[api]` names.
    pub fn api_endpoint(&self) -> (r: Option<&str>)
        ensures
            str_view(r) == text_view(self.api.endpoint),
    {
        as_text(&self.api.endpoint)
    }

    /// The credential store that `[api]` names.
    pub fn api_auth_file(&self) -> (r: Option<&str>)
        ensures
            str_view(r) == text_view(self.api.auth_file),
    {
        as_text(&self.api.auth_file)
    }

    /// The model that `[api]` names.
    pub fn api_model(&self) -> (r: Option<&str>)
        ensures
            str_view(r) == text_view(self.api.model),
    {
        as_text(&self.api.model)
    }

    /// The key that `[api]` names.
    pub fn api_key(&self) -> (r: Option<&str>)
        ensures
            str_view(r) == text_view(self.api.api_key),
    {
        as_text(&self.api.api_key)
    }

    /// Whether answers are to be streamed, where `[api]` says so.
    pub fn api_streaming(&self) -> (r: Option<bool>)
        ensures
            r == self.api.streaming,
    {
        self.api.streaming
    }

    /// The headers of `[api.headers]`.
    pub fn api_headers(&self) -> (r: &Vec<(String, String)>)
        ensures
            r == self.api.headers,
    {
        &self.api.headers
    }

    /// What goes before every prompt. The built-in text where the file says
    /// nothing; nothing where it says so with an empty text.
    pub fn prompt_preamble(&self) -> (r: Option<&str>)
        ensures
            str_view(r) == preamble(*self),
    {
        let p = text_or(&self.prompt.preamble, DEFAULT_PROMPT_PREAMBLE);
        if p.is_empty() {
            None
        } else {
            Some(p)
        }
    }

    /// Where logs are sent; `None` where they are not.
    pub fn telemetry_url(&self) -> (r: Option<&str>)
        ensures
            str_view(r) == non_empty(text_view(self.telemetry.url)),
    {
        match &self.telemetry.url {
            Some(t) => if t.as_str().is_empty() {
                None
            } else {
                Some(t.as_str())
            },
            None => None,
        }
    }

    /// The least level that is sent.
    pub fn telemetry_level(&self) -> (r: Option<&str>)
        ensures
            str_view(r) == text_view(self.telemetry.level),
    {
        as_text(&self.telemetry.level)
    }

    /// How many records go out at once at most.
    pub fn telemetry_batch_max(&self) -> (r: Option<usize>)
        ensures
            r == self.telemetry.batch_max,
    {
        self.telemetry.batch_max
    }

    /// How freely the model picks its words.
    pub fn generation_temperature(&self) -> (r: Option<&serde_json::Number>)
        ensures
            match (r, self.generation.temperature) {
                (Some(a), Some(b)) => *a == b,
                (None, None) => true,
                _ => false,
            },
    {
        match &self.generation.temperature {
            Some(n) => Some(n),
            None => None,
        }
    }

    /// How many tokens an answer may have.
    pub fn generation_max_tokens(&self) -> (r: Option<u32>)
        ensures
            r == self.generation.max_tokens,
    {
        self.generation.max_tokens
    }

    /// How many tokens prompt and answer may have together.
    pub fn generation_token_budget(&self) -> (r: Option<u32>)
        ensures
            r == self.generation.token_budget,
    {
        self.generation.token_budget
    }

    /// How long a request may take.
    pub fn generation_request_timeout_secs(&self) -> (r: Option<u64>)
        ensures
            r == self.generation.request_timeout_secs,
    {
        self.generation.request_timeout_secs
    }

    /// How long a streamed answer may take to begin.
    pub fn generation_initial_response_timeout_secs(&self) -> (r: Option<u64>)
        ensures
            r == self.generation.initial_response_timeout_secs,
    {
        self.generation.initial_response_timeout_secs
    }

    /// How close together two taps must be to count as one double tap.
    pub fn hotkey_double_tap_timeout_ms(&self) -> (r: Option<u64>)
        ensures
            r == self.hotkey.double_tap_timeout_ms,
    {
        self.hotkey.double_tap_timeout_ms
    }

    /// Whether the result of a single tap stays open; it does not by default.
    pub fn ui_single_tap_pinned(&self) -> (r: bool)
        ensures
            r == (self.ui.single_tap_pinned == Some(true)),
    {
        match self.ui.single_tap_pinned {
            Some(b) => b,
            None => false,
        }
    }

    /// Whether the result of a double tap stays open; it does not by default.
    pub fn ui_double_tap_pinned(&self) -> (r: bool)
        ensures
            r == (self.ui.double_tap_pinned == Some(true)),
    {
        match self.ui.double_tap_pinned {
            Some(b) => b,
            None => false,
        }
    }

    /// The order of the modes. The first one is selected at the start.
    pub fn ui_tab_order(&self) -> (r: Vec<ProcessMode>)
        ensures
            r@ == tab_order(self.ui.tabs),
    {
        let mut tabs: Vec<ProcessMode> = Vec::new();
        if let Some(keys) = &self.ui.tabs {
            let mut i: usize = 0;
            assert(keys@.take(0) =~= Seq::<String>::empty());
            while i < keys.len()
                invariant
                    i <= keys@.len(),
                    tabs@ == named_tabs(keys@.take(i as int)),
                decreases keys.len() - i,
            {
                assert(keys@.take(i + 1).drop_last() =~= keys@.take(i as int));
                add_tab(&mut tabs, read_mode(keys[i].as_str()));
                i += 1;
            }
            assert(keys@.take(i as int) =~= keys@);
        }
        add_tab(&mut tabs, Some(ProcessMode::Translate));
        add_tab(&mut tabs, Some(ProcessMode::Rephrase));
        add_tab(&mut tabs, Some(ProcessMode::Summarize));
        tabs
    }

    /// The name of the profile to start with.
    pub fn ui_default_model(&self) -> (r: Option<&str>)
        ensures
            str_view(r) == text_view(self.ui.default_model),
    {
        as_text(&self.ui.default_model)
    }

    /// Whether the model thinks first in this mode, where the file says so.
    pub fn mode_default_thinking(&self, mode: ProcessMode) -> (r: Option<ThinkingMode>)
        ensures
            r == thinking_of(
                match mode {
                    ProcessMode::Translate => self.translate.thinking,
                    ProcessMode::Rephrase => self.rephrase.thinking,
                    ProcessMode::Summarize => self.summarize.thinking,
                },
            ),
    {
        match mode {
            ProcessMode::Translate => read_thinking(&self.translate.thinking),
            ProcessMode::Rephrase => read_thinking(&self.rephrase.thinking),
            ProcessMode::Summarize => read_thinking(&self.summarize.thinking),
        }
    }

    /// The name of the primary language.
    pub fn primary_lang(&self) -> (r: &str)
        ensures
            r@ == self.languages.primary@,
    {
        self.languages.primary.as_str()
    }

    /// The name of the secondary language.
    pub fn secondary_lang(&self) -> (r: &str)
        ensures
            r@ == self.languages.secondary@,
    {
        self.languages.secondary.as_str()
    }

    /// How to translate, before placeholders are filled in.
    pub fn translate_prompt(&self) -> (r: &str)
        ensures
            r@ == or_default(self.translate.prompt, DEFAULT_TRANSLATE_PROMPT@),
    {
        text_or(&self.translate.prompt, DEFAULT_TRANSLATE_PROMPT)
    }

    /// How to rephrase, before placeholders are filled in.
    pub fn rephrase_base(&self) -> (r: &str)
        ensures
            r@ == or_default(self.rephrase.base, DEFAULT_REPHRASE_BASE@),
    {
        text_or(&self.rephrase.base, DEFAULT_REPHRASE_BASE)
    }

    /// What the style asks for.
    pub fn rephrase_style(&self, style: RephraseStyle) -> (r: &str)
        ensures
            r@ == style_text(*self, style),
    {
        let table = &self.rephrase.style;
        match style {
            RephraseStyle::Correct => text_or(&table.correct, DEFAULT_REPHRASE_STYLE_CORRECT),
            RephraseStyle::Casual => text_or(&table.casual, DEFAULT_REPHRASE_STYLE_CASUAL),
            RephraseStyle::Formal => text_or(&table.formal, DEFAULT_REPHRASE_STYLE_FORMAL),
            RephraseStyle::Business => text_or(&table.business, DEFAULT_REPHRASE_STYLE_BUSINESS),
            RephraseStyle::Technical => text_or(&table.technical, DEFAULT_REPHRASE_STYLE_TECHNICAL),
        }
    }

    /// What the length asks for. To stay as long asks for nothing.
    pub fn rephrase_length(&self, length: RephraseLength) -> (r: &str)
        ensures
            r@ == length_text(*self, length),
    {
        let table = &self.rephrase.length;
        match length {
            RephraseLength::Terse => text_or(&table.terse, DEFAULT_REPHRASE_LENGTH_TERSE),
            RephraseLength::Brief => text_or(&table.brief, DEFAULT_REPHRASE_LENGTH_BRIEF),
            RephraseLength::Same => text_or(&table.same, DEFAULT_REPHRASE_LENGTH_SAME),
            RephraseLength::Detailed => text_or(&table.detailed, DEFAULT_REPHRASE_LENGTH_DETAILED),
            RephraseLength::Full => text_or(&table.full, DEFAULT_REPHRASE_LENGTH_FULL),
        }
    }

    /// How to summarize a text, before placeholders are filled in.
    pub fn summarize_prompt(&self) -> (r: &str)
        ensures
            r@ == or_default(self.summarize.prompt, DEFAULT_SUMMARIZE_PROMPT@),
    {
        text_or(&self.summarize.prompt, DEFAULT_SUMMARIZE_PROMPT)
    }

    /// How to summarize images, before placeholders are filled in.
    pub fn summarize_image_prompt(&self) -> (r: &str)
        ensures
            r@ == or_default(self.summarize.image_prompt, DEFAULT_SUMMARIZE_IMAGE_PROMPT@),
    {
        text_or(&self.summarize.image_prompt, DEFAULT_SUMMARIZE_IMAGE_PROMPT)
    }

    /// The prompt for rephrasing. Style and length go in in one pass, and no
    /// doubled space is left where one of them is empty.
    pub fn rephrase_prompt(&self, style: RephraseStyle, length: RephraseLength) -> (r: String)
        ensures
            r@ == rephrase_text(*self, style, length),
            !prompt::doubled_space(r@),
    {
        let vars = [
            ("{style}", self.rephrase_style(style)),
            ("{length}", self.rephrase_length(length)),
        ];
        assert(prompt::vars_view(vars@) =~= seq![
            ("{style}"@, style_text(*self, style)),
            ("{length}"@, length_text(*self, length)),
        ]);
        let assembled = substitute_tokens(self.rephrase_base(), &vars);
        collapse_spaces(assembled.as_str())
    }
}

impl ProcessMode {
    /// The system prompt of this mode.
    pub fn system_prompt(self, config: &Config, params: RephraseParams, image_only: bool) -> (r:
        String)
        ensures
            r@ == full_prompt(*config, self, params, image_only),
    {
        let primary = config.primary_lang();
        let secondary = config.secondary_lang();
        let own = match self {
            ProcessMode::Translate => substitute(config.translate_prompt(), primary, secondary),
            ProcessMode::Rephrase => config.rephrase_prompt(params.style, params.length),
            ProcessMode::Summarize => if image_only {
                substitute(config.summarize_image_prompt(), primary, secondary)
            } else {
                substitute(config.summarize_prompt(), primary, secondary)
            },
        };
        match config.prompt_preamble() {
            Some(p) => {
                let first = substitute(p, primary, secondary);
                let mut v = chars_of(first.as_str());
                push_text(&mut v, "\n\n");
                push_text(&mut v, own.as_str());
                string_of(&v)
            },
            None => own,
        }
    }
}

// ---------------------------------------------------------------------------
// Model profiles
// ---------------------------------------------------------------------------

/// What a run of pairs says.
pub open spec fn pairs_view(v: Seq<(String, String)>) -> Seq<(Seq<char>, Seq<char>)> {
    v.map_values(|p: (String, String)| (p.0@, p.1@))
}

/// A copy of a run of pairs.
pub fn copy_pairs(v: &Vec<(String, String)>) -> (r: Vec<(String, String)>)
    ensures
        pairs_view(r@) == pairs_view(v@),
{
    let mut r: Vec<(String, String)> = Vec::new();
    let mut i: usize = 0;
    while i < v.len()
        invariant
            i <= v@.len(),
            pairs_view(r@) == pairs_view(v@).take(i as int),
        decreases v.len() - i,
    {
        let ghost before = pairs_view(r@);
        r.push((v[i].0.clone(), v[i].1.clone()));
        assert(pairs_view(r@) =~= before.push(pairs_view(v@)[i as int]));
        i += 1;
        assert(pairs_view(v@).take(i as int) =~= pairs_view(v@).take(i - 1).push(
            pairs_view(v@)[i - 1],
        ));
    }
    assert(pairs_view(v@).take(i as int) =~= pairs_view(v@));
    r
}

/// What a [`ModelSpec`] says.
#[verifier::ext_equal]
pub struct SpecView {
    pub name: Seq<char>,
    pub provider: Option<Seq<char>>,
    pub endpoint: Option<Seq<char>>,
    pub model: Option<Seq<char>>,
    pub api_key: Option<Seq<char>>,
    pub auth_file: Option<Seq<char>>,
    pub headers: Seq<(Seq<char>, Seq<char>)>,
    pub max_tokens: Option<u32>,
    pub token_budget: Option<u32>,
    pub thinking_control: Option<Seq<char>>,
    pub from_api_section: bool,
}

impl ModelSpec {
    pub open spec fn view(&self) -> SpecView {
        SpecView {
            name: self.name@,
            provider: text_view(self.provider),
            endpoint: text_view(self.endpoint),
            model: text_view(self.model),
            api_key: text_view(self.api_key),
            auth_file: text_view(self.auth_file),
            headers: pairs_view(self.headers@),
            max_tokens: self.max_tokens,
            token_budget: self.token_budget,
            thinking_control: text_view(self.thinking_control),
            from_api_section: self.from_api_section,
        }
    }
}

/// What a run of profiles says.
pub open spec fn specs_view(v: Seq<ModelSpec>) -> Seq<SpecView> {
    v.map_values(|s: ModelSpec| s@)
}

/// The profile of `[api]`. It goes by its model.
pub open spec fn api_profile(c: Config) -> SpecView {
    SpecView {
        name: match non_empty(text_view(c.api.model)) {
            Some(m) => m,
            None => "default"@,
        },
        provider: text_view(c.api.provider),
        endpoint: text_view(c.api.endpoint),
        model: text_view(c.api.model),
        api_key: text_view(c.api.api_key),
        auth_file: text_view(c.api.auth_file),
        headers: pairs_view(c.api.headers@),
        max_tokens: None,
        token_budget: None,
        thinking_control: text_view(c.api.thinking_control),
        from_api_section: true,
    }
}

/// What a further profile goes by: its name, or its model.
pub open spec fn profile_name(m: ModelConfig) -> Option<Seq<char>> {
    match non_empty(text_view(m.name)) {
        Some(n) => Some(n),
        None => non_empty(text_view(m.model)),
    }
}

/// A further profile that goes by `name`.
pub open spec fn further_profile(m: ModelConfig, name: Seq<char>) -> SpecView {
    SpecView {
        name,
        provider: text_view(m.provider),
        endpoint: text_view(m.endpoint),
        model: text_view(m.model),
        api_key: text_view(m.api_key),
        auth_file: text_view(m.auth_file),
        headers: pairs_view(m.headers@),
        max_tokens: m.max_tokens,
        token_budget: m.token_budget,
        thinking_control: text_view(m.thinking_control),
        from_api_section: false,
    }
}

/// The further profiles, or none where one has nothing to go by.
pub open spec fn further_profiles(models: Seq<ModelConfig>) -> Option<Seq<SpecView>>
    decreases models.len(),
{
    if models.len() == 0 {
        Some(seq![])
    } else {
        match (further_profiles(models.drop_last()), profile_name(models.last())) {
            (Some(before), Some(name)) => Some(before.push(further_profile(models.last(), name))),
            _ => None,
        }
    }
}

/// Whether `[api]` counts as a profile: unless there are others and it names
/// no model.
pub open spec fn api_counts(c: Config) -> bool {
    c.models@.len() == 0 || non_empty(text_view(c.api.model)) is Some
}

/// All profiles, the one of `[api]` first.
pub open spec fn profiles(c: Config) -> Option<Seq<SpecView>> {
    match further_profiles(c.models@) {
        Some(more) => if api_counts(c) {
            Some(seq![api_profile(c)] + more)
        } else {
            Some(more)
        },
        None => None,
    }
}

/// There is always a profile to start with.
pub proof fn some_profile_is_first(c: Config)
    ensures
        profiles(c) matches Some(all) ==> all.len() > 0,
{
    lemma_further_len(c.models@);
}

proof fn lemma_further_len(models: Seq<ModelConfig>)
    ensures
        further_profiles(models) matches Some(all) ==> all.len() == models.len(),
    decreases models.len(),
{
    if models.len() > 0 {
        lemma_further_len(models.drop_last());
    }
}

proof fn lemma_further_all(models: Seq<ModelConfig>, i: int)
    requires
        0 <= i < models.len(),
        profile_name(models[i]) is None,
    ensures
        further_profiles(models) is None,
    decreases models.len(),
{
    if i < models.len() - 1 {
        lemma_further_all(models.drop_last(), i);
    }
}

fn filled_text(s: &Option<String>) -> (r: Option<String>)
    ensures
        text_view(r) == non_empty(text_view(*s)),
{
    match s {
        Some(t) => if t.as_str().is_empty() {
            None
        } else {
            Some(t.clone())
        },
        None => None,
    }
}

impl Config {
    /// All model profiles, the one of `[api]` first. It is left out where there
    /// are others and it names no model.
    pub fn model_specs(&self) -> (r: Result<Vec<ModelSpec>, String>)
        ensures
            match r {
                Ok(all) => profiles(*self) == Some(specs_view(all@)),
                Err(why) => profiles(*self) is None && why@
                    == "every [[models]] entry needs a name or a model"@,
            },
    {
        let mut all: Vec<ModelSpec> = Vec::new();
        let own = filled_text(&self.api.model);
        let ghost counts = api_counts(*self);
        if self.models.len() == 0 || own.is_some() {
            all.push(
                ModelSpec {
                    name: match own {
                        Some(m) => m,
                        None => "default".to_owned(),
                    },
                    provider: copy_text(&self.api.provider),
                    endpoint: copy_text(&self.api.endpoint),
                    model: copy_text(&self.api.model),
                    api_key: copy_text(&self.api.api_key),
                    auth_file: copy_text(&self.api.auth_file),
                    headers: copy_pairs(&self.api.headers),
                    max_tokens: None,
                    token_budget: None,
                    thinking_control: copy_text(&self.api.thinking_control),
                    from_api_section: true,
                },
            );
            assert(all@[0]@ == api_profile(*self));
        }
        let ghost first = if counts {
            seq![api_profile(*self)]
        } else {
            seq![]
        };
        assert(specs_view(all@) =~= first);
        let mut i: usize = 0;
        let ghost mut more = Seq::<SpecView>::empty();
        assert(self.models@.take(0) =~= Seq::<ModelConfig>::empty());
        assert(specs_view(all@) =~= first + more);
        while i < self.models.len()
            invariant
                i <= self.models@.len(),
                further_profiles(self.models@.take(i as int)) == Some(more),
                specs_view(all@) == first + more,
            decreases self.models.len() - i,
        {
            let m = &self.models[i];
            assert(self.models@.take(i + 1).drop_last() =~= self.models@.take(i as int));
            let name = match filled_text(&m.name) {
                Some(n) => Some(n),
                None => filled_text(&m.model),
            };
            let name = match name {
                Some(n) => n,
                None => {
                    proof {
                        lemma_further_all(self.models@, i as int);
                    }
                    return Err("every [[models]] entry needs a name or a model".to_owned());
                },
            };
            let ghost before = specs_view(all@);
            let spec = ModelSpec {
                name,
                provider: copy_text(&m.provider),
                endpoint: copy_text(&m.endpoint),
                model: copy_text(&m.model),
                api_key: copy_text(&m.api_key),
                auth_file: copy_text(&m.auth_file),
                headers: copy_pairs(&m.headers),
                max_tokens: m.max_tokens,
                token_budget: m.token_budget,
                thinking_control: copy_text(&m.thinking_control),
                from_api_section: false,
            };
            let ghost said = spec@;
            all.push(spec);
            proof {
                more = more.push(said);
                assert(specs_view(all@) =~= before.push(said));
                assert(specs_view(all@) =~= first + more);
            }
            i += 1;
        }
        assert(self.models@.take(i as int) =~= self.models@);
        assert(Seq::<SpecView>::empty() + more =~= more);
        Ok(all)
    }
}

// ---------------------------------------------------------------------------
// Reading the file
// ---------------------------------------------------------------------------

/// `[generation]` without zeros that would make no sense: no answer could be
/// had with them. A temperature of zero does make sense.
pub open spec fn sanitized(g: GenerationConfig) -> GenerationConfig {
    GenerationConfig {
        temperature: g.temperature,
        max_tokens: if g.max_tokens == Some(0u32) {
            None
        } else {
            g.max_tokens
        },
        token_budget: if g.token_budget == Some(0u32) {
            None
        } else {
            g.token_budget
        },
        request_timeout_secs: if g.request_timeout_secs == Some(0u64) {
            None
        } else {
            g.request_timeout_secs
        },
        initial_response_timeout_secs: if g.initial_response_timeout_secs == Some(0u64) {
            None
        } else {
            g.initial_response_timeout_secs
        },
    }
}

/// Takes out zeros that would make no sense, so that the built-in values hold.
pub fn sanitize_generation(generation: GenerationConfig) -> (r: GenerationConfig)
    ensures
        r == sanitized(generation),
{
    let max_tokens = match generation.max_tokens {
        Some(n) => if n == 0 {
            None
        } else {
            Some(n)
        },
        None => None,
    };
    let token_budget = match generation.token_budget {
        Some(n) => if n == 0 {
            None
        } else {
            Some(n)
        },
        None => None,
    };
    let request_timeout_secs = match generation.request_timeout_secs {
        Some(n) => if n == 0 {
            None
        } else {
            Some(n)
        },
        None => None,
    };
    let initial_response_timeout_secs = match generation.initial_response_timeout_secs {
        Some(n) => if n == 0 {
            None
        } else {
            Some(n)
        },
        None => None,
    };
    GenerationConfig {
        temperature: generation.temperature,
        max_tokens,
        token_budget,
        request_timeout_secs,
        initial_response_timeout_secs,
    }
}

/// Taking the zeros out twice is taking them out once.
pub proof fn sanitizing_is_idempotent(g: GenerationConfig)
    ensures
        sanitized(sanitized(g)) == sanitized(g),
{
}

/// How many characters of `s` start before the byte `offset`.
pub open spec fn chars_before(s: Seq<char>, offset: int) -> int
    decreases s.len(),
{
    if s.len() == 0 || offset <= 0 {
        0
    } else {
        1 + chars_before(s.drop_first(), offset - text::char_bytes(s[0]))
    }
}

/// The line and the column behind `s`, each counted from 1.
pub open spec fn position_after(s: Seq<char>) -> (int, int)
    decreases s.len(),
{
    if s.len() == 0 {
        (1, 1)
    } else {
        let (line, column) = position_after(s.drop_last());
        if s.last() == '\n' {
            (line + 1, 1)
        } else {
            (line, column + 1)
        }
    }
}

/// The line and the column of a byte of `contents`, each counted from 1; of a
/// byte behind the end, those of the end.
pub fn line_col_at(contents: &str, byte_offset: usize) -> (r: (usize, usize))
    requires
        contents@.len() < usize::MAX,
    ensures
        (r.0 as int, r.1 as int) == position_after(
            contents@.take(chars_before(contents@, byte_offset as int)),
        ),
{
    let v = chars_of(contents);
    let mut line: usize = 1;
    let mut column: usize = 1;
    let mut left: usize = byte_offset;
    let mut i: usize = 0;
    assert(v@.take(0) =~= Seq::<char>::empty());
    assert(v@.skip(0) =~= v@);
    while i < v.len() && left > 0
        invariant
            i <= v@.len(),
            v@ == contents@,
            contents@.len() < usize::MAX,
            line <= i + 1,
            column <= i + 1,
            (line as int, column as int) == position_after(v@.take(i as int)),
            i + chars_before(v@.skip(i as int), left as int) == chars_before(
                v@,
                byte_offset as int,
            ),
        decreases v.len() - i,
    {
        let n = text::char_byte_len(v[i]);
        let ghost rest = v@.skip(i as int);
        proof {
            assert(rest.drop_first() =~= v@.skip(i + 1));
            assert(v@.take(i + 1).drop_last() =~= v@.take(i as int));
            if left < n {
                assert(chars_before(rest.drop_first(), left - n) == 0);
                assert(chars_before(rest.drop_first(), 0) == 0);
            }
        }
        if v[i] == '\n' {
            line += 1;
            column = 1;
        } else {
            column += 1;
        }
        left = if left < n {
            0
        } else {
            left - n
        };
        i += 1;
    }
    proof {
        assert(chars_before(v@.skip(i as int), left as int) == 0);
    }
    (line, column)
}

/// The largest file that is read as configuration, in bytes.
pub const MAX_CONFIG_BYTES: u64 = 1_048_576;

/// Name of the configuration file next to the program.
pub const CONFIG_FILENAME: &'static str = "config.toml";

/// The environment variable that names another configuration file.
pub const CONFIG_ENV: &'static str = "CLIP_LLM_CONFIG";

/// What came of reading the configuration.
#[derive(Debug, Clone, PartialEq)]
pub enum LoadOutcome {
    /// There is no file.
    NoFile,
    /// It was read from this file.
    Loaded(String),
    /// There is a file, but it cannot be used.
    Failed { path: String, reason: &'static str },
}

/// What is known of a file before it is read.
#[derive(Clone, Copy)]
pub struct FileMeta {
    pub is_file: bool,
    pub len: u64,
}

/// What came of reading a file.
pub enum FileText {
    /// It could not be read.
    Unreadable,
    /// It is no configuration.
    Invalid,
    /// It is this one.
    Parsed(Config),
}

/// The path in the environment variable; an empty one counts as none.
pub fn env_config_path(value: Option<String>) -> (r: Option<String>)
    ensures
        text_view(r) == non_empty(text_view(value)),
{
    filled_text(&value)
}

/// Where a configuration file is, or would be: at the path in the environment
/// variable, or else next to the program.
pub fn candidate_path(env: Option<String>, next_to_program: Option<String>) -> (r: Option<String>)
    ensures
        text_view(r) == (if non_empty(text_view(env)) is Some {
            text_view(env)
        } else {
            text_view(next_to_program)
        }),
{
    match env_config_path(env) {
        Some(p) => Some(p),
        None => next_to_program,
    }
}

/// Which file is read: the one in the environment variable, there or not, or
/// else the one next to the program where it is a regular file.
pub fn resolve_path(env: Option<String>, next_to_program: Option<String>, is_file: bool) -> (r:
    Option<String>)
    ensures
        text_view(r) == (if non_empty(text_view(env)) is Some {
            text_view(env)
        } else if is_file {
            text_view(next_to_program)
        } else {
            None
        }),
{
    match env_config_path(env) {
        Some(p) => Some(p),
        None => if is_file {
            next_to_program
        } else {
            None
        },
    }
}

/// Why a file is not read, if it is not.
pub open spec fn refusal(meta: Option<FileMeta>) -> Option<Seq<char>> {
    match meta {
        None => Some("file not accessible"@),
        Some(m) => if !m.is_file {
            Some("not a regular file"@)
        } else if m.len > MAX_CONFIG_BYTES {
            Some("file too large"@)
        } else {
            None
        },
    }
}

/// Why a file is not read, if it is not: it must be a regular one, and small.
pub fn refuse_file(meta: Option<FileMeta>) -> (r: Option<&'static str>)
    ensures
        str_view(r) == refusal(meta),
{
    match meta {
        None => Some("file not accessible"),
        Some(m) => if !m.is_file {
            Some("not a regular file")
        } else if m.len > MAX_CONFIG_BYTES {
            Some("file too large")
        } else {
            None
        },
    }
}

/// What a [`LoadOutcome`] says.
pub enum OutcomeView {
    NoFile,
    Loaded(Seq<char>),
    Failed(Seq<char>, Seq<char>),
}

impl LoadOutcome {
    pub open spec fn view(&self) -> OutcomeView {
        match self {
            LoadOutcome::NoFile => OutcomeView::NoFile,
            LoadOutcome::Loaded(p) => OutcomeView::Loaded(p@),
            LoadOutcome::Failed { path, reason } => OutcomeView::Failed(path@, reason@),
        }
    }
}

/// The settings that hold, and what came of reading them. `found` is the file's
/// path and what is known of it; `text` is what came of reading it, which is
/// only looked at where the file may be read. Where anything fails, the
/// built-in settings hold.
pub fn load_or_default(found: Option<(String, Option<FileMeta>)>, text: FileText) -> (r: (
    Config,
    LoadOutcome,
))
    ensures
        match found {
            None => says_nothing(r.0) && r.1@ == OutcomeView::NoFile,
            Some((path, meta)) => match refusal(meta) {
                Some(reason) => says_nothing(r.0) && r.1@ == OutcomeView::Failed(path@, reason),
                None => match text {
                    FileText::Parsed(c) => r.0 == (Config {
                        generation: sanitized(c.generation),
                        ..c
                    }) && r.1@ == OutcomeView::Loaded(path@),
                    FileText::Invalid => says_nothing(r.0) && r.1@ == OutcomeView::Failed(
                        path@,
                        "invalid TOML"@,
                    ),
                    FileText::Unreadable => says_nothing(r.0) && r.1@ == OutcomeView::Failed(
                        path@,
                        "file could not be read"@,
                    ),
                },
            },
        },
{
    let (path, meta) = match found {
        None => {
            return (Config::default(), LoadOutcome::NoFile);
        },
        Some(f) => f,
    };
    if let Some(reason) = refuse_file(meta) {
        return (Config::default(), LoadOutcome::Failed { path, reason });
    }
    match text {
        FileText::Parsed(c) => {
            let mut config = c;
            config.generation = sanitize_generation(config.generation);
            (config, LoadOutcome::Loaded(path))
        },
        FileText::Invalid => (
            Config::default(),
            LoadOutcome::Failed { path, reason: "invalid TOML" },
        ),
        FileText::Unreadable => (
            Config::default(),
            LoadOutcome::Failed { path, reason: "file could not be read" },
        ),
    }
}

/// Where in the file an error is, for the log. Nothing of the file's text goes
/// in, as it may hold a key.
pub fn error_location(contents: &str, span_start: Option<usize>) -> (r: String)
    requires
        contents@.len() < usize::MAX,
    ensures
        r@ == match span_start {
            Some(at) => {
                let p = position_after(contents@.take(chars_before(contents@, at as int)));
                " at line "@ + crate::numbers::dec(p.0 as nat) + ", column "@ + crate::numbers::dec(
                    p.1 as nat,
                )
            },
            None => Seq::<char>::empty(),
        },
{
    match span_start {
        Some(at) => {
            let (line, column) = line_col_at(contents, at);
            let mut v = chars_of(" at line ");
            let l = crate::numbers::dec_of(line as u128);
            text::extend(&mut v, &l);
            push_text(&mut v, ", column ");
            let c = crate::numbers::dec_of(column as u128);
            text::extend(&mut v, &c);
            string_of(&v)
        },
        None => String::new(),
    }
}

// ---------------------------------------------------------------------------
// What the prompts go by
// ---------------------------------------------------------------------------

/// What stands under a key of `[rephrase.style]` is what the style of that name asks
/// for, and where nothing stands there it asks for what its name says; the keys of
/// the other styles make no difference.
pub proof fn each_style_goes_by_its_own_key(c: Config, d: Config)
    ensures
        c.rephrase.style.correct matches Some(t) ==> style_text(c, RephraseStyle::Correct) == t@,
        c.rephrase.style.casual matches Some(t) ==> style_text(c, RephraseStyle::Casual) == t@,
        c.rephrase.style.formal matches Some(t) ==> style_text(c, RephraseStyle::Formal) == t@,
        c.rephrase.style.business matches Some(t) ==> style_text(c, RephraseStyle::Business) == t@,
        c.rephrase.style.technical matches Some(t) ==> style_text(c, RephraseStyle::Technical) == t@,
        c.rephrase.style.correct is None ==> style_text(c, RephraseStyle::Correct)
            == "Fix grammar, spelling, and punctuation. Preserve original tone and style exactly."@,
        c.rephrase.style.casual is None ==> style_text(c, RephraseStyle::Casual)
            == "Rewrite in a friendly, conversational tone. Fix any errors."@,
        c.rephrase.style.formal is None ==> style_text(c, RephraseStyle::Formal)
            == "Rewrite in a polite, formal register. Fix any errors."@,
        c.rephrase.style.business is None ==> style_text(c, RephraseStyle::Business)
            == "Rewrite in a concise, professional business tone. Fix any errors."@,
        c.rephrase.style.technical is None ==> style_text(c, RephraseStyle::Technical)
            == "Rewrite using precise technical/engineering terminology naturally. Fix any errors."@,
        c.rephrase.style.correct == d.rephrase.style.correct ==> style_text(
            c,
            RephraseStyle::Correct,
        ) == style_text(d, RephraseStyle::Correct),
        c.rephrase.style.casual == d.rephrase.style.casual ==> style_text(c, RephraseStyle::Casual)
            == style_text(d, RephraseStyle::Casual),
        c.rephrase.style.formal == d.rephrase.style.formal ==> style_text(c, RephraseStyle::Formal)
            == style_text(d, RephraseStyle::Formal),
        c.rephrase.style.business == d.rephrase.style.business ==> style_text(
            c,
            RephraseStyle::Business,
        ) == style_text(d, RephraseStyle::Business),
        c.rephrase.style.technical == d.rephrase.style.technical ==> style_text(
            c,
            RephraseStyle::Technical,
        ) == style_text(d, RephraseStyle::Technical),
{
}

/// The same of `[rephrase.length]`: each length goes by its own key. Where nothing is
/// said, a length below or above the text's own asks for a share of it, and to stay
/// as long asks for nothing.
pub proof fn each_length_goes_by_its_own_key(c: Config, d: Config)
    ensures
        c.rephrase.length.terse matches Some(t) ==> length_text(c, RephraseLength::Terse) == t@,
        c.rephrase.length.brief matches Some(t) ==> length_text(c, RephraseLength::Brief) == t@,
        c.rephrase.length.same matches Some(t) ==> length_text(c, RephraseLength::Same) == t@,
        c.rephrase.length.detailed matches Some(t) ==> length_text(c, RephraseLength::Detailed)
            == t@,
        c.rephrase.length.full matches Some(t) ==> length_text(c, RephraseLength::Full) == t@,
        c.rephrase.length.terse is None ==> length_text(c, RephraseLength::Terse)
            == "Target output length: 40% of input. Cut aggressively — keep only the single core point per sentence. Do not pad."@,
        c.rephrase.length.brief is None ==> length_text(c, RephraseLength::Brief)
            == "Target output length: 70% of input. Remove all redundancy and filler. Do not pad."@,
        c.rephrase.length.same is None ==> length_text(c, RephraseLength::Same).len() == 0,
        c.rephrase.length.detailed is None ==> length_text(c, RephraseLength::Detailed)
            == "Target output length: 150% of input. Do not exceed 160%. Add only concrete context — no padding or filler."@,
        c.rephrase.length.full is None ==> length_text(c, RephraseLength::Full)
            == "Target output length: 200% of input. Do not exceed 220%. Add substantive detail only — no padding or repetition."@,
        c.rephrase.length.terse == d.rephrase.length.terse ==> length_text(c, RephraseLength::Terse)
            == length_text(d, RephraseLength::Terse),
        c.rephrase.length.brief == d.rephrase.length.brief ==> length_text(c, RephraseLength::Brief)
            == length_text(d, RephraseLength::Brief),
        c.rephrase.length.same == d.rephrase.length.same ==> length_text(c, RephraseLength::Same)
            == length_text(d, RephraseLength::Same),
        c.rephrase.length.detailed == d.rephrase.length.detailed ==> length_text(
            c,
            RephraseLength::Detailed,
        ) == length_text(d, RephraseLength::Detailed),
        c.rephrase.length.full == d.rephrase.length.full ==> length_text(c, RephraseLength::Full)
            == length_text(d, RephraseLength::Full),
{
    reveal_strlit("");
}

/// The prompt for rephrasing asks for the style and the length where the base has
/// their placeholders, and keeps the rest of it, spacing aside.
pub proof fn style_and_length_are_asked_for(
    c: Config,
    style: RephraseStyle,
    length: RephraseLength,
    head: Seq<char>,
    mid: Seq<char>,
    tail: Seq<char>,
)
    requires
        !head.contains('{'),
        !mid.contains('{'),
        !tail.contains('{'),
        c.rephrase.base matches Some(b) && b@ == head + "{style}"@ + mid + "{length}"@ + tail,
    ensures
        prompt::unspaced(rephrase_text(c, style, length)) == prompt::unspaced(
            head + style_text(c, style) + mid + length_text(c, length) + tail,
        ),
{
    reveal_strlit("{style}");
    reveal_strlit("{length}");
    let s = "{style}"@;
    let l = "{length}"@;
    let vars = seq![(s, style_text(c, style)), (l, length_text(c, length))];
    let b = head + s + mid + l + tail;
    assert(b =~= head + (s + (mid + (l + tail))));
    prompt::filling_in_goes_on_behind_plain_text(head, s + (mid + (l + tail)), vars);
    prompt::a_placeholder_gives_way_to_its_value(0, mid + (l + tail), vars);
    prompt::filling_in_goes_on_behind_plain_text(mid, l + tail, vars);
    assert(!text::starts_with(l + tail, s)) by {
        if text::starts_with(l + tail, s) {
            assert((l + tail).subrange(0, s.len() as int)[1] == s[1]);
        }
    }
    prompt::a_placeholder_gives_way_to_its_value(1, tail, vars);
    prompt::text_without_braces_stays(tail, vars);
    let want = head + style_text(c, style) + mid + length_text(c, length) + tail;
    assert(prompt::filled(b, vars) =~= want);
    prompt::only_spacing_goes(want);
}

/// Each mode goes by its own prompt, and images alone by theirs, behind what goes
/// before every prompt: texts without placeholders stand there as they are.
pub proof fn each_mode_goes_by_its_own_prompt(
    c: Config,
    params: RephraseParams,
    first: String,
    own: String,
)
    requires
        !first@.contains('{'),
        !own@.contains('{'),
        c.prompt.preamble == Some(first),
    ensures
        ({
            let before = if first@.len() > 0 {
                first@ + "\n\n"@
            } else {
                Seq::empty()
            };
            &&& c.translate.prompt == Some(own) ==> full_prompt(
                c,
                ProcessMode::Translate,
                params,
                false,
            ) == before + own@
            &&& c.summarize.prompt == Some(own) ==> full_prompt(
                c,
                ProcessMode::Summarize,
                params,
                false,
            ) == before + own@
            &&& c.summarize.image_prompt == Some(own) ==> full_prompt(
                c,
                ProcessMode::Summarize,
                params,
                true,
            ) == before + own@
            &&& full_prompt(c, ProcessMode::Rephrase, params, false) == before + rephrase_text(
                c,
                params.style,
                params.length,
            )
        }),
{
    let langs = prompt::languages(c.languages.primary@, c.languages.secondary@);
    prompt::text_without_braces_stays(first@, langs);
    prompt::text_without_braces_stays(own@, langs);
    let none = Seq::<char>::empty();
    assert(none + own@ =~= own@);
    let other = rephrase_text(c, params.style, params.length);
    assert(none + other =~= other);
}

} // verus!
