//! Requests to a chat-completions server: which settings they go by, what they
//! hold, and what their outcome means.
//!
//! The server is reached elsewhere. A [`LlmClient`] hands out the requests and
//! takes the answers.

use crate::api::wire;
use crate::api::wire::read_chat_response;
use crate::clipboard;
use crate::clipboard::ClipboardContent;
use crate::config;
use crate::config::copy_pairs;
use crate::config::copy_text;
use crate::config::Config;
use crate::config::ModelSpec;
use crate::debug::DebugCapture;
use crate::error::ApiError;
use crate::error::HttpFailure;
use crate::images;
use crate::images::data_uri_of;
use crate::images::ImageMime;
use crate::json;
use crate::json::decimal;
use crate::json::Json;
use crate::mode::ProcessMode;
use crate::mode::RephraseParams;
use crate::mode::ThinkingMode;
use crate::numbers;
use crate::numbers::dec_of;
use crate::numbers::parse_u64;
use crate::text;
use crate::text::chars_of;
use crate::text::extend;
use crate::text::find_at;
use crate::text::index_at;
use crate::text::matches_at;
use crate::text::piece;
use crate::text::push_text;
use crate::text::split_at_char;
use crate::text::str_same;
use crate::text::string_of;
use crate::text::trim_end_at;
use crate::text::trimmed;
use crate::text::CharClass;
use vstd::prelude::*;

verus! {

/// What is appended to the endpoint.
pub const CHAT_COMPLETIONS_PATH: &'static str = "/chat/completions";

/// How freely the model picks its words, unless the configuration says.
pub const TEMPERATURE: &'static str = "0.1";

/// How many tokens an answer may have, unless the configuration says.
pub const MAX_TOKENS: u32 = 16384;

/// How long a request may take, unless the configuration says.
pub const REQUEST_TIMEOUT_SECS: u64 = 30;

/// How long a streamed answer may take to begin, unless the configuration says.
/// An answer that is not streamed comes whole, so the whole time bounds it.
pub const INITIAL_RESPONSE_TIMEOUT_SECS: u64 = 10;

/// How often a request is sent again, whether it failed in passing or met a
/// rate limit.
pub const MAX_RETRIES: u32 = 1;

/// How long to wait before a request that failed in passing is sent again.
pub const RETRY_DELAY_MS: u64 = 500;

/// How long to wait at most for a rate limit, whatever the server asks.
pub const RETRY_AFTER_MAX_MS: u64 = 15_000;

/// How long to wait for a rate limit where the server does not say, or not in
/// whole seconds.
pub const RETRY_AFTER_DEFAULT_MS: u64 = 2_000;

/// How many tokens an answer is allowed even where the prompt nearly fills the
/// budget.
pub const MIN_OUTPUT_TOKENS: u32 = 512;

/// Tokens of the budget that are held back for what the estimate does not count.
pub const BUDGET_MARGIN: u32 = 256;

/// A transparent image of one pixel.
pub const PROBE_PNG_BASE64: &'static str =
    "iVBORw0KGgoAAAANSUhEUgAAAAEAAAABCAYAAAAfFcSJAAAADUlEQVR42mNk+M9QDwADhgGAWjR9awAAAABJRU5ErkJggg==";

// ---------------------------------------------------------------------------
// Token budget
// ---------------------------------------------------------------------------

/// Whether `c` is a Hangul syllable or letter.
pub open spec fn is_hangul(c: char) -> bool {
    '\u{ac00}' <= c <= '\u{d7a3}' || '\u{1100}' <= c <= '\u{11ff}'
}

/// How many characters of `s` are Hangul.
pub open spec fn hangul_count(s: Seq<char>) -> int
    decreases s.len(),
{
    if s.len() == 0 {
        0
    } else {
        hangul_count(s.drop_last()) + if is_hangul(s.last()) {
            1int
        } else {
            0
        }
    }
}

/// How many characters of `s` are neither Hangul nor white space.
pub open spec fn other_count(s: Seq<char>) -> int
    decreases s.len(),
{
    if s.len() == 0 {
        0
    } else {
        other_count(s.drop_last()) + if !is_hangul(s.last()) && !text::is_space(s.last()) {
            1int
        } else {
            0
        }
    }
}

/// How many tokens `s` takes, rather too many than too few: one for each Hangul
/// character, one for three others; white space is free.
pub open spec fn token_estimate(s: Seq<char>) -> int {
    hangul_count(s) + other_count(s) / 3
}

proof fn lemma_counts(s: Seq<char>)
    ensures
        0 <= hangul_count(s),
        0 <= other_count(s),
        hangul_count(s) + other_count(s) <= s.len(),
    decreases s.len(),
{
    if s.len() > 0 {
        lemma_counts(s.drop_last());
    }
}

fn estimate(s: &[char]) -> (r: u64)
    ensures
        r == token_estimate(s@),
        r <= s@.len(),
{
    let total: usize = s.len();
    let mut hangul: u64 = 0;
    let mut other: u64 = 0;
    let mut i: usize = 0;
    while i < total
        invariant
            total == s@.len(),
            i <= total,
            hangul + other <= i,
            hangul == hangul_count(s@.take(i as int)),
            other == other_count(s@.take(i as int)),
        decreases total - i,
    {
        let c: char = s[i];
        assert(s@.take(i + 1).drop_last() =~= s@.take(i as int));
        if ('\u{ac00}' <= c && c <= '\u{d7a3}') || ('\u{1100}' <= c && c <= '\u{11ff}') {
            hangul += 1;
        } else if !text::space(c) {
            other += 1;
        }
        i += 1;
    }
    assert(s@.take(i as int) =~= s@);
    hangul + other / 3
}

/// How many tokens `text` takes, rather too many than too few, so that prompt
/// and answer stay within the budget.
pub fn estimate_prompt_tokens(text: &str) -> (r: u32)
    requires
        text@.len() <= u32::MAX,
    ensures
        r == token_estimate(text@),
{
    estimate(&chars_of(text)) as u32
}

/// How many tokens an answer may have. Without a budget, the ceiling; with one,
/// what the prompt and the margin leave of it, but no more than the ceiling and
/// no less than [`MIN_OUTPUT_TOKENS`] or the ceiling.
pub open spec fn output_tokens(ceiling: int, budget: Option<u32>, prompt: int) -> int {
    match budget {
        None => ceiling,
        Some(b) => {
            let least = if MIN_OUTPUT_TOKENS < ceiling {
                MIN_OUTPUT_TOKENS as int
            } else {
                ceiling
            };
            let left = b - prompt - BUDGET_MARGIN;
            if left < least {
                least
            } else if left > ceiling {
                ceiling
            } else {
                left
            }
        },
    }
}

/// How many tokens an answer may have.
pub fn effective_max_tokens(ceiling: u32, budget: Option<u32>, prompt_est: u32) -> (r: u32)
    ensures
        r == output_tokens(ceiling as int, budget, prompt_est as int),
{
    match budget {
        None => ceiling,
        Some(b) => {
            let least: u32 = if MIN_OUTPUT_TOKENS < ceiling {
                MIN_OUTPUT_TOKENS
            } else {
                ceiling
            };
            let left: u32 = b.saturating_sub(prompt_est).saturating_sub(BUDGET_MARGIN);
            if left < least {
                least
            } else if left > ceiling {
                ceiling
            } else {
                left
            }
        },
    }
}

/// With a budget that the least answer and the margin fit beside the prompt,
/// prompt and answer stay within it.
pub proof fn the_budget_is_kept(ceiling: int, budget: u32, prompt: int)
    requires
        0 <= ceiling,
        0 <= prompt,
        prompt + MIN_OUTPUT_TOKENS + BUDGET_MARGIN <= budget,
    ensures
        prompt + output_tokens(ceiling, Some(budget), prompt) + BUDGET_MARGIN <= budget,
{
}

// ---------------------------------------------------------------------------
// Message content
// ---------------------------------------------------------------------------

/// Where an image is.
#[derive(Debug, PartialEq)]
pub struct ImageUrl {
    pub url: String,
}

/// A part of a message.
#[derive(Debug, PartialEq)]
pub enum ContentPart {
    Text { text: String },
    ImageUrl { image_url: ImageUrl },
}

/// A message: plain text, or parts.
#[derive(Debug, PartialEq)]
pub enum MessageContent {
    Text(String),
    Parts(Vec<ContentPart>),
}

/// A JSON object of one member.
pub open spec fn object1(k: Seq<char>, v: json::Ordered) -> json::Ordered {
    json::Ordered::Object(seq![(k, v)])
}

/// A JSON object of two members.
pub open spec fn object2(
    k: Seq<char>,
    v: json::Ordered,
    l: Seq<char>,
    w: json::Ordered,
) -> json::Ordered {
    json::Ordered::Object(seq![(k, v), (l, w)])
}

impl ContentPart {
    /// The part as JSON.
    pub open spec fn view(&self) -> json::Ordered {
        match self {
            ContentPart::Text { text } => object2(
                "type"@,
                json::Ordered::Str("text"@),
                "text"@,
                json::Ordered::Str(text@),
            ),
            ContentPart::ImageUrl { image_url } => object2(
                "type"@,
                json::Ordered::Str("image_url"@),
                "image_url"@,
                object1("url"@, json::Ordered::Str(image_url.url@)),
            ),
        }
    }

    fn to_json(&self) -> (r: Json)
        ensures
            r.ordered() == self@,
    {
        match self {
            ContentPart::Text { text } => pair(
                "type",
                Json::str("text"),
                "text",
                Json::str(text.as_str()),
            ),
            ContentPart::ImageUrl { image_url } => pair(
                "type",
                Json::str("image_url"),
                "image_url",
                single("url", Json::str(image_url.url.as_str())),
            ),
        }
    }
}

fn push_member(members: &mut Vec<(String, Json)>, name: &str, value: Json)
    ensures
        json::members_ordered(final(members)@) == json::members_ordered(old(members)@).push(
            (name@, value.ordered()),
        ),
{
    let ghost before = members@;
    members.push((name.to_owned(), value));
    assert(members@.drop_last() =~= before);
}

fn single(k: &str, v: Json) -> (r: Json)
    ensures
        r.ordered() == object1(k@, v.ordered()),
{
    let mut members: Vec<(String, Json)> = Vec::new();
    push_member(&mut members, k, v);
    assert(json::members_ordered(members@) =~= seq![(k@, v.ordered())]);
    Json::Object(members)
}

fn pair(k: &str, v: Json, l: &str, w: Json) -> (r: Json)
    ensures
        r.ordered() == object2(k@, v.ordered(), l@, w.ordered()),
{
    let mut members: Vec<(String, Json)> = Vec::new();
    push_member(&mut members, k, v);
    push_member(&mut members, l, w);
    assert(json::members_ordered(members@) =~= seq![(k@, v.ordered()), (l@, w.ordered())]);
    Json::Object(members)
}

/// The parts as JSON.
pub open spec fn parts_view(v: Seq<ContentPart>) -> Seq<json::Ordered> {
    v.map_values(|p: ContentPart| p@)
}

impl MessageContent {
    /// The message as JSON: a string, or an array of parts.
    pub open spec fn view(&self) -> json::Ordered {
        match self {
            MessageContent::Text(t) => json::Ordered::Str(t@),
            MessageContent::Parts(parts) => json::Ordered::Array(parts_view(parts@)),
        }
    }

    /// The message as JSON.
    pub fn to_json(&self) -> (r: Json)
        ensures
            r.ordered() == self@,
    {
        match self {
            MessageContent::Text(t) => Json::str(t.as_str()),
            MessageContent::Parts(parts) => {
                let mut items: Vec<Json> = Vec::new();
                let mut i: usize = 0;
                while i < parts.len()
                    invariant
                        i <= parts@.len(),
                        json::items_ordered(items@) == parts_view(parts@).take(i as int),
                    decreases parts@.len() - i,
                {
                    let ghost before = items@;
                    items.push(parts[i].to_json());
                    i += 1;
                    assert(items@.drop_last() =~= before);
                    assert(parts_view(parts@).take(i as int) =~= parts_view(parts@).take(
                        i - 1,
                    ).push(parts@[i - 1]@));
                }
                assert(parts_view(parts@).take(i as int) =~= parts_view(parts@));
                Json::Array(items)
            },
        }
    }
}

/// The part that a PNG image makes.
pub open spec fn image_part(png: Seq<u8>) -> json::Ordered {
    object2(
        "type"@,
        json::Ordered::Str("image_url"@),
        "image_url"@,
        object1("url"@, json::Ordered::Str(images::data_uri_text(ImageMime::Png, png))),
    )
}

/// A text, or nothing.
pub open spec fn or_empty(t: Option<Seq<char>>) -> Seq<char> {
    match t {
        Some(s) => s,
        None => Seq::empty(),
    }
}

/// The user's message: the text, or the text, where there is any, and the
/// images.
pub open spec fn user_content(c: clipboard::ContentView, use_images: bool) -> json::Ordered {
    let t = or_empty(c.text);
    if !use_images {
        json::Ordered::Str(t)
    } else {
        let first: Seq<json::Ordered> = if t.len() == 0 {
            Seq::empty()
        } else {
            seq![
                object2(
                    "type"@,
                    json::Ordered::Str("text"@),
                    "text"@,
                    json::Ordered::Str(t),
                ),
            ]
        };
        json::Ordered::Array(first + c.images.map_values(|png: Seq<u8>| image_part(png)))
    }
}

/// Whether every image is short enough to be written as text.
pub open spec fn images_fit(c: clipboard::ContentView) -> bool {
    forall|i: int| 0 <= i < c.images.len() ==> (#[trigger] c.images[i]).len() <= usize::MAX / 4
}

// ---------------------------------------------------------------------------
// Thinking
// ---------------------------------------------------------------------------

/// How a model's thinking is switched.
#[derive(Debug, Clone, Copy, PartialEq, Eq, Structural)]
pub enum ThinkingControlMethod {
    /// By `chat_template_kwargs`.
    ChatTemplateKwargs,
    /// By a tag in the system prompt.
    SystemPromptTag,
    /// Not at all.
    Unsupported,
}

/// `chat_template_kwargs` of a request.
#[derive(Debug, Clone, Copy, PartialEq, Eq, Structural)]
pub struct ChatTemplateKwargs {
    pub enable_thinking: bool,
}

/// What goes before the system prompt.
pub open spec fn thinking_tag(mode: ThinkingMode, control: ThinkingControlMethod) -> Seq<char> {
    match (mode, control) {
        (ThinkingMode::Think, ThinkingControlMethod::SystemPromptTag) => "/think\n"@,
        (ThinkingMode::NoThink, ThinkingControlMethod::SystemPromptTag) => "/no_think\n"@,
        _ => Seq::empty(),
    }
}

/// What the request says about thinking.
pub open spec fn thinking_kwargs(mode: ThinkingMode, control: ThinkingControlMethod) -> Option<
    ChatTemplateKwargs,
> {
    if control == ThinkingControlMethod::ChatTemplateKwargs {
        Some(ChatTemplateKwargs { enable_thinking: mode == ThinkingMode::Think })
    } else {
        None
    }
}

/// Whether the status of a probe with an image settles if the model sees
/// images: yes, no, or not. A rate limit counts as no, so that a limited server
/// is not asked again and again; a refused sign-in, a wrong address and a
/// server's failure settle nothing.
pub fn classify_vision_status(status: u16) -> (r: Option<bool>)
    ensures
        r == if 200 <= status < 300 {
            Some(true)
        } else if status == 400 || status == 422 || status == 429 {
            Some(false)
        } else {
            None
        },
{
    if 200 <= status && status < 300 {
        Some(true)
    } else if status == 400 || status == 422 || status == 429 {
        Some(false)
    } else {
        None
    }
}

/// What a probe with `chat_template_kwargs` shows.
#[derive(Debug, Clone, Copy, PartialEq, Eq, Structural)]
pub enum KwargsVerdict {
    Settled(ThinkingControlMethod),
    /// They were understood and refused: probe for the prompt tag.
    TryPromptTag,
    /// Nothing: ask again with the next request.
    Inconclusive,
}

/// What a probe with `chat_template_kwargs` shows; no status where the server
/// was not reached. A model that was asked to think may still not, so being
/// accepted is enough.
pub open spec fn kwargs_verdict(status: Option<u16>) -> KwargsVerdict {
    match status {
        Some(s) => if 200 <= s < 300 {
            KwargsVerdict::Settled(ThinkingControlMethod::ChatTemplateKwargs)
        } else if s == 400 || s == 422 {
            KwargsVerdict::TryPromptTag
        } else if s == 429 {
            KwargsVerdict::Settled(ThinkingControlMethod::Unsupported)
        } else {
            KwargsVerdict::Inconclusive
        },
        None => KwargsVerdict::Inconclusive,
    }
}

/// What a probe with `chat_template_kwargs` shows.
pub fn classify_kwargs_status(status: Option<u16>) -> (r: KwargsVerdict)
    ensures
        r == kwargs_verdict(status),
{
    match status {
        Some(s) => if 200 <= s && s < 300 {
            KwargsVerdict::Settled(ThinkingControlMethod::ChatTemplateKwargs)
        } else if s == 400 || s == 422 {
            KwargsVerdict::TryPromptTag
        } else if s == 429 {
            KwargsVerdict::Settled(ThinkingControlMethod::Unsupported)
        } else {
            KwargsVerdict::Inconclusive
        },
        None => KwargsVerdict::Inconclusive,
    }
}

/// Whether the first answer of a reply starts thinking aloud.
pub open spec fn thinks_aloud(body: Seq<char>) -> bool {
    match json::parsed(body) {
        Ok(j) => match wire::chat_response(j) {
            Some((choices, _)) => choices.len() > 0 && text::find_from(
                choices[0].content,
                "<think>"@,
                0,
            ) is Some,
            None => false,
        },
        Err(_) => false,
    }
}

fn reply_thinks_aloud(body: &str) -> (r: bool)
    ensures
        r == thinks_aloud(body@),
{
    match json::parse(body) {
        Ok(j) => match read_chat_response(&j) {
            Some(chat) => {
                if chat.choices.len() == 0 {
                    return false;
                }
                assert(wire::choices_view(chat.choices@)[0] == chat.choices@[0]@);
                let content = chars_of(chat.choices[0].message.content.as_str());
                find_at(&content, &chars_of("<think>"), 0).is_some()
            },
            None => false,
        },
        Err(_) => false,
    }
}

/// What a probe with the tag in the system prompt shows: nothing where there is
/// no status, or one that settles nothing.
pub open spec fn prompt_tag_verdict(status: Option<u16>, body: Seq<char>) -> Option<
    ThinkingControlMethod,
> {
    match status {
        Some(s) => if 200 <= s < 300 {
            if thinks_aloud(body) {
                Some(ThinkingControlMethod::SystemPromptTag)
            } else {
                Some(ThinkingControlMethod::Unsupported)
            }
        } else if s == 400 || s == 422 || s == 429 {
            Some(ThinkingControlMethod::Unsupported)
        } else {
            None
        },
        None => None,
    }
}

/// What a probe with the tag in the system prompt shows.
pub fn classify_prompt_tag(status: Option<u16>, body: &str) -> (r: Option<ThinkingControlMethod>)
    ensures
        r == prompt_tag_verdict(status, body@),
{
    match status {
        Some(s) => if 200 <= s && s < 300 {
            if reply_thinks_aloud(body) {
                Some(ThinkingControlMethod::SystemPromptTag)
            } else {
                Some(ThinkingControlMethod::Unsupported)
            }
        } else if s == 400 || s == 422 || s == 429 {
            Some(ThinkingControlMethod::Unsupported)
        } else {
            None
        },
        None => None,
    }
}

// ---------------------------------------------------------------------------
// Settings
// ---------------------------------------------------------------------------

/// A setting: the environment's, or else the file's; an empty text counts as
/// none.
pub open spec fn setting(env: Option<Seq<char>>, file: Option<Seq<char>>) -> Option<Seq<char>> {
    match config::non_empty(env) {
        Some(s) => Some(s),
        None => config::non_empty(file),
    }
}

/// A setting that must be there: the environment's, or else the file's. Where
/// neither gives one there is no guessing.
pub fn require_setting(env_value: Option<String>, config_value: Option<&str>, name: &'static str) -> (r:
    Result<String, ApiError>)
    ensures
        match r {
            Ok(s) => setting(config::text_view(env_value), config::str_view(config_value)) == Some(
                s@,
            ),
            Err(e) => e == ApiError::MissingConfig(name) && setting(
                config::text_view(env_value),
                config::str_view(config_value),
            ) is None,
        },
{
    if let Some(s) = env_value {
        if chars_of(s.as_str()).len() > 0 {
            return Ok(s);
        }
    }
    if let Some(s) = config_value {
        if chars_of(s).len() > 0 {
            return Ok(text::copy_str(s));
        }
    }
    Err(ApiError::MissingConfig(name))
}

/// The header that one pair makes: nothing where it has no colon.
pub open spec fn header(part: Seq<char>) -> Option<(Seq<char>, Seq<char>)> {
    let p = text::trim(part, CharClass::Space);
    match text::index_from(p, ':', 0) {
        Some(i) => Some(
            (
                text::trim(p.take(i), CharClass::Space),
                text::trim(p.skip(i + 1), CharClass::Space),
            ),
        ),
        None => None,
    }
}

/// The headers that the first `n` pairs make.
pub open spec fn headers(parts: Seq<Seq<char>>, n: int) -> Seq<(Seq<char>, Seq<char>)>
    decreases n,
{
    if n <= 0 {
        Seq::empty()
    } else {
        match header(parts[n - 1]) {
            Some(h) => headers(parts, n - 1).push(h),
            None => headers(parts, n - 1),
        }
    }
}

/// The headers in `raw`: pairs with a colon between name and value and a comma
/// between pairs, perhaps in quotation marks.
pub open spec fn custom_headers(raw: Seq<char>) -> Seq<(Seq<char>, Seq<char>)> {
    let parts = text::split(text::trim(raw, CharClass::Only('"')), ',');
    headers(parts, parts.len() as int)
}

/// The headers in `raw`.
pub fn parse_custom_headers(raw: &str) -> (r: Vec<(String, String)>)
    ensures
        config::pairs_view(r@) == custom_headers(raw@),
{
    let inner = trimmed(&chars_of(raw), CharClass::Only('"'));
    let parts = split_at_char(&inner, ',');
    let ghost views = text::split(inner@, ',');
    let mut r: Vec<(String, String)> = Vec::new();
    let mut i: usize = 0;
    assert(config::pairs_view(r@) =~= Seq::empty());
    while i < parts.len()
        invariant
            i <= parts@.len(),
            views == text::views(parts@),
            config::pairs_view(r@) == headers(views, i as int),
        decreases parts@.len() - i,
    {
        assert(views[i as int] == parts@[i as int]@);
        let ghost before = config::pairs_view(r@);
        let p = trimmed(&parts[i], CharClass::Space);
        let n: usize = p.len();
        match index_at(&p, ':', 0) {
            Some(k) => {
                let key = piece(&p, 0, k);
                let value = piece(&p, k + 1, n);
                assert(key@ =~= p@.take(k as int));
                assert(value@ =~= p@.skip(k + 1));
                let name = string_of(&trimmed(&key, CharClass::Space));
                let content = string_of(&trimmed(&value, CharClass::Space));
                r.push((name, content));
                assert(config::pairs_view(r@) =~= before.push((name@, content@)));
            },
            None => {},
        }
        i += 1;
    }
    r
}

/// What the environment says about the connection.
#[derive(Debug)]
pub struct EnvSettings {
    pub endpoint: Option<String>,
    pub model: Option<String>,
    pub api_key: Option<String>,
    pub custom_headers: Option<String>,
}

/// A connection to a model.
#[derive(Debug)]
pub struct LlmClient {
    endpoint: String,
    model: String,
    api_key: Option<String>,
    custom_headers: Vec<(String, String)>,
    temperature: serde_json::Number,
    max_tokens: u32,
    token_budget: Option<u32>,
    timeout_secs: u64,
    initial_response_timeout_secs: u64,
    supports_vision: Option<bool>,
    thinking_control: Option<ThinkingControlMethod>,
}

/// What an [`LlmClient`] goes by, and what its probes have shown.
#[verifier::ext_equal]
pub struct ClientView {
    pub endpoint: Seq<char>,
    pub model: Seq<char>,
    pub api_key: Option<Seq<char>>,
    pub custom_headers: Seq<(Seq<char>, Seq<char>)>,
    pub temperature: serde_json::Number,
    pub max_tokens: u32,
    pub token_budget: Option<u32>,
    pub timeout_secs: u64,
    pub initial_response_timeout_secs: u64,
    pub supports_vision: Option<bool>,
    pub thinking_control: Option<ThinkingControlMethod>,
}

impl View for LlmClient {
    type V = ClientView;

    closed spec fn view(&self) -> ClientView {
        ClientView {
            endpoint: self.endpoint@,
            model: self.model@,
            api_key: config::text_view(self.api_key),
            custom_headers: config::pairs_view(self.custom_headers@),
            temperature: self.temperature,
            max_tokens: self.max_tokens,
            token_budget: self.token_budget,
            timeout_secs: self.timeout_secs,
            initial_response_timeout_secs: self.initial_response_timeout_secs,
            supports_vision: self.supports_vision,
            thinking_control: self.thinking_control,
        }
    }
}

/// The address of the completions, given that of the server.
pub open spec fn completions_url(base: Seq<char>) -> Seq<char> {
    text::trim_end(base, CharClass::Only('/')) + CHAT_COMPLETIONS_PATH@
}

/// A number, or what holds where the configuration says nothing.
pub open spec fn or_u64(n: Option<u64>, other: u64) -> u64 {
    match n {
        Some(v) => v,
        None => other,
    }
}

/// The connection that the environment and the configuration describe, or the
/// first setting that is missing.
pub open spec fn connection(env: EnvSettings, c: Config) -> Result<ClientView, Seq<char>> {
    let endpoint = setting(config::text_view(env.endpoint), config::text_view(c.api.endpoint));
    let model = setting(config::text_view(env.model), config::text_view(c.api.model));
    let api_key = setting(config::text_view(env.api_key), config::text_view(c.api.api_key));
    if endpoint is None {
        Err("api.endpoint"@)
    } else if model is None {
        Err("api.model"@)
    } else if api_key is None {
        Err("api.api_key"@)
    } else {
        Ok(
            ClientView {
                endpoint: completions_url(endpoint->0),
                model: model->0,
                api_key,
                custom_headers: match config::non_empty(config::text_view(env.custom_headers)) {
                    Some(raw) => custom_headers(raw),
                    None => config::pairs_view(c.api.headers@),
                },
                temperature: match c.generation.temperature {
                    Some(t) => t,
                    None => json::decimal_number(TEMPERATURE@),
                },
                max_tokens: match c.generation.max_tokens {
                    Some(n) => n,
                    None => MAX_TOKENS,
                },
                token_budget: c.generation.token_budget,
                timeout_secs: or_u64(c.generation.request_timeout_secs, REQUEST_TIMEOUT_SECS),
                initial_response_timeout_secs: or_u64(
                    c.generation.initial_response_timeout_secs,
                    INITIAL_RESPONSE_TIMEOUT_SECS,
                ),
                supports_vision: None,
                thinking_control: None,
            },
        )
    }
}

/// The environment as a profile sees it: it speaks for the one of `[api]` alone.
pub open spec fn profile_env(spec: ModelSpec, env: EnvSettings) -> EnvSettings {
    if spec.from_api_section {
        env
    } else {
        EnvSettings { endpoint: None, model: None, api_key: None, custom_headers: None }
    }
}

/// The configuration as a profile sees it: its own address, model, key and
/// headers, its own limits where it has any, and otherwise what holds for all. A
/// token of a session stands in the place of the key.
pub open spec fn profile_config(spec: ModelSpec, c: Config, token: Option<String>) -> Config {
    Config {
        api: config::ApiConfig {
            endpoint: spec.endpoint,
            model: spec.model,
            api_key: match token {
                Some(_) => token,
                None => spec.api_key,
            },
            headers: spec.headers,
            ..c.api
        },
        generation: config::GenerationConfig {
            max_tokens: match spec.max_tokens {
                Some(_) => spec.max_tokens,
                None => c.generation.max_tokens,
            },
            token_budget: match spec.token_budget {
                Some(_) => spec.token_budget,
                None => c.generation.token_budget,
            },
            ..c.generation
        },
        ..c
    }
}

impl LlmClient {
    /// The connection of a profile. `token` is that of a session, where the
    /// profile goes by one.
    pub fn for_spec(
        spec: &ModelSpec,
        env: EnvSettings,
        config: &Config,
        token: Option<String>,
    ) -> (r: Result<LlmClient, ApiError>)
        ensures
            ({
                let wanted = connection(
                    profile_env(*spec, env),
                    profile_config(*spec, *config, token),
                );
                match r {
                    Ok(client) => wanted == Ok::<ClientView, Seq<char>>(client@),
                    Err(e) => e matches ApiError::MissingConfig(name) && wanted == Err::<
                        ClientView,
                        Seq<char>,
                    >(name@),
                }
            }),
    {
        let mut own = Config::default();
        own.api.endpoint = copy_text(&spec.endpoint);
        own.api.model = copy_text(&spec.model);
        own.api.api_key = match token {
            Some(t) => Some(t),
            None => copy_text(&spec.api_key),
        };
        own.api.headers = copy_pairs(&spec.headers);
        own.generation.temperature = match &config.generation.temperature {
            Some(t) => Some(t.clone()),
            None => None,
        };
        own.generation.max_tokens = match spec.max_tokens {
            Some(n) => Some(n),
            None => config.generation.max_tokens,
        };
        own.generation.token_budget = match spec.token_budget {
            Some(n) => Some(n),
            None => config.generation.token_budget,
        };
        own.generation.request_timeout_secs = config.generation.request_timeout_secs;
        own.generation.initial_response_timeout_secs =
            config.generation.initial_response_timeout_secs;
        let seen = if spec.from_api_section {
            env
        } else {
            EnvSettings { endpoint: None, model: None, api_key: None, custom_headers: None }
        };
        Self::new(seen, &own)
    }

    /// The connection that the environment and the configuration describe:
    /// environment first, then the file, then what is built in. Address, model
    /// and key have nothing built in.
    pub fn new(env: EnvSettings, config: &Config) -> (r: Result<LlmClient, ApiError>)
        ensures
            match r {
                Ok(client) => connection(env, *config) == Ok::<ClientView, Seq<char>>(client@),
                Err(e) => e matches ApiError::MissingConfig(name) && connection(env, *config)
                    == Err::<ClientView, Seq<char>>(name@),
            },
    {
        let base = match require_setting(env.endpoint, config.api_endpoint(), "api.endpoint") {
            Ok(s) => s,
            Err(e) => {
                return Err(e);
            },
        };
        let model = match require_setting(env.model, config.api_model(), "api.model") {
            Ok(s) => s,
            Err(e) => {
                return Err(e);
            },
        };
        let api_key = match require_setting(env.api_key, config.api_key(), "api.api_key") {
            Ok(s) => s,
            Err(e) => {
                return Err(e);
            },
        };
        let base_chars = chars_of(base.as_str());
        let end = trim_end_at(&base_chars, 0, CharClass::Only('/'));
        let mut url = piece(&base_chars, 0, end);
        assert(base_chars@.skip(0) =~= base_chars@);
        push_text(&mut url, CHAT_COMPLETIONS_PATH);
        let custom_headers: Vec<(String, String)> = match env.custom_headers {
            Some(raw) => if chars_of(raw.as_str()).len() > 0 {
                parse_custom_headers(raw.as_str())
            } else {
                copy_pairs(config.api_headers())
            },
            None => copy_pairs(config.api_headers()),
        };
        proof {
            reveal_strlit("0.1");
        }
        let temperature = match config.generation_temperature() {
            Some(t) => t.clone(),
            None => decimal(TEMPERATURE),
        };
        Ok(
            LlmClient {
                endpoint: string_of(&url),
                model,
                api_key: Some(api_key),
                custom_headers,
                temperature,
                max_tokens: match config.generation_max_tokens() {
                    Some(n) => n,
                    None => MAX_TOKENS,
                },
                token_budget: config.generation_token_budget(),
                timeout_secs: match config.generation_request_timeout_secs() {
                    Some(n) => n,
                    None => REQUEST_TIMEOUT_SECS,
                },
                initial_response_timeout_secs: match config.generation_initial_response_timeout_secs() {
                    Some(n) => n,
                    None => INITIAL_RESPONSE_TIMEOUT_SECS,
                },
                supports_vision: None,
                thinking_control: None,
            },
        )
    }
}

/// Whether answers are to come piece by piece: as the configuration says, and
/// otherwise yes, unless the environment forbids it, which it does by any value
/// of its variable.
pub fn is_streamed(forbidden: bool, config: &Config) -> (r: bool)
    ensures
        r == (!forbidden && config.api.streaming != Some(false)),
{
    if forbidden {
        return false;
    }
    match config.api_streaming() {
        Some(b) => b,
        None => true,
    }
}

// ---------------------------------------------------------------------------
// Requests
// ---------------------------------------------------------------------------

/// A message.
pub open spec fn message(role: Seq<char>, content: json::Ordered) -> json::Ordered {
    object2("role"@, json::Ordered::Str(role), "content"@, content)
}

/// The body of a request.
pub open spec fn request_body(
    model: Seq<char>,
    messages: Seq<json::Ordered>,
    temperature: serde_json::Number,
    max_tokens: u32,
    stream: bool,
    kwargs: Option<ChatTemplateKwargs>,
) -> json::Ordered {
    let always = seq![
        ("model"@, json::Ordered::Str(model)),
        ("messages"@, json::Ordered::Array(messages)),
        ("temperature"@, json::Ordered::Number(temperature)),
        ("max_tokens"@, json::Ordered::Number(json::number_of(max_tokens as u64))),
    ];
    let streamed = if stream {
        always.push(("stream"@, json::Ordered::Bool(true)))
    } else {
        always
    };
    json::Ordered::Object(
        match kwargs {
            Some(k) => streamed.push(
                (
                    "chat_template_kwargs"@,
                    object1("enable_thinking"@, json::Ordered::Bool(k.enable_thinking)),
                ),
            ),
            None => streamed,
        },
    )
}

fn message_of(role: &str, content: Json) -> (r: Json)
    ensures
        r.ordered() == message(role@, content.ordered()),
{
    pair("role", Json::str(role), "content", content)
}

fn body_of(
    model: &str,
    messages: Vec<Json>,
    temperature: &serde_json::Number,
    max_tokens: u32,
    stream: bool,
    kwargs: Option<ChatTemplateKwargs>,
) -> (r: Json)
    ensures
        r.ordered() == request_body(
            model@,
            json::items_ordered(messages@),
            *temperature,
            max_tokens,
            stream,
            kwargs,
        ),
{
    let mut members: Vec<(String, Json)> = Vec::new();
    push_member(&mut members, "model", Json::str(model));
    push_member(&mut members, "messages", Json::Array(messages));
    push_member(&mut members, "temperature", Json::Number(temperature.clone()));
    push_member(&mut members, "max_tokens", Json::number(max_tokens as u64));
    let ghost always = seq![
        ("model"@, json::Ordered::Str(model@)),
        ("messages"@, json::Ordered::Array(json::items_ordered(messages@))),
        ("temperature"@, json::Ordered::Number(*temperature)),
        ("max_tokens"@, json::Ordered::Number(json::number_of(max_tokens as u64))),
    ];
    assert(json::members_ordered(members@) =~= always);
    if stream {
        push_member(&mut members, "stream", Json::Bool(true));
    }
    if let Some(k) = kwargs {
        push_member(
            &mut members,
            "chat_template_kwargs",
            single("enable_thinking", Json::Bool(k.enable_thinking)),
        );
    }
    Json::Object(members)
}

fn one(a: Json) -> (r: Vec<Json>)
    ensures
        json::items_ordered(r@) == seq![a.ordered()],
{
    let mut v: Vec<Json> = Vec::new();
    v.push(a);
    proof {
        json::lemma_items_ordered(v@);
        assert(json::items_ordered(v@) =~= seq![a.ordered()]);
    }
    v
}

fn two(a: Json, b: Json) -> (r: Vec<Json>)
    ensures
        json::items_ordered(r@) == seq![a.ordered(), b.ordered()],
{
    let mut v: Vec<Json> = Vec::new();
    v.push(a);
    v.push(b);
    proof {
        json::lemma_items_ordered(v@);
        assert(json::items_ordered(v@) =~= seq![a.ordered(), b.ordered()]);
    }
    v
}

/// Bytes of an inline image that stay readable.
pub const INLINE_DATA_SHOWN: usize = 128;

/// What stands in for inline data of so many bytes.
pub open spec fn elision(bytes: nat) -> Seq<char> {
    "[inline data elided, "@ + numbers::dec(bytes) + " bytes]"@
}

/// A document with long inline data left out, so that it can be read.
pub open spec fn elided(j: json::JsonView) -> json::JsonView
    decreases j,
{
    match j {
        json::JsonView::Str(s) => if text::starts_with(s, "data:"@) && text::byte_len(s)
            > INLINE_DATA_SHOWN {
            json::JsonView::Str(elision(text::byte_len(s)))
        } else {
            j
        },
        json::JsonView::Array(items) => json::JsonView::Array(
            Seq::new(
                items.len(),
                |i: int|
                    if 0 <= i < items.len() {
                        elided(items[i])
                    } else {
                        json::JsonView::Null
                    },
            ),
        ),
        json::JsonView::Object(m) => json::JsonView::Object(
            Map::new(
                |k: Seq<char>| m.dom().contains(k),
                |k: Seq<char>|
                    if m.dom().contains(k) {
                        elided(m[k])
                    } else {
                        json::JsonView::Null
                    },
            ),
        ),
        _ => j,
    }
}

/// The members with long inline data left out.
spec fn elided_members(m: Map<Seq<char>, json::JsonView>) -> Map<Seq<char>, json::JsonView> {
    Map::new(
        |k: Seq<char>| m.dom().contains(k),
        |k: Seq<char>|
            if m.dom().contains(k) {
                elided(m[k])
            } else {
                json::JsonView::Null
            },
    )
}

fn elide(j: &Json) -> (r: Json)
    ensures
        r@ == elided(j@),
    decreases j,
{
    match j {
        Json::Null => Json::Null,
        Json::Bool(b) => Json::Bool(*b),
        Json::Number(n) => Json::Number(n.clone()),
        Json::Str(s) => {
            let bytes: usize = s.as_str().as_bytes().len();
            let v = chars_of(s.as_str());
            if matches_at(&v, &chars_of("data:"), 0) && bytes > INLINE_DATA_SHOWN {
                let mut w = chars_of("[inline data elided, ");
                extend(&mut w, &dec_of(bytes as u128));
                push_text(&mut w, " bytes]");
                Json::Str(string_of(&w))
            } else {
                Json::Str(string_of(&v))
            }
        },
        Json::Array(items) => {
            let mut out: Vec<Json> = Vec::new();
            let mut i: usize = 0;
            proof {
                json::lemma_items_view(items@);
            }
            while i < items.len()
                invariant
                    i <= items@.len(),
                    j == Json::Array(*items),
                    out@.len() == i,
                    forall|k: int|
                        0 <= k < i ==> (#[trigger] out@[k])@ == elided(items@[k]@),
                decreases items@.len() - i,
            {
                assert(decreases_to!(items@ => items@[i as int]));
                assert(decreases_to!(items => items@));
                assert(decreases_to!(j => j->Array_0));
                out.push(elide(&items[i]));
                i += 1;
            }
            proof {
                json::lemma_items_view(out@);
                let want = elided(j@)->Array_0;
                assert(j@ == json::JsonView::Array(json::items_view(items@)));
                assert(json::items_view(out@) =~= want);
            }
            Json::Array(out)
        },
        Json::Object(members) => {
            let mut out: Vec<(String, Json)> = Vec::new();
            let mut i: usize = 0;
            proof {
                assert(members@.take(0) =~= Seq::empty());
                assert(elided_members(Map::empty()) =~= Map::empty());
            }
            while i < members.len()
                invariant
                    i <= members@.len(),
                    j == Json::Object(*members),
                    json::members_view(out@) == elided_members(
                        json::members_view(members@.take(i as int)),
                    ),
                decreases members@.len() - i,
            {
                let ghost before = out@;
                let ghost done = json::members_view(members@.take(i as int));
                assert(decreases_to!(members@[i as int] => members@[i as int].1));
                assert(decreases_to!(members@ => members@[i as int]));
                assert(decreases_to!(members => members@));
                assert(decreases_to!(j => j->Object_0));
                let name = text::copy_str(members[i].0.as_str());
                let value = elide(&members[i].1);
                out.push((name, value));
                proof {
                    assert(out@.drop_last() =~= before);
                    assert(members@.take(i + 1).drop_last() =~= members@.take(i as int));
                    assert(members@.take(i + 1).last() == members@[i as int]);
                    let next = json::members_view(members@.take(i + 1));
                    assert(next == done.insert(name@, members@[i as int].1@));
                    assert(json::members_view(out@) =~= elided_members(next));
                }
                i += 1;
            }
            proof {
                assert(members@.take(i as int) =~= members@);
                assert(elided(j@)->Object_0 =~= elided_members(json::members_view(members@)));
            }
            Json::Object(out)
        },
    }
}

/// Leaves long inline data out of a document.
pub fn sanitize_debug_json(v: &mut Json)
    ensures
        final(v)@ == elided(old(v)@),
{
    let clean = elide(v);
    *v = clean;
}

/// What a request goes out with.
#[derive(Debug)]
pub struct Outgoing {
    /// The body, as JSON text.
    pub body: String,
    /// How long to wait for the answer to begin, where that is bounded by
    /// itself.
    pub headers_timeout_secs: Option<u64>,
}

/// What there is to say about a request before it is made.
pub struct Plan {
    pub use_images: bool,
    pub image_only: bool,
}

/// Whether there is text that is more than white space.
pub open spec fn has_words(c: clipboard::ContentView) -> bool {
    c.text matches Some(t) && !clipboard::is_blank(t)
}

/// Which parts of the content are sent: images in one mode only, and only to a
/// model that sees them.
pub open spec fn plan(c: clipboard::ContentView, mode: ProcessMode, vision: bool) -> Plan {
    let use_images = mode == ProcessMode::Summarize && vision && c.images.len() > 0;
    Plan { use_images, image_only: use_images && !has_words(c) }
}

/// Whether there is nothing to send: images alone, and a model that sees none.
pub open spec fn unusable(c: clipboard::ContentView, vision: bool) -> bool {
    !has_words(c) && c.images.len() > 0 && !vision
}

/// The system prompt of a request.
pub open spec fn system_text(
    c: Config,
    content: clipboard::ContentView,
    mode: ProcessMode,
    params: RephraseParams,
    thinking: ThinkingMode,
    vision: bool,
    control: ThinkingControlMethod,
) -> Seq<char> {
    thinking_tag(thinking, control) + config::full_prompt(
        c,
        mode,
        params,
        plan(content, mode, vision).image_only,
    )
}

/// The body of a request about `content`.
pub open spec fn completion_body(
    client: ClientView,
    c: Config,
    content: clipboard::ContentView,
    mode: ProcessMode,
    params: RephraseParams,
    thinking: ThinkingMode,
    vision: bool,
    control: ThinkingControlMethod,
    stream: bool,
) -> json::Ordered {
    let use_images = plan(content, mode, vision).use_images;
    let prompt = system_text(c, content, mode, params, thinking, vision, control);
    let budget = if use_images {
        None
    } else {
        client.token_budget
    };
    request_body(
        client.model,
        seq![
            message("system"@, json::Ordered::Str(prompt)),
            message("user"@, user_content(content, use_images)),
        ],
        client.temperature,
        output_tokens(
            client.max_tokens as int,
            budget,
            token_estimate(prompt) + token_estimate(or_empty(content.text)),
        ) as u32,
        stream,
        thinking_kwargs(thinking, control),
    )
}

impl LlmClient {
    /// The address that requests go to.
    pub fn endpoint(&self) -> (r: &str)
        ensures
            r@ == self@.endpoint,
    {
        self.endpoint.as_str()
    }

    /// The model that answers.
    pub fn model(&self) -> (r: &str)
        ensures
            r@ == self@.model,
    {
        self.model.as_str()
    }

    /// The key that requests go out with.
    pub fn api_key(&self) -> (r: Option<&str>)
        ensures
            config::str_view(r) == self@.api_key,
    {
        config::as_text(&self.api_key)
    }

    /// The headers that requests go out with.
    pub fn custom_headers(&self) -> (r: &Vec<(String, String)>)
        ensures
            config::pairs_view(r@) == self@.custom_headers,
    {
        &self.custom_headers
    }

    /// How long a request may take.
    pub fn timeout_secs(&self) -> (r: u64)
        ensures
            r == self@.timeout_secs,
    {
        self.timeout_secs
    }

    /// The user's message: the text, or the text, where there is any, and the
    /// images.
    pub fn build_user_content(content: &ClipboardContent, use_images: bool) -> (r: MessageContent)
        requires
            use_images ==> images_fit(content@),
        ensures
            r@ == user_content(content@, use_images),
            !use_images ==> r is Text,
            use_images ==> r is Parts,
    {
        let t: String = match &content.text {
            Some(s) => text::copy_str(s.as_str()),
            None => String::new(),
        };
        assert(t@ =~= or_empty(content@.text));
        if !use_images {
            return MessageContent::Text(t);
        }
        let mut parts: Vec<ContentPart> = Vec::new();
        let ghost mut want: Seq<json::Ordered> = Seq::empty();
        let length: usize = chars_of(t.as_str()).len();
        assert(parts_view(parts@) =~= want);
        if length > 0 {
            let part = ContentPart::Text { text: t };
            proof {
                want = want.push(part@);
            }
            parts.push(part);
            assert(parts_view(parts@) =~= want);
        }
        let ghost first = want;
        let ghost rest = content@.images.map_values(|png: Seq<u8>| image_part(png));
        let mut i: usize = 0;
        assert(first + rest.take(0) =~= first);
        while i < content.images.len()
            invariant
                i <= content.images@.len(),
                images_fit(content@),
                rest == content@.images.map_values(|png: Seq<u8>| image_part(png)),
                parts_view(parts@) == first + rest.take(i as int),
            decreases content.images@.len() - i,
        {
            let ghost before = parts_view(parts@);
            assert(content@.images[i as int] == content.images@[i as int]@);
            let url = data_uri_of(ImageMime::Png, &content.images[i]);
            let part = ContentPart::ImageUrl { image_url: ImageUrl { url } };
            assert(part@ == rest[i as int]);
            parts.push(part);
            i += 1;
            assert(rest.take(i as int) =~= rest.take(i - 1).push(rest[i - 1]));
            assert(parts_view(parts@) =~= before.push(part@));
            assert(parts_view(parts@) =~= first + rest.take(i as int));
        }
        proof {
            assert(rest.take(i as int) =~= rest);
            assert(first =~= if or_empty(content@.text).len() == 0 {
                Seq::<json::Ordered>::empty()
            } else {
                seq![
                    object2(
                        "type"@,
                        json::Ordered::Str("text"@),
                        "text"@,
                        json::Ordered::Str(or_empty(content@.text)),
                    ),
                ]
            });
        }
        MessageContent::Parts(parts)
    }

    /// What a thinking mode comes to, given how the model is switched: what goes
    /// before the system prompt, and what the request says.
    pub fn resolve_thinking(thinking_mode: ThinkingMode, control: ThinkingControlMethod) -> (r: (
        Option<&'static str>,
        Option<ChatTemplateKwargs>,
    ))
        ensures
            or_empty(config::str_view(r.0)) == thinking_tag(thinking_mode, control),
            r.0 is Some <==> control == ThinkingControlMethod::SystemPromptTag,
            r.1 == thinking_kwargs(thinking_mode, control),
    {
        match control {
            ThinkingControlMethod::Unsupported => (None, None),
            ThinkingControlMethod::ChatTemplateKwargs => match thinking_mode {
                ThinkingMode::Think => (None, Some(ChatTemplateKwargs { enable_thinking: true })),
                ThinkingMode::NoThink => (
                    None,
                    Some(ChatTemplateKwargs { enable_thinking: false }),
                ),
            },
            ThinkingControlMethod::SystemPromptTag => match thinking_mode {
                ThinkingMode::Think => (Some("/think\n"), None),
                ThinkingMode::NoThink => (Some("/no_think\n"), None),
            },
        }
    }

    /// Makes the request about `content`, and notes it in `capture`. Images
    /// alone are of no use to a model that sees none.
    pub fn build(
        &self,
        config: &Config,
        content: &ClipboardContent,
        mode: ProcessMode,
        rephrase_params: RephraseParams,
        thinking_mode: ThinkingMode,
        vision: bool,
        control: ThinkingControlMethod,
        stream: bool,
        capture: &mut DebugCapture,
    ) -> (r: Result<Outgoing, ApiError>)
        requires
            images_fit(content@),
        ensures
            match r {
                Err(e) => e is NoUsableContent && unusable(content@, vision) && *final(capture)
                    == *old(capture),
                Ok(out) => {
                    let body = completion_body(
                        self@,
                        *config,
                        content@,
                        mode,
                        rephrase_params,
                        thinking_mode,
                        vision,
                        control,
                        stream,
                    );
                    &&& !unusable(content@, vision)
                    &&& out.body@ == json::line_text(body)
                    &&& out.headers_timeout_secs == if stream {
                        Some(self@.initial_response_timeout_secs)
                    } else {
                        None
                    }
                    &&& config::text_view(final(capture).endpoint) == Some(self@.endpoint)
                    &&& config::text_view(final(capture).request) == Some(
                        json::pretty(elided(json::said(body))),
                    )
                    &&& *final(capture) == (DebugCapture {
                        endpoint: final(capture).endpoint,
                        request: final(capture).request,
                        ..*old(capture)
                    })
                },
            },
    {
        let (tag, kwargs) = LlmClient::resolve_thinking(thinking_mode, control);
        let has_text = content.has_text();
        let has_images = content.has_images();
        let use_images = matches!(mode, ProcessMode::Summarize) && vision && has_images;
        let image_only = use_images && !has_text;
        if !has_text && has_images && !vision {
            return Err(ApiError::NoUsableContent);
        }
        let base_prompt = mode.system_prompt(config, rephrase_params, image_only);
        let mut prompt: Vec<char> = match tag {
            Some(t) => chars_of(t),
            None => Vec::new(),
        };
        assert(prompt@ =~= thinking_tag(thinking_mode, control));
        push_text(&mut prompt, base_prompt.as_str());
        let user_text: Vec<char> = match &content.text {
            Some(t) => chars_of(t.as_str()),
            None => Vec::new(),
        };
        assert(user_text@ =~= or_empty(content@.text));
        // Images cannot be estimated, so they keep the ceiling.
        let budget: Option<u32> = if use_images {
            None
        } else {
            self.token_budget
        };
        let prompt_est: u64 = estimate(&prompt);
        let text_est: u64 = estimate(&user_text);
        proof {
            lemma_counts(prompt@);
            lemma_counts(user_text@);
        }
        // More tokens than the budget counts leave nothing of it, however many.
        let est: u32 = if prompt_est > u32::MAX as u64 || text_est > u32::MAX as u64 - prompt_est {
            u32::MAX
        } else {
            (prompt_est + text_est) as u32
        };
        let max_tokens = effective_max_tokens(self.max_tokens, budget, est);
        proof {
            assert(max_tokens == output_tokens(
                self.max_tokens as int,
                budget,
                token_estimate(prompt@) + token_estimate(user_text@),
            ));
        }
        let system = message_of("system", Json::Str(string_of(&prompt)));
        let user = message_of(
            "user",
            LlmClient::build_user_content(content, use_images).to_json(),
        );
        let mut body = body_of(
            self.model.as_str(),
            two(system, user),
            &self.temperature,
            max_tokens,
            stream,
            kwargs,
        );
        proof {
            json::lemma_said(body);
        }
        let text = body.to_line();
        capture.endpoint = Some(text::copy_str(self.endpoint.as_str()));
        sanitize_debug_json(&mut body);
        capture.request = Some(body.to_pretty());
        Ok(
            Outgoing {
                body: text,
                headers_timeout_secs: if stream {
                    Some(self.initial_response_timeout_secs)
                } else {
                    None
                },
            },
        )
    }
}

/// The key and the headers have no part in the body, so what is kept of a
/// request holds no secret of theirs.
pub proof fn the_body_holds_no_key(
    a: ClientView,
    b: ClientView,
    c: Config,
    content: clipboard::ContentView,
    mode: ProcessMode,
    params: RephraseParams,
    thinking: ThinkingMode,
    vision: bool,
    control: ThinkingControlMethod,
    stream: bool,
)
    requires
        a.model == b.model,
        a.temperature == b.temperature,
        a.max_tokens == b.max_tokens,
        a.token_budget == b.token_budget,
    ensures
        completion_body(a, c, content, mode, params, thinking, vision, control, stream)
            == completion_body(b, c, content, mode, params, thinking, vision, control, stream),
{
}

/// What was elided stays as it is.
pub proof fn eliding_is_idempotent(j: json::JsonView)
    ensures
        elided(elided(j)) == elided(j),
    decreases j,
{
    match j {
        json::JsonView::Str(s) => {
            reveal_strlit("data:");
            reveal_strlit("[inline data elided, ");
            let t = elision(text::byte_len(s));
            assert(t[0] == '[');
            if text::starts_with(t, "data:"@) {
                assert(t.subrange(0, 5)[0] == "data:"@[0]);
            }
        },
        json::JsonView::Array(items) => {
            let once = elided(j)->Array_0;
            assert(forall|i: int| 0 <= i < items.len() ==> #[trigger] once[i] == elided(items[i]));
            let twice = elided(json::JsonView::Array(once))->Array_0;
            assert forall|i: int| 0 <= i < items.len() implies #[trigger] twice[i] == once[i] by {
                assert(twice[i] == elided(once[i]));
                eliding_is_idempotent(items[i]);
            }
            assert(twice =~= once);
        },
        json::JsonView::Object(m) => {
            let once = elided(j)->Object_0;
            assert(forall|k: Seq<char>| #[trigger]
                m.dom().contains(k) ==> once.dom().contains(k) && once[k] == elided(m[k]));
            let twice = elided(json::JsonView::Object(once))->Object_0;
            assert forall|k: Seq<char>| m.dom().contains(k) implies #[trigger] twice[k]
                == once[k] by {
                assert(twice[k] == elided(once[k]));
                eliding_is_idempotent(m[k]);
            }
            assert(twice =~= once);
        },
        _ => {},
    }
}

// ---------------------------------------------------------------------------
// Probes
// ---------------------------------------------------------------------------

/// The body of the probe for vision.
pub open spec fn vision_probe(model: Seq<char>) -> json::Ordered {
    request_body(
        model,
        seq![
            message(
                "user"@,
                json::Ordered::Array(
                    seq![
                        object2(
                            "type"@,
                            json::Ordered::Str("text"@),
                            "text"@,
                            json::Ordered::Str("Describe this image in one word."@),
                        ),
                        object2(
                            "type"@,
                            json::Ordered::Str("image_url"@),
                            "image_url"@,
                            object1(
                                "url"@,
                                json::Ordered::Str(
                                    "data:image/png;base64,"@ + PROBE_PNG_BASE64@,
                                ),
                            ),
                        ),
                    ],
                ),
            ),
        ],
        json::decimal_number("0.0"@),
        1,
        false,
        None,
    )
}

/// The body of the probe for `chat_template_kwargs`.
pub open spec fn kwargs_probe(model: Seq<char>) -> json::Ordered {
    request_body(
        model,
        seq![message("user"@, json::Ordered::Str("Say hi."@))],
        json::decimal_number("0.0"@),
        128,
        false,
        Some(ChatTemplateKwargs { enable_thinking: true }),
    )
}

/// The body of the probe for the prompt tag.
pub open spec fn prompt_tag_probe(model: Seq<char>) -> json::Ordered {
    request_body(
        model,
        seq![
            message("system"@, json::Ordered::Str("/think"@)),
            message("user"@, json::Ordered::Str("Say hi."@)),
        ],
        json::decimal_number("0.0"@),
        128,
        false,
        None,
    )
}

fn zero() -> (r: serde_json::Number)
    ensures
        r == json::decimal_number("0.0"@),
{
    proof {
        reveal_strlit("0.0");
    }
    decimal("0.0")
}

impl LlmClient {
    /// Whether the model sees images, where that is settled.
    pub fn known_vision(&self) -> (r: Option<bool>)
        ensures
            r == self@.supports_vision,
    {
        self.supports_vision
    }

    /// The body of the probe for vision.
    pub fn vision_probe_body(&self) -> (r: String)
        ensures
            r@ == json::line_text(vision_probe(self@.model)),
    {
        let url = text::concat("data:image/png;base64,", PROBE_PNG_BASE64);
        let mut parts: Vec<ContentPart> = Vec::new();
        parts.push(
            ContentPart::Text { text: text::copy_str("Describe this image in one word.") },
        );
        parts.push(ContentPart::ImageUrl { image_url: ImageUrl { url } });
        let content = MessageContent::Parts(parts);
        assert(content@->Array_0 =~= seq![parts@[0]@, parts@[1]@]);
        let body = body_of(
            self.model.as_str(),
            one(message_of("user", content.to_json())),
            &zero(),
            1,
            false,
            None,
        );
        assert(body.ordered() == vision_probe(self@.model));
        body.to_line()
    }

    /// Whether the model sees images, given the status of the probe for it; none
    /// where the server was not reached. What was settled before stands, and
    /// what is settled now is kept; what is not settled counts as no, for this
    /// request.
    pub fn probe_vision(&mut self, status: Option<u16>) -> (r: bool)
        ensures
            ({
                let verdict = if old(self)@.supports_vision is Some {
                    old(self)@.supports_vision
                } else {
                    match status {
                        Some(s) => if 200 <= s < 300 {
                            Some(true)
                        } else if s == 400 || s == 422 || s == 429 {
                            Some(false)
                        } else {
                            None
                        },
                        None => None,
                    }
                };
                &&& r == (verdict == Some(true))
                &&& final(self)@ == (ClientView { supports_vision: verdict, ..old(self)@ })
            }),
    {
        if self.supports_vision.is_none() {
            self.supports_vision = match status {
                Some(s) => classify_vision_status(s),
                None => None,
            };
        }
        match self.supports_vision {
            Some(v) => v,
            None => false,
        }
    }

    /// How the model's thinking is switched, where that is settled.
    pub fn known_thinking(&self) -> (r: Option<ThinkingControlMethod>)
        ensures
            r == self@.thinking_control,
    {
        self.thinking_control
    }

    /// The body of the probe for `chat_template_kwargs`.
    pub fn kwargs_probe_body(&self) -> (r: String)
        ensures
            r@ == json::line_text(kwargs_probe(self@.model)),
    {
        let body = body_of(
            self.model.as_str(),
            one(message_of("user", Json::str("Say hi."))),
            &zero(),
            128,
            false,
            Some(ChatTemplateKwargs { enable_thinking: true }),
        );
        body.to_line()
    }

    /// The body of the probe for the prompt tag.
    pub fn prompt_tag_probe_body(&self) -> (r: String)
        ensures
            r@ == json::line_text(prompt_tag_probe(self@.model)),
    {
        let body = body_of(
            self.model.as_str(),
            two(
                message_of("system", Json::str("/think")),
                message_of("user", Json::str("Say hi.")),
            ),
            &zero(),
            128,
            false,
            None,
        );
        body.to_line()
    }

    /// How the model's thinking is switched, given what the probes for it show.
    /// What was settled before stands, and what is settled now is kept; what is
    /// not settled counts as no control, for this request.
    pub fn probe_thinking(&mut self, shown: Option<ThinkingControlMethod>) -> (r:
        ThinkingControlMethod)
        ensures
            ({
                let verdict = if old(self)@.thinking_control is Some {
                    old(self)@.thinking_control
                } else {
                    shown
                };
                &&& r == match verdict {
                    Some(m) => m,
                    None => ThinkingControlMethod::Unsupported,
                }
                &&& final(self)@ == (ClientView { thinking_control: verdict, ..old(self)@ })
            }),
    {
        if self.thinking_control.is_none() {
            self.thinking_control = shown;
        }
        match self.thinking_control {
            Some(m) => m,
            None => ThinkingControlMethod::Unsupported,
        }
    }
}

// ---------------------------------------------------------------------------
// Outcomes
// ---------------------------------------------------------------------------

/// Whether a failure is worth another try: no connection, no time, or the
/// server's own fault.
pub open spec fn transient(e: ApiError) -> bool {
    match e {
        ApiError::InitialResponseTimeout(_) => true,
        ApiError::Http(f) => f.connect || f.timeout || (f.status matches Some(s) && 500 <= s < 600),
        _ => false,
    }
}

/// Whether a failure is a rate limit.
pub open spec fn rate_limited(e: ApiError) -> bool {
    e matches ApiError::Http(f) && f.status == Some(429u16)
}

/// Whether a failure is worth another try.
pub fn is_transient_error(e: &ApiError) -> (r: bool)
    ensures
        r == transient(*e),
{
    match e {
        ApiError::InitialResponseTimeout(_) => true,
        ApiError::Http(f) => f.connect || f.timeout || match f.status {
            Some(s) => 500 <= s && s < 600,
            None => false,
        },
        _ => false,
    }
}

/// Whether a failure is a rate limit. Its wait is the server's to choose.
pub fn is_rate_limited(e: &ApiError) -> (r: bool)
    ensures
        r == rate_limited(*e),
{
    match e {
        ApiError::Http(f) => match f.status {
            Some(s) => s == 429,
            None => false,
        },
        _ => false,
    }
}

/// How long a `Retry-After` header asks to wait, in milliseconds.
pub open spec fn wait_asked(value: Option<Seq<char>>) -> int {
    match value {
        Some(v) => match numbers::unsigned_up_to(
            text::trim(v, CharClass::Space),
            u64::MAX as int,
        ) {
            Some(secs) => if secs * 1000 > RETRY_AFTER_MAX_MS {
                RETRY_AFTER_MAX_MS as int
            } else {
                secs as int * 1000
            },
            None => RETRY_AFTER_DEFAULT_MS as int,
        },
        None => RETRY_AFTER_DEFAULT_MS as int,
    }
}

/// However long the server asks to wait, the wait is bounded.
pub proof fn lemma_wait_asked(value: Option<Seq<char>>)
    ensures
        0 <= wait_asked(value) <= RETRY_AFTER_MAX_MS,
{
}

/// How long a `Retry-After` header asks to wait, in milliseconds, up to a bound.
/// Only whole seconds are understood.
pub fn parse_retry_after(value: Option<&str>) -> (r: u64)
    ensures
        r == wait_asked(config::str_view(value)),
        r <= RETRY_AFTER_MAX_MS,
{
    match value {
        Some(v) => match parse_u64(&trimmed(&chars_of(v), CharClass::Space)) {
            Some(secs) => if secs > RETRY_AFTER_MAX_MS / 1000 {
                RETRY_AFTER_MAX_MS
            } else {
                secs * 1000
            },
            None => RETRY_AFTER_DEFAULT_MS,
        },
        None => RETRY_AFTER_DEFAULT_MS,
    }
}

/// How long to wait before the next try, after so many failed ones; `None`
/// where there is none.
pub fn retry_delay(attempts: u32, e: &ApiError, retry_after: Option<u64>) -> (r: Option<u64>)
    ensures
        r == if attempts > MAX_RETRIES {
            None
        } else if transient(*e) {
            Some(RETRY_DELAY_MS)
        } else if rate_limited(*e) {
            match retry_after {
                Some(ms) => Some(ms),
                None => Some(RETRY_AFTER_DEFAULT_MS),
            }
        } else {
            None
        },
{
    if attempts > MAX_RETRIES {
        None
    } else if is_transient_error(e) {
        Some(RETRY_DELAY_MS)
    } else if is_rate_limited(e) {
        match retry_after {
            Some(ms) => Some(ms),
            None => Some(RETRY_AFTER_DEFAULT_MS),
        }
    } else {
        None
    }
}

/// An answer that was refused.
#[derive(Debug)]
pub struct Refusal {
    pub error: ApiError,
    /// How long the server asks to wait, in milliseconds, where it limits the
    /// rate.
    pub retry_after: Option<u64>,
}

/// Takes the head of an answer, and notes it in `capture`. A refusal keeps its
/// body, if it has one, so that the reason can be seen; an answer that is none
/// drops the body of an earlier try.
pub fn note_response(
    capture: &mut DebugCapture,
    status: u16,
    retry_after: Option<&str>,
    error_body: Option<String>,
    message: String,
) -> (r: Result<(), Refusal>)
    ensures
        ({
            let refused = 400 <= status < 600;
            &&& *final(capture) == (DebugCapture {
                status: Some(status),
                response_raw: if refused {
                    error_body
                } else {
                    None
                },
                ..*old(capture)
            })
            &&& match r {
                Ok(_) => !refused,
                Err(e) => refused && e.error == ApiError::Http(
                    HttpFailure { connect: false, timeout: false, status: Some(status), message },
                ) && match e.retry_after {
                    Some(ms) => status == 429 && ms == wait_asked(config::str_view(retry_after)),
                    None => status != 429,
                },
            }
        }),
{
    capture.status = Some(status);
    if 400 <= status && status < 600 {
        let wait: Option<u64> = if status == 429 {
            Some(parse_retry_after(retry_after))
        } else {
            None
        };
        capture.response_raw = error_body;
        return Err(
            Refusal {
                error: ApiError::Http(
                    HttpFailure { connect: false, timeout: false, status: Some(status), message },
                ),
                retry_after: wait,
            },
        );
    }
    capture.response_raw = None;
    Ok(())
}

/// What is said of a body that is no reply: what a reader of the caller's has
/// against it, or else why it is no JSON, or that it is none of the right shape.
pub open spec fn complaint(body: Seq<char>, objection: Option<Seq<char>>) -> Seq<char> {
    match objection {
        Some(why) => why,
        None => match json::parsed(body) {
            Ok(_) => "not a chat completion"@,
            Err(why) => why,
        },
    }
}

/// What a reply comes to: its first answer, or what is wrong with it.
pub enum Outcome {
    Answer(Seq<char>),
    Empty,
    Truncated,
}

/// What the answers of a reply come to.
pub open spec fn outcome(choices: Seq<wire::ChoiceView>) -> Outcome {
    if choices.len() == 0 {
        Outcome::Empty
    } else if choices[0].finish_reason == Some("length"@) {
        Outcome::Truncated
    } else if choices[0].content.len() == 0 {
        Outcome::Empty
    } else {
        Outcome::Answer(choices[0].content)
    }
}

/// The reply in a body; none where a reader of the caller's objects to it.
pub open spec fn reply(body: Seq<char>, objection: Option<Seq<char>>) -> Option<
    (Seq<wire::ChoiceView>, Option<wire::Usage>),
> {
    match (json::parsed(body), objection) {
        (Ok(j), None) => wire::chat_response(j),
        _ => None,
    }
}

/// `capture` with the body and what it says about tokens.
pub open spec fn noted(
    capture: DebugCapture,
    raw: Option<String>,
    usage: Option<wire::Usage>,
) -> DebugCapture {
    match usage {
        Some(u) => DebugCapture {
            response_raw: raw,
            prompt_tokens: Some(u.prompt_tokens),
            completion_tokens: Some(u.completion_tokens),
            total_tokens: Some(u.total_tokens),
            ..capture
        },
        None => DebugCapture { response_raw: raw, ..capture },
    }
}

impl LlmClient {
    /// Takes the body of an answer that was not streamed: the model's text, or why
    /// there is none. Body and token counts are noted in `capture`, the body even
    /// where it is no reply. `objection` is what a reader that knows the types of a
    /// reply has against the body, such as a member that is there twice; it is
    /// handed on in its own words.
    pub fn complete(
        &self,
        body: String,
        objection: Option<String>,
        capture: &mut DebugCapture,
    ) -> (r: Result<String, ApiError>)
        ensures
            config::text_view(final(capture).response_raw) == Some(body@),
            *final(capture) == noted(
                *old(capture),
                final(capture).response_raw,
                match reply(body@, config::text_view(objection)) {
                    Some((_, usage)) => usage,
                    None => None,
                },
            ),
            match reply(body@, config::text_view(objection)) {
                None => r matches Err(ApiError::MalformedResponse(why)) && why@ == complaint(
                    body@,
                    config::text_view(objection),
                ),
                Some((choices, _)) => match outcome(choices) {
                    Outcome::Answer(t) => r matches Ok(s) && s@ == t,
                    Outcome::Truncated => r matches Err(e) && e is Truncated,
                    Outcome::Empty => r matches Err(e) && e is EmptyResponse,
                },
            },
    {
        let parsed = json::parse(body.as_str());
        capture.response_raw = Some(body);
        if let Some(why) = objection {
            return Err(ApiError::MalformedResponse(why));
        }
        let chat = match parsed {
            Ok(j) => match read_chat_response(&j) {
                Some(chat) => chat,
                None => {
                    return Err(
                        ApiError::MalformedResponse(text::copy_str("not a chat completion")),
                    );
                },
            },
            Err(why) => {
                return Err(ApiError::MalformedResponse(why));
            },
        };
        if let Some(usage) = chat.usage {
            capture.prompt_tokens = Some(usage.prompt_tokens);
            capture.completion_tokens = Some(usage.completion_tokens);
            capture.total_tokens = Some(usage.total_tokens);
        }
        if chat.choices.len() == 0 {
            return Err(ApiError::EmptyResponse);
        }
        assert(wire::choices_view(chat.choices@)[0] == chat.choices@[0]@);
        let choice = &chat.choices[0];
        if let Some(reason) = &choice.finish_reason {
            if str_same(reason.as_str(), "length") {
                return Err(ApiError::Truncated);
            }
        }
        let content = text::copy_str(choice.message.content.as_str());
        if chars_of(content.as_str()).len() == 0 {
            return Err(ApiError::EmptyResponse);
        }
        Ok(content)
    }
}

} // verus!
