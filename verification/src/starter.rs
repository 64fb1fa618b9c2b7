//! The configuration file that is written where there is none yet.
//!
//! What must be set stands in it uncommented and empty. Everything else is
//! commented out, with the value that holds where nothing is said.

use crate::prompt::DEFAULT_PROMPT_PREAMBLE;
use crate::prompt::DEFAULT_REPHRASE_BASE;
use crate::prompt::DEFAULT_REPHRASE_LENGTH_BRIEF;
use crate::prompt::DEFAULT_REPHRASE_LENGTH_DETAILED;
use crate::prompt::DEFAULT_REPHRASE_LENGTH_FULL;
use crate::prompt::DEFAULT_REPHRASE_LENGTH_SAME;
use crate::prompt::DEFAULT_REPHRASE_LENGTH_TERSE;
use crate::prompt::DEFAULT_REPHRASE_STYLE_BUSINESS;
use crate::prompt::DEFAULT_REPHRASE_STYLE_CASUAL;
use crate::prompt::DEFAULT_REPHRASE_STYLE_CORRECT;
use crate::prompt::DEFAULT_REPHRASE_STYLE_FORMAL;
use crate::prompt::DEFAULT_REPHRASE_STYLE_TECHNICAL;
use crate::prompt::DEFAULT_SUMMARIZE_IMAGE_PROMPT;
use crate::prompt::DEFAULT_SUMMARIZE_PROMPT;
use crate::prompt::DEFAULT_TRANSLATE_PROMPT;
use crate::text;
use crate::text::chars_of;
use crate::text::extend;
use crate::text::push_text;
use crate::text::string_of;
use vstd::prelude::*;

verus! {

/// A character as it stands between quotes in TOML.
pub open spec fn escaped_char(c: char) -> Seq<char> {
    if c == '\\' {
        seq!['\\', '\\']
    } else if c == '"' {
        seq!['\\', '"']
    } else if c == '\n' {
        seq!['\\', 'n']
    } else {
        seq![c]
    }
}

/// A text as it stands between quotes in TOML: backslashes and quotes get a
/// backslash, and a line break is written as one.
pub open spec fn escaped(s: Seq<char>) -> Seq<char>
    decreases s.len(),
{
    if s.len() == 0 {
        s
    } else {
        escaped(s.drop_last()) + escaped_char(s.last())
    }
}

/// The end of a line, behind a note where there is one.
pub open spec fn line_end(note: Seq<char>) -> Seq<char> {
    if note.len() == 0 {
        "\n"@
    } else {
        "   # "@ + note + "\n"@
    }
}

/// A commented line that sets `key` to a text.
pub open spec fn quoted(key: Seq<char>, value: Seq<char>, note: Seq<char>) -> Seq<char> {
    "# "@ + key + " = \""@ + escaped(value) + "\""@ + line_end(note)
}

/// A commented line that sets `key` to a number or a truth value.
pub open spec fn bare(key: Seq<char>, value: Seq<char>, note: Seq<char>) -> Seq<char> {
    "# "@ + key + " = "@ + value + line_end(note)
}

fn escape(s: &str) -> (r: Vec<char>)
    ensures
        r@ == escaped(s@),
{
    let v = chars_of(s);
    let mut r: Vec<char> = Vec::new();
    let mut i: usize = 0;
    assert(v@.take(0) =~= Seq::<char>::empty());
    while i < v.len()
        invariant
            i <= v@.len(),
            r@ == escaped(v@.take(i as int)),
        decreases v.len() - i,
    {
        let c: char = v[i];
        let ghost before = r@;
        if c == '\\' {
            r.push('\\');
            r.push('\\');
        } else if c == '"' {
            r.push('\\');
            r.push('"');
        } else if c == '\n' {
            r.push('\\');
            r.push('n');
        } else {
            r.push(c);
        }
        assert(v@.take(i + 1).drop_last() =~= v@.take(i as int));
        assert(r@ =~= before + escaped_char(c));
        i += 1;
    }
    assert(v@.take(i as int) =~= v@);
    r
}

fn push_line_end(v: &mut Vec<char>, note: &str)
    ensures
        final(v)@ == old(v)@ + line_end(note@),
{
    if note.is_empty() {
        push_text(v, "\n");
    } else {
        let mut e = chars_of("   # ");
        push_text(&mut e, note);
        push_text(&mut e, "\n");
        extend(v, &e);
    }
}

fn push_quoted(v: &mut Vec<char>, key: &str, value: &str, note: &str)
    ensures
        final(v)@ == old(v)@ + quoted(key@, value@, note@),
{
    let mut line = chars_of("# ");
    push_text(&mut line, key);
    push_text(&mut line, " = \"");
    let e = escape(value);
    extend(&mut line, &e);
    push_text(&mut line, "\"");
    push_line_end(&mut line, note);
    extend(v, &line);
}

fn push_bare(v: &mut Vec<char>, key: &str, value: &str, note: &str)
    ensures
        final(v)@ == old(v)@ + bare(key@, value@, note@),
{
    let mut line = chars_of("# ");
    push_text(&mut line, key);
    push_text(&mut line, " = ");
    push_text(&mut line, value);
    push_line_end(&mut line, note);
    extend(v, &line);
}

/// The comment that the file starts with.
pub open spec fn head_text() -> Seq<char> {
    Seq::<char>::empty()
        + "# clip-llm configuration\n\
         #\n\
         # api.endpoint, api.model, and api.api_key are REQUIRED (no defaults) — the\n\
         # app logs an error and exits at startup until all three are set. Fill them\n\
         # in below. Every other key is optional and shown commented with its actual\n\
         # built-in default; uncomment a line to override it. Changes apply on the\n\
         # next app start (no hot-reload yet).\n\
         # Full schema/examples: config.example.toml in the repository,\n\
         # https://github.com/zekaizer/clip-llm/blob/main/config.example.toml\n\
         #\n\
         # Placeholders substituted at runtime: {primary_lang}, {secondary_lang}\n\
         # (and {style}, {length} inside [rephrase].base).\n\n"@
}

fn push_head(out: &mut Vec<char>)
    ensures
        final(out)@ == old(out)@ + head_text(),
{
    let mut v: Vec<char> = Vec::new();
    push_text(&mut v, "# clip-llm configuration\n\
         #\n\
         # api.endpoint, api.model, and api.api_key are REQUIRED (no defaults) — the\n\
         # app logs an error and exits at startup until all three are set. Fill them\n\
         # in below. Every other key is optional and shown commented with its actual\n\
         # built-in default; uncomment a line to override it. Changes apply on the\n\
         # next app start (no hot-reload yet).\n\
         # Full schema/examples: config.example.toml in the repository,\n\
         # https://github.com/zekaizer/clip-llm/blob/main/config.example.toml\n\
         #\n\
         # Placeholders substituted at runtime: {primary_lang}, {secondary_lang}\n\
         # (and {style}, {length} inside [rephrase].base).\n\n");
    extend(out, &v);
}

/// The text of the api section.
pub open spec fn api_text() -> Seq<char> {
    Seq::<char>::empty()
        + "[api]\n"@
        + quoted("provider"@, "openai"@, "or \"grok-oauth\": xAI Responses API via the Grok CLI's sign-in (endpoint/api_key not needed; run `grok` once to sign in)"@)
        + "endpoint = \"\"   # REQUIRED — vLLM base URL, e.g. http://host:8000/v1 (or CLIP_LLM_API_ENDPOINT)\n"@
        + "model    = \"\"   # REQUIRED — model name served by the endpoint (or CLIP_LLM_MODEL)\n"@
        + "api_key  = \"\"   # REQUIRED — access token; use any non-empty value if the server needs none (or CLIP_LLM_API_KEY)\n"@
        + quoted("auth_file"@, "~/.grok/auth.json"@, "grok-oauth only: override the credential-store path"@)
        + bare("streaming"@, "true"@, "false disables SSE (like CLIP_LLM_NO_STREAM)"@)
        + "\n"@
}

fn push_api(out: &mut Vec<char>)
    ensures
        final(out)@ == old(out)@ + api_text(),
{
    let mut v: Vec<char> = Vec::new();
    push_text(&mut v, "[api]\n");
    push_quoted(&mut v, "provider", "openai", "or \"grok-oauth\": xAI Responses API via the Grok CLI's sign-in (endpoint/api_key not needed; run `grok` once to sign in)");
    push_text(&mut v, "endpoint = \"\"   # REQUIRED — vLLM base URL, e.g. http://host:8000/v1 (or CLIP_LLM_API_ENDPOINT)\n");
    push_text(&mut v, "model    = \"\"   # REQUIRED — model name served by the endpoint (or CLIP_LLM_MODEL)\n");
    push_text(&mut v, "api_key  = \"\"   # REQUIRED — access token; use any non-empty value if the server needs none (or CLIP_LLM_API_KEY)\n");
    push_quoted(&mut v, "auth_file", "~/.grok/auth.json", "grok-oauth only: override the credential-store path");
    push_bare(&mut v, "streaming", "true", "false disables SSE (like CLIP_LLM_NO_STREAM)");
    push_text(&mut v, "\n");
    extend(out, &v);
}

/// The text of the headers section.
pub open spec fn headers_text() -> Seq<char> {
    Seq::<char>::empty()
        + "# [api.headers]\n"@
        + "# X-Dep-Ticket = \"abc\"\n"@
        + "# User-Id = \"u1\"\n\n"@
}

fn push_headers(out: &mut Vec<char>)
    ensures
        final(out)@ == old(out)@ + headers_text(),
{
    let mut v: Vec<char> = Vec::new();
    push_text(&mut v, "# [api.headers]\n");
    push_text(&mut v, "# X-Dep-Ticket = \"abc\"\n");
    push_text(&mut v, "# User-Id = \"u1\"\n\n");
    extend(out, &v);
}

/// The text of the generation section.
pub open spec fn generation_text() -> Seq<char> {
    Seq::<char>::empty()
        + "# [generation]\n"@
        + bare("temperature"@, "0.1"@, "sampling temperature (0.0–2.0)"@)
        + bare("max_tokens"@, "16384"@, "max output tokens (a ceiling when token_budget is set)"@)
        + bare("token_budget"@, "6000"@, "optional: total (prompt+completion) cap; max_tokens is computed per request to fit it"@)
        + bare("request_timeout_secs"@, "30"@, "per-request timeout (also the streaming connect timeout)"@)
        + bare("initial_response_timeout_secs"@, "10"@, "streaming only: max wait for response headers before retry"@)
        + "\n"@
}

fn push_generation(out: &mut Vec<char>)
    ensures
        final(out)@ == old(out)@ + generation_text(),
{
    let mut v: Vec<char> = Vec::new();
    push_text(&mut v, "# [generation]\n");
    push_bare(&mut v, "temperature", "0.1", "sampling temperature (0.0–2.0)");
    push_bare(&mut v, "max_tokens", "16384", "max output tokens (a ceiling when token_budget is set)");
    push_bare(&mut v, "token_budget", "6000", "optional: total (prompt+completion) cap; max_tokens is computed per request to fit it");
    push_bare(&mut v, "request_timeout_secs", "30", "per-request timeout (also the streaming connect timeout)");
    push_bare(&mut v, "initial_response_timeout_secs", "10", "streaming only: max wait for response headers before retry");
    push_text(&mut v, "\n");
    extend(out, &v);
}

/// The text of the telemetry section.
pub open spec fn telemetry_text() -> Seq<char> {
    Seq::<char>::empty()
        + "# [telemetry]\n"@
        + quoted("url"@, "http://192.168.1.15:9428"@, "VictoriaLogs base URL — presence enables shipping"@)
        + quoted("level"@, "info"@, "trace|debug|info|warn|error (trace/debug may include clipboard text)"@)
        + bare("batch_max"@, "200"@, "max records coalesced per POST"@)
        + "\n"@
}

fn push_telemetry(out: &mut Vec<char>)
    ensures
        final(out)@ == old(out)@ + telemetry_text(),
{
    let mut v: Vec<char> = Vec::new();
    push_text(&mut v, "# [telemetry]\n");
    push_quoted(&mut v, "url", "http://192.168.1.15:9428", "VictoriaLogs base URL — presence enables shipping");
    push_quoted(&mut v, "level", "info", "trace|debug|info|warn|error (trace/debug may include clipboard text)");
    push_bare(&mut v, "batch_max", "200", "max records coalesced per POST");
    push_text(&mut v, "\n");
    extend(out, &v);
}

/// The text of the hotkey section.
pub open spec fn hotkey_text() -> Seq<char> {
    Seq::<char>::empty()
        + "# [hotkey]\n"@
        + bare("double_tap_timeout_ms"@, "350"@, "single/double-tap detection window (lower = snappier)"@)
        + "\n"@
}

fn push_hotkey(out: &mut Vec<char>)
    ensures
        final(out)@ == old(out)@ + hotkey_text(),
{
    let mut v: Vec<char> = Vec::new();
    push_text(&mut v, "# [hotkey]\n");
    push_bare(&mut v, "double_tap_timeout_ms", "350", "single/double-tap detection window (lower = snappier)");
    push_text(&mut v, "\n");
    extend(out, &v);
}

/// The text of the ui section.
pub open spec fn ui_text() -> Seq<char> {
    Seq::<char>::empty()
        + "# [ui]\n"@
        + bare("single_tap_pinned"@, "false"@, "single-tap result is not auto-copied — set true to avoid losing it"@)
        + bare("double_tap_pinned"@, "false"@, ""@)
        + "\n"@
}

fn push_ui(out: &mut Vec<char>)
    ensures
        final(out)@ == old(out)@ + ui_text(),
{
    let mut v: Vec<char> = Vec::new();
    push_text(&mut v, "# [ui]\n");
    push_bare(&mut v, "single_tap_pinned", "false", "single-tap result is not auto-copied — set true to avoid losing it");
    push_bare(&mut v, "double_tap_pinned", "false", "");
    push_text(&mut v, "\n");
    extend(out, &v);
}

/// The text of the languages section.
pub open spec fn languages_text() -> Seq<char> {
    Seq::<char>::empty()
        + "# [languages]\n"@
        + quoted("primary"@, "Korean"@, ""@)
        + quoted("secondary"@, "English"@, ""@)
        + "\n"@
}

fn push_languages(out: &mut Vec<char>)
    ensures
        final(out)@ == old(out)@ + languages_text(),
{
    let mut v: Vec<char> = Vec::new();
    push_text(&mut v, "# [languages]\n");
    push_quoted(&mut v, "primary", "Korean", "");
    push_quoted(&mut v, "secondary", "English", "");
    push_text(&mut v, "\n");
    extend(out, &v);
}

/// The text of the prompt section.
pub open spec fn prompt_text() -> Seq<char> {
    Seq::<char>::empty()
        + "# [prompt]\n"@
        + quoted("preamble"@, DEFAULT_PROMPT_PREAMBLE@, ""@)
        + "\n"@
}

fn push_prompt(out: &mut Vec<char>)
    ensures
        final(out)@ == old(out)@ + prompt_text(),
{
    let mut v: Vec<char> = Vec::new();
    push_text(&mut v, "# [prompt]\n");
    push_quoted(&mut v, "preamble", DEFAULT_PROMPT_PREAMBLE, "");
    push_text(&mut v, "\n");
    extend(out, &v);
}

/// The text of the translate section.
pub open spec fn translate_text() -> Seq<char> {
    Seq::<char>::empty()
        + "# [translate]\n"@
        + quoted("prompt"@, DEFAULT_TRANSLATE_PROMPT@, ""@)
        + "\n"@
}

fn push_translate(out: &mut Vec<char>)
    ensures
        final(out)@ == old(out)@ + translate_text(),
{
    let mut v: Vec<char> = Vec::new();
    push_text(&mut v, "# [translate]\n");
    push_quoted(&mut v, "prompt", DEFAULT_TRANSLATE_PROMPT, "");
    push_text(&mut v, "\n");
    extend(out, &v);
}

/// The text of the rephrase section.
pub open spec fn rephrase_text() -> Seq<char> {
    Seq::<char>::empty()
        + "# [rephrase]\n"@
        + quoted("base"@, DEFAULT_REPHRASE_BASE@, ""@)
        + "\n"@
        + "# [rephrase.style]\n"@
        + quoted("correct"@, DEFAULT_REPHRASE_STYLE_CORRECT@, ""@)
        + quoted("casual"@, DEFAULT_REPHRASE_STYLE_CASUAL@, ""@)
        + quoted("formal"@, DEFAULT_REPHRASE_STYLE_FORMAL@, ""@)
        + quoted("business"@, DEFAULT_REPHRASE_STYLE_BUSINESS@, ""@)
        + quoted("technical"@, DEFAULT_REPHRASE_STYLE_TECHNICAL@, ""@)
        + "\n"@
        + "# [rephrase.length]   # values carry no surrounding space; `same` is intentionally empty\n"@
        + quoted("terse"@, DEFAULT_REPHRASE_LENGTH_TERSE@, ""@)
        + quoted("brief"@, DEFAULT_REPHRASE_LENGTH_BRIEF@, ""@)
        + quoted("same"@, DEFAULT_REPHRASE_LENGTH_SAME@, ""@)
        + quoted("detailed"@, DEFAULT_REPHRASE_LENGTH_DETAILED@, ""@)
        + quoted("full"@, DEFAULT_REPHRASE_LENGTH_FULL@, ""@)
        + "\n"@
}

fn push_rephrase(out: &mut Vec<char>)
    ensures
        final(out)@ == old(out)@ + rephrase_text(),
{
    let mut v: Vec<char> = Vec::new();
    push_text(&mut v, "# [rephrase]\n");
    push_quoted(&mut v, "base", DEFAULT_REPHRASE_BASE, "");
    push_text(&mut v, "\n");
    push_text(&mut v, "# [rephrase.style]\n");
    push_quoted(&mut v, "correct", DEFAULT_REPHRASE_STYLE_CORRECT, "");
    push_quoted(&mut v, "casual", DEFAULT_REPHRASE_STYLE_CASUAL, "");
    push_quoted(&mut v, "formal", DEFAULT_REPHRASE_STYLE_FORMAL, "");
    push_quoted(&mut v, "business", DEFAULT_REPHRASE_STYLE_BUSINESS, "");
    push_quoted(&mut v, "technical", DEFAULT_REPHRASE_STYLE_TECHNICAL, "");
    push_text(&mut v, "\n");
    push_text(&mut v, "# [rephrase.length]   # values carry no surrounding space; `same` is intentionally empty\n");
    push_quoted(&mut v, "terse", DEFAULT_REPHRASE_LENGTH_TERSE, "");
    push_quoted(&mut v, "brief", DEFAULT_REPHRASE_LENGTH_BRIEF, "");
    push_quoted(&mut v, "same", DEFAULT_REPHRASE_LENGTH_SAME, "");
    push_quoted(&mut v, "detailed", DEFAULT_REPHRASE_LENGTH_DETAILED, "");
    push_quoted(&mut v, "full", DEFAULT_REPHRASE_LENGTH_FULL, "");
    push_text(&mut v, "\n");
    extend(out, &v);
}

/// The text of the summarize section.
pub open spec fn summarize_text() -> Seq<char> {
    Seq::<char>::empty()
        + "# [summarize]\n"@
        + quoted("prompt"@, DEFAULT_SUMMARIZE_PROMPT@, ""@)
        + quoted("image_prompt"@, DEFAULT_SUMMARIZE_IMAGE_PROMPT@, ""@)
}

fn push_summarize(out: &mut Vec<char>)
    ensures
        final(out)@ == old(out)@ + summarize_text(),
{
    let mut v: Vec<char> = Vec::new();
    push_text(&mut v, "# [summarize]\n");
    push_quoted(&mut v, "prompt", DEFAULT_SUMMARIZE_PROMPT, "");
    push_quoted(&mut v, "image_prompt", DEFAULT_SUMMARIZE_IMAGE_PROMPT, "");
    extend(out, &v);
}

/// The whole file.
pub open spec fn starter_text() -> Seq<char> {
    Seq::<char>::empty() + head_text() + api_text() + headers_text() + generation_text()
        + telemetry_text() + hotkey_text() + ui_text() + languages_text() + prompt_text()
        + translate_text() + rephrase_text() + summarize_text()
}

/// The configuration file that is written where there is none yet.
pub fn starter_template() -> (r: String)
    ensures
        r@ == starter_text(),
{
    let mut v: Vec<char> = Vec::new();
    push_head(&mut v);
    push_api(&mut v);
    push_headers(&mut v);
    push_generation(&mut v);
    push_telemetry(&mut v);
    push_hotkey(&mut v);
    push_ui(&mut v);
    push_languages(&mut v);
    push_prompt(&mut v);
    push_translate(&mut v);
    push_rephrase(&mut v);
    push_summarize(&mut v);
    string_of(&v)
}

// ---------------------------------------------------------------------------
// What the file sets
// ---------------------------------------------------------------------------

/// Whether a line of `s` starts at `i`.
pub open spec fn starts_line(s: Seq<char>, i: int) -> bool {
    i == 0 || s[i - 1] == '\n'
}

/// Whether one of the lines that must be filled in stands at `i`, or the header
/// of their section.
pub open spec fn asks_at(s: Seq<char>, i: int) -> bool {
    ||| text::occurs_at(s, "[api]\n"@, i)
    ||| text::occurs_at(s, "endpoint = \"\""@, i)
    ||| text::occurs_at(s, "model    = \"\""@, i)
    ||| text::occurs_at(s, "api_key  = \"\""@, i)
}

/// Whether the line at `i` is blank, a comment, or one that must be filled in.
spec fn quiet_at(s: Seq<char>, i: int) -> bool {
    s[i] == '#' || s[i] == '\n' || asks_at(s, i)
}

/// Whether `s` is made of whole lines, each of them blank, a comment, or one that
/// must be filled in.
#[verifier::opaque]
spec fn quiet(s: Seq<char>) -> bool {
    &&& s.len() > 0 ==> s.last() == '\n'
    &&& forall|i: int| 0 <= i < s.len() && #[trigger] starts_line(s, i) ==> quiet_at(s, i)
}

/// Whether `s` stays within a line.
spec fn unbroken(s: Seq<char>) -> bool {
    forall|i: int| 0 <= i < s.len() ==> #[trigger] s[i] != '\n'
}

proof fn lemma_asks(a: Seq<char>, b: Seq<char>, c: Seq<char>, i: int)
    requires
        0 <= i <= b.len(),
        asks_at(b, i),
    ensures
        asks_at(a + b + c, a.len() + i),
{
    let s = a + b + c;
    let p = if text::occurs_at(b, "[api]\n"@, i) {
        "[api]\n"@
    } else if text::occurs_at(b, "endpoint = \"\""@, i) {
        "endpoint = \"\""@
    } else if text::occurs_at(b, "model    = \"\""@, i) {
        "model    = \"\""@
    } else {
        "api_key  = \"\""@
    };
    assert(s.subrange(a.len() + i, a.len() + i + p.len()) =~= b.subrange(i, i + p.len()));
}

proof fn lemma_join(a: Seq<char>, b: Seq<char>)
    requires
        quiet(a),
        quiet(b),
    ensures
        quiet(a + b),
{
    reveal(quiet);
    let s = a + b;
    let none = Seq::<char>::empty();
    assert forall|i: int| 0 <= i < s.len() && #[trigger] starts_line(s, i) implies quiet_at(
        s,
        i,
    ) by {
        if i < a.len() {
            assert(starts_line(a, i));
            if asks_at(a, i) {
                lemma_asks(none, a, b, i);
                assert(none + a + b =~= s);
            }
        } else {
            let k = i - a.len();
            assert(starts_line(b, k));
            if asks_at(b, k) {
                lemma_asks(a, b, none, k);
                assert(a + b + none =~= s);
            }
        }
    }
}

proof fn lemma_line(s: Seq<char>)
    requires
        s.len() > 0,
        s[0] == '#' || asks_at(s, 0),
        s.last() == '\n',
        unbroken(s.drop_last()),
    ensures
        quiet(s),
{
    reveal(quiet);
    assert forall|i: int| 0 <= i < s.len() && #[trigger] starts_line(s, i) implies quiet_at(
        s,
        i,
    ) by {
        if i > 0 {
            assert(s.drop_last()[i - 1] != '\n');
        }
    }
}

proof fn lemma_blank()
    ensures
        quiet(Seq::<char>::empty()),
        quiet("\n"@),
{
    reveal(quiet);
    reveal_strlit("\n");
}

proof fn lemma_escaped(s: Seq<char>)
    ensures
        unbroken(escaped(s)),
    decreases s.len(),
{
    if s.len() > 0 {
        lemma_escaped(s.drop_last());
    }
}

proof fn lemma_quoted(key: Seq<char>, value: Seq<char>, note: Seq<char>)
    requires
        unbroken(key),
        unbroken(note),
    ensures
        quiet(quoted(key, value, note)),
{
    reveal_strlit("# ");
    reveal_strlit(" = \"");
    reveal_strlit("\"");
    reveal_strlit("   # ");
    reveal_strlit("\n");
    lemma_escaped(value);
    lemma_line(quoted(key, value, note));
}

proof fn lemma_bare(key: Seq<char>, value: Seq<char>, note: Seq<char>)
    requires
        unbroken(key),
        unbroken(value),
        unbroken(note),
    ensures
        quiet(bare(key, value, note)),
{
    reveal_strlit("# ");
    reveal_strlit(" = ");
    reveal_strlit("   # ");
    reveal_strlit("\n");
    lemma_line(bare(key, value, note));
}

proof fn lemma_head()
    ensures
        quiet(head_text()),
{
    reveal_strlit("# clip-llm configuration\n\
         #\n\
         # api.endpoint, api.model, and api.api_key are REQUIRED (no defaults) — the\n\
         # app logs an error and exits at startup until all three are set. Fill them\n\
         # in below. Every other key is optional and shown commented with its actual\n\
         # built-in default; uncomment a line to override it. Changes apply on the\n\
         # next app start (no hot-reload yet).\n\
         # Full schema/examples: config.example.toml in the repository,\n\
         # https://github.com/zekaizer/clip-llm/blob/main/config.example.toml\n\
         #\n\
         # Placeholders substituted at runtime: {primary_lang}, {secondary_lang}\n\
         # (and {style}, {length} inside [rephrase].base).\n\n");
    reveal(quiet);
    let t = Seq::<char>::empty();
    lemma_join(t, "# clip-llm configuration\n\
         #\n\
         # api.endpoint, api.model, and api.api_key are REQUIRED (no defaults) — the\n\
         # app logs an error and exits at startup until all three are set. Fill them\n\
         # in below. Every other key is optional and shown commented with its actual\n\
         # built-in default; uncomment a line to override it. Changes apply on the\n\
         # next app start (no hot-reload yet).\n\
         # Full schema/examples: config.example.toml in the repository,\n\
         # https://github.com/zekaizer/clip-llm/blob/main/config.example.toml\n\
         #\n\
         # Placeholders substituted at runtime: {primary_lang}, {secondary_lang}\n\
         # (and {style}, {length} inside [rephrase].base).\n\n"@);
    let t = t + "# clip-llm configuration\n\
         #\n\
         # api.endpoint, api.model, and api.api_key are REQUIRED (no defaults) — the\n\
         # app logs an error and exits at startup until all three are set. Fill them\n\
         # in below. Every other key is optional and shown commented with its actual\n\
         # built-in default; uncomment a line to override it. Changes apply on the\n\
         # next app start (no hot-reload yet).\n\
         # Full schema/examples: config.example.toml in the repository,\n\
         # https://github.com/zekaizer/clip-llm/blob/main/config.example.toml\n\
         #\n\
         # Placeholders substituted at runtime: {primary_lang}, {secondary_lang}\n\
         # (and {style}, {length} inside [rephrase].base).\n\n"@;
}

proof fn lemma_api()
    ensures
        quiet(api_text()),
{
    reveal_strlit("[api]\n");
    reveal_strlit("provider");
    reveal_strlit("openai");
    reveal_strlit("or \"grok-oauth\": xAI Responses API via the Grok CLI's sign-in (endpoint/api_key not needed; run `grok` once to sign in)");
    reveal_strlit("endpoint = \"\"   # REQUIRED — vLLM base URL, e.g. http://host:8000/v1 (or CLIP_LLM_API_ENDPOINT)\n");
    reveal_strlit("model    = \"\"   # REQUIRED — model name served by the endpoint (or CLIP_LLM_MODEL)\n");
    reveal_strlit("api_key  = \"\"   # REQUIRED — access token; use any non-empty value if the server needs none (or CLIP_LLM_API_KEY)\n");
    reveal_strlit("auth_file");
    reveal_strlit("~/.grok/auth.json");
    reveal_strlit("grok-oauth only: override the credential-store path");
    reveal_strlit("streaming");
    reveal_strlit("true");
    reveal_strlit("false disables SSE (like CLIP_LLM_NO_STREAM)");
    reveal_strlit("\n");
    lemma_blank();
    let t = Seq::<char>::empty();
    assert("[api]\n"@.subrange(0, "[api]\n"@.len() as int) =~= "[api]\n"@);
    lemma_line("[api]\n"@);
    lemma_join(t, "[api]\n"@);
    let t = t + "[api]\n"@;
    lemma_quoted("provider"@, "openai"@, "or \"grok-oauth\": xAI Responses API via the Grok CLI's sign-in (endpoint/api_key not needed; run `grok` once to sign in)"@);
    lemma_join(t, quoted("provider"@, "openai"@, "or \"grok-oauth\": xAI Responses API via the Grok CLI's sign-in (endpoint/api_key not needed; run `grok` once to sign in)"@));
    let t = t + quoted("provider"@, "openai"@, "or \"grok-oauth\": xAI Responses API via the Grok CLI's sign-in (endpoint/api_key not needed; run `grok` once to sign in)"@);
    reveal_strlit("endpoint = \"\"");
    assert("endpoint = \"\"   # REQUIRED — vLLM base URL, e.g. http://host:8000/v1 (or CLIP_LLM_API_ENDPOINT)\n"@.subrange(0, "endpoint = \"\""@.len() as int) =~= "endpoint = \"\""@);
    lemma_line("endpoint = \"\"   # REQUIRED — vLLM base URL, e.g. http://host:8000/v1 (or CLIP_LLM_API_ENDPOINT)\n"@);
    lemma_join(t, "endpoint = \"\"   # REQUIRED — vLLM base URL, e.g. http://host:8000/v1 (or CLIP_LLM_API_ENDPOINT)\n"@);
    let t = t + "endpoint = \"\"   # REQUIRED — vLLM base URL, e.g. http://host:8000/v1 (or CLIP_LLM_API_ENDPOINT)\n"@;
    reveal_strlit("model    = \"\"");
    assert("model    = \"\"   # REQUIRED — model name served by the endpoint (or CLIP_LLM_MODEL)\n"@.subrange(0, "model    = \"\""@.len() as int) =~= "model    = \"\""@);
    lemma_line("model    = \"\"   # REQUIRED — model name served by the endpoint (or CLIP_LLM_MODEL)\n"@);
    lemma_join(t, "model    = \"\"   # REQUIRED — model name served by the endpoint (or CLIP_LLM_MODEL)\n"@);
    let t = t + "model    = \"\"   # REQUIRED — model name served by the endpoint (or CLIP_LLM_MODEL)\n"@;
    reveal_strlit("api_key  = \"\"");
    assert("api_key  = \"\"   # REQUIRED — access token; use any non-empty value if the server needs none (or CLIP_LLM_API_KEY)\n"@.subrange(0, "api_key  = \"\""@.len() as int) =~= "api_key  = \"\""@);
    lemma_line("api_key  = \"\"   # REQUIRED — access token; use any non-empty value if the server needs none (or CLIP_LLM_API_KEY)\n"@);
    lemma_join(t, "api_key  = \"\"   # REQUIRED — access token; use any non-empty value if the server needs none (or CLIP_LLM_API_KEY)\n"@);
    let t = t + "api_key  = \"\"   # REQUIRED — access token; use any non-empty value if the server needs none (or CLIP_LLM_API_KEY)\n"@;
    lemma_quoted("auth_file"@, "~/.grok/auth.json"@, "grok-oauth only: override the credential-store path"@);
    lemma_join(t, quoted("auth_file"@, "~/.grok/auth.json"@, "grok-oauth only: override the credential-store path"@));
    let t = t + quoted("auth_file"@, "~/.grok/auth.json"@, "grok-oauth only: override the credential-store path"@);
    lemma_bare("streaming"@, "true"@, "false disables SSE (like CLIP_LLM_NO_STREAM)"@);
    lemma_join(t, bare("streaming"@, "true"@, "false disables SSE (like CLIP_LLM_NO_STREAM)"@));
    let t = t + bare("streaming"@, "true"@, "false disables SSE (like CLIP_LLM_NO_STREAM)"@);
    lemma_join(t, "\n"@);
    let t = t + "\n"@;
}

proof fn lemma_headers()
    ensures
        quiet(headers_text()),
{
    reveal_strlit("# [api.headers]\n");
    reveal_strlit("# X-Dep-Ticket = \"abc\"\n");
    reveal_strlit("# User-Id = \"u1\"\n\n");
    lemma_blank();
    let t = Seq::<char>::empty();
    lemma_line("# [api.headers]\n"@);
    lemma_join(t, "# [api.headers]\n"@);
    let t = t + "# [api.headers]\n"@;
    lemma_line("# X-Dep-Ticket = \"abc\"\n"@);
    lemma_join(t, "# X-Dep-Ticket = \"abc\"\n"@);
    let t = t + "# X-Dep-Ticket = \"abc\"\n"@;
    assert(quiet("# User-Id = \"u1\"\n\n"@)) by {
        reveal(quiet);
    }
    lemma_join(t, "# User-Id = \"u1\"\n\n"@);
    let t = t + "# User-Id = \"u1\"\n\n"@;
}

proof fn lemma_generation()
    ensures
        quiet(generation_text()),
{
    reveal_strlit("# [generation]\n");
    reveal_strlit("temperature");
    reveal_strlit("0.1");
    reveal_strlit("sampling temperature (0.0–2.0)");
    reveal_strlit("max_tokens");
    reveal_strlit("16384");
    reveal_strlit("max output tokens (a ceiling when token_budget is set)");
    reveal_strlit("token_budget");
    reveal_strlit("6000");
    reveal_strlit("optional: total (prompt+completion) cap; max_tokens is computed per request to fit it");
    reveal_strlit("request_timeout_secs");
    reveal_strlit("30");
    reveal_strlit("per-request timeout (also the streaming connect timeout)");
    reveal_strlit("initial_response_timeout_secs");
    reveal_strlit("10");
    reveal_strlit("streaming only: max wait for response headers before retry");
    reveal_strlit("\n");
    lemma_blank();
    let t = Seq::<char>::empty();
    lemma_line("# [generation]\n"@);
    lemma_join(t, "# [generation]\n"@);
    let t = t + "# [generation]\n"@;
    lemma_bare("temperature"@, "0.1"@, "sampling temperature (0.0–2.0)"@);
    lemma_join(t, bare("temperature"@, "0.1"@, "sampling temperature (0.0–2.0)"@));
    let t = t + bare("temperature"@, "0.1"@, "sampling temperature (0.0–2.0)"@);
    lemma_bare("max_tokens"@, "16384"@, "max output tokens (a ceiling when token_budget is set)"@);
    lemma_join(t, bare("max_tokens"@, "16384"@, "max output tokens (a ceiling when token_budget is set)"@));
    let t = t + bare("max_tokens"@, "16384"@, "max output tokens (a ceiling when token_budget is set)"@);
    lemma_bare("token_budget"@, "6000"@, "optional: total (prompt+completion) cap; max_tokens is computed per request to fit it"@);
    lemma_join(t, bare("token_budget"@, "6000"@, "optional: total (prompt+completion) cap; max_tokens is computed per request to fit it"@));
    let t = t + bare("token_budget"@, "6000"@, "optional: total (prompt+completion) cap; max_tokens is computed per request to fit it"@);
    lemma_bare("request_timeout_secs"@, "30"@, "per-request timeout (also the streaming connect timeout)"@);
    lemma_join(t, bare("request_timeout_secs"@, "30"@, "per-request timeout (also the streaming connect timeout)"@));
    let t = t + bare("request_timeout_secs"@, "30"@, "per-request timeout (also the streaming connect timeout)"@);
    lemma_bare("initial_response_timeout_secs"@, "10"@, "streaming only: max wait for response headers before retry"@);
    lemma_join(t, bare("initial_response_timeout_secs"@, "10"@, "streaming only: max wait for response headers before retry"@));
    let t = t + bare("initial_response_timeout_secs"@, "10"@, "streaming only: max wait for response headers before retry"@);
    lemma_join(t, "\n"@);
    let t = t + "\n"@;
}

proof fn lemma_telemetry()
    ensures
        quiet(telemetry_text()),
{
    reveal_strlit("# [telemetry]\n");
    reveal_strlit("url");
    reveal_strlit("http://192.168.1.15:9428");
    reveal_strlit("VictoriaLogs base URL — presence enables shipping");
    reveal_strlit("level");
    reveal_strlit("info");
    reveal_strlit("trace|debug|info|warn|error (trace/debug may include clipboard text)");
    reveal_strlit("batch_max");
    reveal_strlit("200");
    reveal_strlit("max records coalesced per POST");
    reveal_strlit("\n");
    lemma_blank();
    let t = Seq::<char>::empty();
    lemma_line("# [telemetry]\n"@);
    lemma_join(t, "# [telemetry]\n"@);
    let t = t + "# [telemetry]\n"@;
    lemma_quoted("url"@, "http://192.168.1.15:9428"@, "VictoriaLogs base URL — presence enables shipping"@);
    lemma_join(t, quoted("url"@, "http://192.168.1.15:9428"@, "VictoriaLogs base URL — presence enables shipping"@));
    let t = t + quoted("url"@, "http://192.168.1.15:9428"@, "VictoriaLogs base URL — presence enables shipping"@);
    lemma_quoted("level"@, "info"@, "trace|debug|info|warn|error (trace/debug may include clipboard text)"@);
    lemma_join(t, quoted("level"@, "info"@, "trace|debug|info|warn|error (trace/debug may include clipboard text)"@));
    let t = t + quoted("level"@, "info"@, "trace|debug|info|warn|error (trace/debug may include clipboard text)"@);
    lemma_bare("batch_max"@, "200"@, "max records coalesced per POST"@);
    lemma_join(t, bare("batch_max"@, "200"@, "max records coalesced per POST"@));
    let t = t + bare("batch_max"@, "200"@, "max records coalesced per POST"@);
    lemma_join(t, "\n"@);
    let t = t + "\n"@;
}

proof fn lemma_hotkey()
    ensures
        quiet(hotkey_text()),
{
    reveal_strlit("# [hotkey]\n");
    reveal_strlit("double_tap_timeout_ms");
    reveal_strlit("350");
    reveal_strlit("single/double-tap detection window (lower = snappier)");
    reveal_strlit("\n");
    lemma_blank();
    let t = Seq::<char>::empty();
    lemma_line("# [hotkey]\n"@);
    lemma_join(t, "# [hotkey]\n"@);
    let t = t + "# [hotkey]\n"@;
    lemma_bare("double_tap_timeout_ms"@, "350"@, "single/double-tap detection window (lower = snappier)"@);
    lemma_join(t, bare("double_tap_timeout_ms"@, "350"@, "single/double-tap detection window (lower = snappier)"@));
    let t = t + bare("double_tap_timeout_ms"@, "350"@, "single/double-tap detection window (lower = snappier)"@);
    lemma_join(t, "\n"@);
    let t = t + "\n"@;
}

proof fn lemma_ui()
    ensures
        quiet(ui_text()),
{
    reveal_strlit("# [ui]\n");
    reveal_strlit("single_tap_pinned");
    reveal_strlit("false");
    reveal_strlit("single-tap result is not auto-copied — set true to avoid losing it");
    reveal_strlit("double_tap_pinned");
    reveal_strlit("");
    reveal_strlit("\n");
    lemma_blank();
    let t = Seq::<char>::empty();
    lemma_line("# [ui]\n"@);
    lemma_join(t, "# [ui]\n"@);
    let t = t + "# [ui]\n"@;
    lemma_bare("single_tap_pinned"@, "false"@, "single-tap result is not auto-copied — set true to avoid losing it"@);
    lemma_join(t, bare("single_tap_pinned"@, "false"@, "single-tap result is not auto-copied — set true to avoid losing it"@));
    let t = t + bare("single_tap_pinned"@, "false"@, "single-tap result is not auto-copied — set true to avoid losing it"@);
    lemma_bare("double_tap_pinned"@, "false"@, ""@);
    lemma_join(t, bare("double_tap_pinned"@, "false"@, ""@));
    let t = t + bare("double_tap_pinned"@, "false"@, ""@);
    lemma_join(t, "\n"@);
    let t = t + "\n"@;
}

proof fn lemma_languages()
    ensures
        quiet(languages_text()),
{
    reveal_strlit("# [languages]\n");
    reveal_strlit("primary");
    reveal_strlit("Korean");
    reveal_strlit("");
    reveal_strlit("secondary");
    reveal_strlit("English");
    reveal_strlit("\n");
    lemma_blank();
    let t = Seq::<char>::empty();
    lemma_line("# [languages]\n"@);
    lemma_join(t, "# [languages]\n"@);
    let t = t + "# [languages]\n"@;
    lemma_quoted("primary"@, "Korean"@, ""@);
    lemma_join(t, quoted("primary"@, "Korean"@, ""@));
    let t = t + quoted("primary"@, "Korean"@, ""@);
    lemma_quoted("secondary"@, "English"@, ""@);
    lemma_join(t, quoted("secondary"@, "English"@, ""@));
    let t = t + quoted("secondary"@, "English"@, ""@);
    lemma_join(t, "\n"@);
    let t = t + "\n"@;
}

proof fn lemma_prompt()
    ensures
        quiet(prompt_text()),
{
    reveal_strlit("# [prompt]\n");
    reveal_strlit("preamble");
    reveal_strlit("");
    reveal_strlit("\n");
    lemma_blank();
    let t = Seq::<char>::empty();
    lemma_line("# [prompt]\n"@);
    lemma_join(t, "# [prompt]\n"@);
    let t = t + "# [prompt]\n"@;
    lemma_quoted("preamble"@, DEFAULT_PROMPT_PREAMBLE@, ""@);
    lemma_join(t, quoted("preamble"@, DEFAULT_PROMPT_PREAMBLE@, ""@));
    let t = t + quoted("preamble"@, DEFAULT_PROMPT_PREAMBLE@, ""@);
    lemma_join(t, "\n"@);
    let t = t + "\n"@;
}

proof fn lemma_translate()
    ensures
        quiet(translate_text()),
{
    reveal_strlit("# [translate]\n");
    reveal_strlit("prompt");
    reveal_strlit("");
    reveal_strlit("\n");
    lemma_blank();
    let t = Seq::<char>::empty();
    lemma_line("# [translate]\n"@);
    lemma_join(t, "# [translate]\n"@);
    let t = t + "# [translate]\n"@;
    lemma_quoted("prompt"@, DEFAULT_TRANSLATE_PROMPT@, ""@);
    lemma_join(t, quoted("prompt"@, DEFAULT_TRANSLATE_PROMPT@, ""@));
    let t = t + quoted("prompt"@, DEFAULT_TRANSLATE_PROMPT@, ""@);
    lemma_join(t, "\n"@);
    let t = t + "\n"@;
}

proof fn lemma_rephrase()
    ensures
        quiet(rephrase_text()),
{
    reveal_strlit("# [rephrase]\n");
    reveal_strlit("base");
    reveal_strlit("");
    reveal_strlit("\n");
    reveal_strlit("# [rephrase.style]\n");
    reveal_strlit("correct");
    reveal_strlit("casual");
    reveal_strlit("formal");
    reveal_strlit("business");
    reveal_strlit("technical");
    reveal_strlit("# [rephrase.length]   # values carry no surrounding space; `same` is intentionally empty\n");
    reveal_strlit("terse");
    reveal_strlit("brief");
    reveal_strlit("same");
    reveal_strlit("detailed");
    reveal_strlit("full");
    lemma_blank();
    let t = Seq::<char>::empty();
    lemma_line("# [rephrase]\n"@);
    lemma_join(t, "# [rephrase]\n"@);
    let t = t + "# [rephrase]\n"@;
    lemma_quoted("base"@, DEFAULT_REPHRASE_BASE@, ""@);
    lemma_join(t, quoted("base"@, DEFAULT_REPHRASE_BASE@, ""@));
    let t = t + quoted("base"@, DEFAULT_REPHRASE_BASE@, ""@);
    lemma_join(t, "\n"@);
    let t = t + "\n"@;
    lemma_line("# [rephrase.style]\n"@);
    lemma_join(t, "# [rephrase.style]\n"@);
    let t = t + "# [rephrase.style]\n"@;
    lemma_quoted("correct"@, DEFAULT_REPHRASE_STYLE_CORRECT@, ""@);
    lemma_join(t, quoted("correct"@, DEFAULT_REPHRASE_STYLE_CORRECT@, ""@));
    let t = t + quoted("correct"@, DEFAULT_REPHRASE_STYLE_CORRECT@, ""@);
    lemma_quoted("casual"@, DEFAULT_REPHRASE_STYLE_CASUAL@, ""@);
    lemma_join(t, quoted("casual"@, DEFAULT_REPHRASE_STYLE_CASUAL@, ""@));
    let t = t + quoted("casual"@, DEFAULT_REPHRASE_STYLE_CASUAL@, ""@);
    lemma_quoted("formal"@, DEFAULT_REPHRASE_STYLE_FORMAL@, ""@);
    lemma_join(t, quoted("formal"@, DEFAULT_REPHRASE_STYLE_FORMAL@, ""@));
    let t = t + quoted("formal"@, DEFAULT_REPHRASE_STYLE_FORMAL@, ""@);
    lemma_quoted("business"@, DEFAULT_REPHRASE_STYLE_BUSINESS@, ""@);
    lemma_join(t, quoted("business"@, DEFAULT_REPHRASE_STYLE_BUSINESS@, ""@));
    let t = t + quoted("business"@, DEFAULT_REPHRASE_STYLE_BUSINESS@, ""@);
    lemma_quoted("technical"@, DEFAULT_REPHRASE_STYLE_TECHNICAL@, ""@);
    lemma_join(t, quoted("technical"@, DEFAULT_REPHRASE_STYLE_TECHNICAL@, ""@));
    let t = t + quoted("technical"@, DEFAULT_REPHRASE_STYLE_TECHNICAL@, ""@);
    lemma_join(t, "\n"@);
    let t = t + "\n"@;
    lemma_line("# [rephrase.length]   # values carry no surrounding space; `same` is intentionally empty\n"@);
    lemma_join(t, "# [rephrase.length]   # values carry no surrounding space; `same` is intentionally empty\n"@);
    let t = t + "# [rephrase.length]   # values carry no surrounding space; `same` is intentionally empty\n"@;
    lemma_quoted("terse"@, DEFAULT_REPHRASE_LENGTH_TERSE@, ""@);
    lemma_join(t, quoted("terse"@, DEFAULT_REPHRASE_LENGTH_TERSE@, ""@));
    let t = t + quoted("terse"@, DEFAULT_REPHRASE_LENGTH_TERSE@, ""@);
    lemma_quoted("brief"@, DEFAULT_REPHRASE_LENGTH_BRIEF@, ""@);
    lemma_join(t, quoted("brief"@, DEFAULT_REPHRASE_LENGTH_BRIEF@, ""@));
    let t = t + quoted("brief"@, DEFAULT_REPHRASE_LENGTH_BRIEF@, ""@);
    lemma_quoted("same"@, DEFAULT_REPHRASE_LENGTH_SAME@, ""@);
    lemma_join(t, quoted("same"@, DEFAULT_REPHRASE_LENGTH_SAME@, ""@));
    let t = t + quoted("same"@, DEFAULT_REPHRASE_LENGTH_SAME@, ""@);
    lemma_quoted("detailed"@, DEFAULT_REPHRASE_LENGTH_DETAILED@, ""@);
    lemma_join(t, quoted("detailed"@, DEFAULT_REPHRASE_LENGTH_DETAILED@, ""@));
    let t = t + quoted("detailed"@, DEFAULT_REPHRASE_LENGTH_DETAILED@, ""@);
    lemma_quoted("full"@, DEFAULT_REPHRASE_LENGTH_FULL@, ""@);
    lemma_join(t, quoted("full"@, DEFAULT_REPHRASE_LENGTH_FULL@, ""@));
    let t = t + quoted("full"@, DEFAULT_REPHRASE_LENGTH_FULL@, ""@);
    lemma_join(t, "\n"@);
    let t = t + "\n"@;
}

proof fn lemma_summarize()
    ensures
        quiet(summarize_text()),
{
    reveal_strlit("# [summarize]\n");
    reveal_strlit("prompt");
    reveal_strlit("");
    reveal_strlit("image_prompt");
    lemma_blank();
    let t = Seq::<char>::empty();
    lemma_line("# [summarize]\n"@);
    lemma_join(t, "# [summarize]\n"@);
    let t = t + "# [summarize]\n"@;
    lemma_quoted("prompt"@, DEFAULT_SUMMARIZE_PROMPT@, ""@);
    lemma_join(t, quoted("prompt"@, DEFAULT_SUMMARIZE_PROMPT@, ""@));
    let t = t + quoted("prompt"@, DEFAULT_SUMMARIZE_PROMPT@, ""@);
    lemma_quoted("image_prompt"@, DEFAULT_SUMMARIZE_IMAGE_PROMPT@, ""@);
    lemma_join(t, quoted("image_prompt"@, DEFAULT_SUMMARIZE_IMAGE_PROMPT@, ""@));
    let t = t + quoted("image_prompt"@, DEFAULT_SUMMARIZE_IMAGE_PROMPT@, ""@);
}

/// The file sets nothing but what must be filled in: every other line is blank or
/// a comment.
pub proof fn only_what_is_required_is_set(i: int)
    requires
        0 <= i < starter_text().len(),
        starts_line(starter_text(), i),
    ensures
        starter_text()[i] == '#' || starter_text()[i] == '\n' || asks_at(starter_text(), i),
{
    lemma_blank();
    let t = Seq::<char>::empty();
    lemma_head();
    lemma_join(t, head_text());
    let t = t + head_text();
    lemma_api();
    lemma_join(t, api_text());
    let t = t + api_text();
    lemma_headers();
    lemma_join(t, headers_text());
    let t = t + headers_text();
    lemma_generation();
    lemma_join(t, generation_text());
    let t = t + generation_text();
    lemma_telemetry();
    lemma_join(t, telemetry_text());
    let t = t + telemetry_text();
    lemma_hotkey();
    lemma_join(t, hotkey_text());
    let t = t + hotkey_text();
    lemma_ui();
    lemma_join(t, ui_text());
    let t = t + ui_text();
    lemma_languages();
    lemma_join(t, languages_text());
    let t = t + languages_text();
    lemma_prompt();
    lemma_join(t, prompt_text());
    let t = t + prompt_text();
    lemma_translate();
    lemma_join(t, translate_text());
    let t = t + translate_text();
    lemma_rephrase();
    lemma_join(t, rephrase_text());
    let t = t + rephrase_text();
    lemma_summarize();
    lemma_join(t, summarize_text());
    let t = t + summarize_text();
    reveal(quiet);
    assert(quiet_at(starter_text(), i));
}

} // verus!
