//! A record of one exchange with the server, for the user to copy.

use crate::numbers;
use crate::numbers::dec_of;
use crate::text::chars_of;
use crate::text::extend;
use crate::text::push_text;
use crate::text::string_of;
use vstd::prelude::*;

verus! {

/// What was sent to the server, what came back, when, and how long it took.
#[derive(Debug, Clone, PartialEq)]
pub struct DebugCapture {
    /// Where the request went.
    pub endpoint: Option<String>,
    /// The request body, with inline images left out.
    pub request: Option<String>,
    /// The HTTP status of the response.
    pub status: Option<u16>,
    /// The response body as it came.
    pub response_raw: Option<String>,
    /// When the request began.
    pub timestamp: Option<String>,
    /// How long it took, in milliseconds.
    pub elapsed_ms: Option<u128>,
    /// What went wrong in detail, where something did.
    pub error: Option<String>,
    pub prompt_tokens: Option<u32>,
    pub completion_tokens: Option<u32>,
    pub total_tokens: Option<u32>,
}

impl Default for DebugCapture {
    fn default() -> (r: Self)
        ensures
            r == (DebugCapture {
                endpoint: None,
                request: None,
                status: None,
                response_raw: None,
                timestamp: None,
                elapsed_ms: None,
                error: None,
                prompt_tokens: None,
                completion_tokens: None,
                total_tokens: None,
            }),
    {
        DebugCapture {
            endpoint: None,
            request: None,
            status: None,
            response_raw: None,
            timestamp: None,
            elapsed_ms: None,
            error: None,
            prompt_tokens: None,
            completion_tokens: None,
            total_tokens: None,
        }
    }
}

/// A text, or what stands in for it.
pub open spec fn or_else(s: Option<String>, other: Seq<char>) -> Seq<char> {
    match s {
        Some(t) => t@,
        None => other,
    }
}

/// The line of token counts, where all three are known.
pub open spec fn tokens_line(c: DebugCapture) -> Seq<char> {
    match (c.prompt_tokens, c.completion_tokens, c.total_tokens) {
        (Some(p), Some(n), Some(t)) => "tokens:      prompt="@ + numbers::dec(p as nat)
            + " completion="@ + numbers::dec(n as nat) + " total="@ + numbers::dec(t as nat)
            + "\n"@,
        _ => seq![],
    }
}

/// The section on what went wrong, where something did.
pub open spec fn error_section(c: DebugCapture) -> Seq<char> {
    match c.error {
        Some(e) => "\n--- ERROR ---\n"@ + e@ + "\n"@,
        None => seq![],
    }
}

/// The first lines.
pub open spec fn head(c: DebugCapture) -> Seq<char> {
    let elapsed = match c.elapsed_ms {
        Some(ms) => numbers::dec(ms as nat) + " ms"@,
        None => "(unknown)"@,
    };
    let status = match c.status {
        Some(s) => numbers::dec(s as nat),
        None => "(no response)"@,
    };
    "=== clip-llm debug ===\ntime:        "@ + or_else(c.timestamp, "(unknown)"@)
        + "\nelapsed:     "@ + elapsed + "\nendpoint:    POST "@ + or_else(
        c.endpoint,
        "(unknown endpoint)"@,
    ) + "\nHTTP status: "@ + status + "\n"@
}

/// The request and the response.
pub open spec fn bodies(c: DebugCapture) -> Seq<char> {
    "\n--- REQUEST ---\n"@ + or_else(c.request, "(not captured)"@) + "\n"@
        + "\n--- RESPONSE ---\n"@ + or_else(c.response_raw, "(not captured)"@) + "\n"@
}

fn push_or(v: &mut Vec<char>, s: &Option<String>, other: &str)
    ensures
        final(v)@ == old(v)@ + or_else(*s, other@),
{
    match s {
        Some(t) => push_text(v, t.as_str()),
        None => push_text(v, other),
    }
}

fn push_number(v: &mut Vec<char>, n: u128)
    ensures
        final(v)@ == old(v)@ + numbers::dec(n as nat),
{
    let digits = dec_of(n);
    extend(v, &digits);
}

impl DebugCapture {
    /// The record as one block of text.
    pub fn to_clipboard_text(&self) -> (r: String)
        ensures
            r@ == head(*self) + tokens_line(*self) + error_section(*self) + bodies(*self),
    {
        let mut v = chars_of("=== clip-llm debug ===\ntime:        ");
        push_or(&mut v, &self.timestamp, "(unknown)");
        push_text(&mut v, "\nelapsed:     ");
        match self.elapsed_ms {
            Some(ms) => {
                let mut e = dec_of(ms);
                push_text(&mut e, " ms");
                extend(&mut v, &e);
            },
            None => push_text(&mut v, "(unknown)"),
        }
        push_text(&mut v, "\nendpoint:    POST ");
        push_or(&mut v, &self.endpoint, "(unknown endpoint)");
        push_text(&mut v, "\nHTTP status: ");
        match self.status {
            Some(s) => push_number(&mut v, s as u128),
            None => push_text(&mut v, "(no response)"),
        }
        push_text(&mut v, "\n");
        assert(v@ == head(*self));
        let mut t: Vec<char> = Vec::new();
        if let (Some(p), Some(c), Some(n)) = (
            self.prompt_tokens,
            self.completion_tokens,
            self.total_tokens,
        ) {
            t = chars_of("tokens:      prompt=");
            push_number(&mut t, p as u128);
            push_text(&mut t, " completion=");
            push_number(&mut t, c as u128);
            push_text(&mut t, " total=");
            push_number(&mut t, n as u128);
            push_text(&mut t, "\n");
        }
        assert(t@ == tokens_line(*self));
        extend(&mut v, &t);
        let mut e: Vec<char> = Vec::new();
        if let Some(err) = &self.error {
            e = chars_of("\n--- ERROR ---\n");
            push_text(&mut e, err.as_str());
            push_text(&mut e, "\n");
        }
        assert(e@ == error_section(*self));
        extend(&mut v, &e);
        let mut b = chars_of("\n--- REQUEST ---\n");
        push_or(&mut b, &self.request, "(not captured)");
        push_text(&mut b, "\n");
        push_text(&mut b, "\n--- RESPONSE ---\n");
        push_or(&mut b, &self.response_raw, "(not captured)");
        push_text(&mut b, "\n");
        assert(b@ == bodies(*self));
        extend(&mut v, &b);
        string_of(&v)
    }
}

} // verus!
