//! What can go wrong.

use crate::numbers;
use crate::numbers::dec_of;
use crate::text::chars_of;
use crate::text::extend;
use crate::text::push_text;
use crate::text::string_of;
use vstd::prelude::*;

verus! {

/// What went wrong with the desktop.
#[derive(Debug)]
pub enum PlatformError {
    AccessibilityDenied,
    CopyFailed(String),
    PasteFailed(String),
}

/// Why an HTTP request failed, as far as it matters here.
#[derive(Debug)]
pub struct HttpFailure {
    /// No connection came about.
    pub connect: bool,
    /// The time ran out.
    pub timeout: bool,
    /// The status that the server answered with, where it answered.
    pub status: Option<u16>,
    pub message: String,
}

/// What went wrong with a request to the model.
#[derive(Debug)]
pub enum ApiError {
    Http(HttpFailure),
    /// A setting that must be there is not.
    MissingConfig(&'static str),
    /// A setting is there that makes no sense.
    InvalidConfig(String),
    /// No response headers came within so many seconds.
    InitialResponseTimeout(u64),
    EmptyResponse,
    /// The server answered, but not with a completion.
    MalformedResponse(String),
    /// There is an image only, and the model sees none.
    NoUsableContent,
    /// The answer was cut off at its length limit.
    Truncated,
    Cancelled,
    /// Signing in failed.
    Auth(String),
}

/// What went wrong with the clipboard.
#[derive(Debug)]
pub enum ClipboardError {
    AccessFailed(String),
    NoTextInClipboard,
    NoTextAfterCopy,
    /// A copy arrived that holds nothing usable.
    EmptyCopy,
    Cancelled,
    WriteFailed(String),
    ImageEncodeFailed(String),
    CopyFailed(PlatformError),
    /// Files that are neither text nor an image.
    UnsupportedFiles(Vec<String>),
    FileReadFailed { name: String, reason: String },
    FileTooLarge { name: String, limit_bytes: u64 },
    ImageTooLarge { width: u32, height: u32 },
}

/// What went wrong with the hotkey.
#[derive(Debug)]
pub enum HotkeyError {
    InitFailed(String),
    RegisterFailed(String),
}

/// The text of a [`PlatformError`].
pub open spec fn platform_message(e: PlatformError) -> Seq<char> {
    match e {
        PlatformError::AccessibilityDenied => "accessibility permission required"@,
        PlatformError::CopyFailed(why) => "copy simulation failed: "@ + why@,
        PlatformError::PasteFailed(why) => "paste simulation failed: "@ + why@,
    }
}

/// The text of an [`ApiError`].
pub open spec fn api_message(e: ApiError) -> Seq<char> {
    match e {
        ApiError::Http(f) => "http request failed: "@ + f.message@,
        ApiError::MissingConfig(name) => "required setting not configured: "@ + name@
            + " (set it in config.toml under [api], or the matching CLIP_LLM_* environment variable)"@,
        ApiError::InvalidConfig(why) => "invalid configuration: "@ + why@,
        ApiError::InitialResponseTimeout(secs) => "no response headers within "@ + numbers::dec(
            secs as nat,
        ) + "s"@,
        ApiError::EmptyResponse => "empty response from model"@,
        ApiError::MalformedResponse(why) => "malformed response body: "@ + why@,
        ApiError::NoUsableContent =>
            "no usable content: image-only clipboard but model lacks vision support"@,
        ApiError::Truncated => "response truncated: generation hit the max_tokens limit"@,
        ApiError::Cancelled => "request cancelled"@,
        ApiError::Auth(why) => why@,
    }
}

/// The text of a [`HotkeyError`].
pub open spec fn hotkey_message(e: HotkeyError) -> Seq<char> {
    match e {
        HotkeyError::InitFailed(why) => "failed to initialize hotkey manager: "@ + why@,
        HotkeyError::RegisterFailed(why) => "failed to register hotkey: "@ + why@,
    }
}

/// Names with a comma and a space between them.
pub open spec fn name_list(names: Seq<String>) -> Seq<char>
    decreases names.len(),
{
    if names.len() == 0 {
        seq![]
    } else if names.len() == 1 {
        names[0]@
    } else {
        name_list(names.drop_last()) + ", "@ + names.last()@
    }
}

/// The text of a [`ClipboardError`].
pub open spec fn clipboard_message(e: ClipboardError) -> Seq<char> {
    match e {
        ClipboardError::AccessFailed(why) => "clipboard access failed: "@ + why@,
        ClipboardError::NoTextInClipboard => "no text in clipboard"@,
        ClipboardError::NoTextAfterCopy => "no text in clipboard after copy simulation"@,
        ClipboardError::EmptyCopy => "copy delivered no usable content"@,
        ClipboardError::Cancelled => "capture cancelled"@,
        ClipboardError::WriteFailed(why) => "clipboard write failed: "@ + why@,
        ClipboardError::ImageEncodeFailed(why) => "image encoding failed: "@ + why@,
        ClipboardError::CopyFailed(inner) => "copy simulation failed: "@ + platform_message(inner),
        ClipboardError::UnsupportedFiles(names) => "unsupported file type: "@ + name_list(names@),
        ClipboardError::FileReadFailed { name, reason } => "cannot read "@ + name@ + ": "@
            + reason@,
        ClipboardError::FileTooLarge { name, limit_bytes } => name@ + " is larger than "@
            + numbers::dec(limit_bytes as nat) + " bytes"@,
        ClipboardError::ImageTooLarge { width, height } => "image too large: "@ + numbers::dec(
            width as nat,
        ) + "x"@ + numbers::dec(height as nat),
    }
}

fn two(a: &str, b: &str) -> (r: String)
    ensures
        r@ == a@ + b@,
{
    crate::text::concat(a, b)
}

impl PlatformError {
    /// The text of the error.
    pub fn message(&self) -> (r: String)
        ensures
            r@ == platform_message(*self),
    {
        match self {
            PlatformError::AccessibilityDenied => "accessibility permission required".to_owned(),
            PlatformError::CopyFailed(why) => two("copy simulation failed: ", why.as_str()),
            PlatformError::PasteFailed(why) => two("paste simulation failed: ", why.as_str()),
        }
    }
}

impl ApiError {
    /// The text of the error.
    pub fn message(&self) -> (r: String)
        ensures
            r@ == api_message(*self),
    {
        match self {
            ApiError::Http(f) => two("http request failed: ", f.message.as_str()),
            ApiError::MissingConfig(name) => {
                let mut v = chars_of("required setting not configured: ");
                push_text(&mut v, name);
                push_text(
                    &mut v,
                    " (set it in config.toml under [api], or the matching CLIP_LLM_* environment variable)",
                );
                string_of(&v)
            },
            ApiError::InvalidConfig(why) => two("invalid configuration: ", why.as_str()),
            ApiError::InitialResponseTimeout(secs) => {
                let mut v = chars_of("no response headers within ");
                let digits = dec_of(*secs as u128);
                extend(&mut v, &digits);
                push_text(&mut v, "s");
                string_of(&v)
            },
            ApiError::EmptyResponse => "empty response from model".to_owned(),
            ApiError::MalformedResponse(why) => two("malformed response body: ", why.as_str()),
            ApiError::NoUsableContent => {
                "no usable content: image-only clipboard but model lacks vision support".to_owned()
            },
            ApiError::Truncated => {
                "response truncated: generation hit the max_tokens limit".to_owned()
            },
            ApiError::Cancelled => "request cancelled".to_owned(),
            ApiError::Auth(why) => why.clone(),
        }
    }
}

impl HotkeyError {
    /// The text of the error.
    pub fn message(&self) -> (r: String)
        ensures
            r@ == hotkey_message(*self),
    {
        match self {
            HotkeyError::InitFailed(why) => {
                two("failed to initialize hotkey manager: ", why.as_str())
            },
            HotkeyError::RegisterFailed(why) => two("failed to register hotkey: ", why.as_str()),
        }
    }
}

fn listed(names: &Vec<String>) -> (r: String)
    ensures
        r@ == name_list(names@),
{
    let mut v: Vec<char> = Vec::new();
    let mut i: usize = 0;
    assert(names@.take(0) =~= Seq::<String>::empty());
    while i < names.len()
        invariant
            i <= names@.len(),
            v@ == name_list(names@.take(i as int)),
        decreases names.len() - i,
    {
        let ghost before = names@.take(i as int);
        let ghost next = names@.take(i + 1);
        assert(next.drop_last() =~= before);
        assert(next.last() == names@[i as int]);
        if i > 0 {
            push_text(&mut v, ", ");
        }
        push_text(&mut v, names[i].as_str());
        assert(v@ =~= name_list(next));
        i += 1;
    }
    assert(names@.take(i as int) =~= names@);
    string_of(&v)
}

impl ClipboardError {
    /// The text of the error.
    pub fn message(&self) -> (r: String)
        ensures
            r@ == clipboard_message(*self),
    {
        match self {
            ClipboardError::AccessFailed(why) => two("clipboard access failed: ", why.as_str()),
            ClipboardError::NoTextInClipboard => "no text in clipboard".to_owned(),
            ClipboardError::NoTextAfterCopy => {
                "no text in clipboard after copy simulation".to_owned()
            },
            ClipboardError::EmptyCopy => "copy delivered no usable content".to_owned(),
            ClipboardError::Cancelled => "capture cancelled".to_owned(),
            ClipboardError::WriteFailed(why) => two("clipboard write failed: ", why.as_str()),
            ClipboardError::ImageEncodeFailed(why) => two("image encoding failed: ", why.as_str()),
            ClipboardError::CopyFailed(inner) => {
                let m = inner.message();
                two("copy simulation failed: ", m.as_str())
            },
            ClipboardError::UnsupportedFiles(names) => {
                let m = listed(names);
                two("unsupported file type: ", m.as_str())
            },
            ClipboardError::FileReadFailed { name, reason } => {
                let mut v = chars_of("cannot read ");
                push_text(&mut v, name.as_str());
                push_text(&mut v, ": ");
                push_text(&mut v, reason.as_str());
                string_of(&v)
            },
            ClipboardError::FileTooLarge { name, limit_bytes } => {
                let mut v = chars_of(name.as_str());
                push_text(&mut v, " is larger than ");
                let digits = dec_of(*limit_bytes as u128);
                extend(&mut v, &digits);
                push_text(&mut v, " bytes");
                string_of(&v)
            },
            ClipboardError::ImageTooLarge { width, height } => {
                let mut v = chars_of("image too large: ");
                let w = dec_of(*width as u128);
                extend(&mut v, &w);
                push_text(&mut v, "x");
                let h = dec_of(*height as u128);
                extend(&mut v, &h);
                string_of(&v)
            },
        }
    }
}

} // verus!
