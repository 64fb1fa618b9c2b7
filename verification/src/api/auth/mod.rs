//! Where bearer tokens come from.

use crate::api::auth::grok::BearerStep;
use crate::api::auth::grok::GrokCliAuth;
use crate::text::chars_of;
use crate::text::push_text;
use crate::text::string_of;
use vstd::prelude::*;

pub mod grok;
pub mod oauth;

verus! {

/// Where the bearer token of a request comes from.
#[derive(Debug)]
pub enum TokenProvider {
    /// A fixed key; without one, requests go out without a token.
    Static(Option<String>),
    /// The session of the Grok command line tool.
    GrokCli(GrokCliAuth),
}

impl TokenProvider {
    /// What the source is, for the log. Never a token.
    pub fn describe(&self) -> (r: String)
        ensures
            r@ == match self {
                TokenProvider::Static(Some(_)) => "static api_key"@,
                TokenProvider::Static(None) => "none"@,
                TokenProvider::GrokCli(auth) => "grok-cli oauth ("@ + auth@.path + ")"@,
            },
    {
        match self {
            TokenProvider::Static(key) => match key {
                Some(_) => "static api_key".to_owned(),
                None => "none".to_owned(),
            },
            TokenProvider::GrokCli(auth) => {
                let mut v = chars_of("grok-cli oauth (");
                push_text(&mut v, auth.store_path());
                push_text(&mut v, ")");
                string_of(&v)
            },
        }
    }

    /// The token, where it is at hand; the inner `None` means that requests go
    /// out without one. Otherwise the store of the session is to be read.
    pub fn bearer(&self, now: u64) -> (r: Option<Option<String>>)
        ensures
            match (self, r) {
                (TokenProvider::Static(key), Some(t)) => crate::api::wire::text_view(t)
                    == crate::api::wire::text_view(*key),
                (TokenProvider::Static(_), None) => false,
                (TokenProvider::GrokCli(auth), Some(t)) => !oauth::due(
                    auth@.state.tokens.expires_at,
                    now,
                ) && crate::api::wire::text_view(t) == Some(auth@.state.tokens.access_token),
                (TokenProvider::GrokCli(auth), None) => oauth::due(
                    auth@.state.tokens.expires_at,
                    now,
                ),
            },
    {
        match self {
            TokenProvider::Static(key) => match key {
                Some(k) => Some(Some(k.clone())),
                None => Some(None),
            },
            TokenProvider::GrokCli(auth) => match auth.bearer(now) {
                BearerStep::Use(t) => Some(Some(t)),
                _ => None,
            },
        }
    }
}

} // verus!
