//! The `refresh_token` grant of OAuth 2, for any provider.

use crate::api::wire;
use crate::config;
use crate::error::ApiError;
use crate::json;
use crate::json::Json;
use crate::numbers;
use crate::numbers::dec_of;
use crate::text;
use crate::text::chars_of;
use crate::text::extend;
use crate::text::push_text;
use crate::text::string_of;
use vstd::prelude::*;

pub use crate::clock::parse_iso8601_utc;

verus! {

/// A token is refreshed so many milliseconds before it expires.
pub const REFRESH_SKEW: u64 = 120_000;

/// What the token endpoint answers. Where it names no refresh token, the old
/// one stays valid.
#[derive(Debug)]
pub struct RefreshedTokens {
    pub access_token: String,
    pub refresh_token: Option<String>,
    /// How many seconds the access token is good for.
    pub expires_in: Option<u64>,
}

/// What a [`RefreshedTokens`] says.
pub struct RefreshedView {
    pub access_token: Seq<char>,
    pub refresh_token: Option<Seq<char>>,
    pub expires_in: Option<u64>,
}

impl RefreshedTokens {
    pub open spec fn view(&self) -> RefreshedView {
        RefreshedView {
            access_token: self.access_token@,
            refresh_token: wire::text_view(self.refresh_token),
            expires_in: self.expires_in,
        }
    }
}

/// The moment `secs` seconds after `now`, or the last one there is.
pub open spec fn later(now: u64, secs: u64) -> u64 {
    let at = now + secs * 1000;
    if at <= u64::MAX {
        at as u64
    } else {
        u64::MAX
    }
}

/// Whether a token that expires then is due for a refresh at `now`. One that
/// does not expire never is.
pub open spec fn due(expires_at: Option<u64>, now: u64) -> bool {
    match expires_at {
        None => false,
        Some(t) => now + REFRESH_SKEW >= t,
    }
}

/// `SystemTime::elapsed`, since the start of 1970: the present moment, of which
/// nothing is known.
#[verifier::external_body]
pub(crate) fn now_ms() -> (r: u64)
{
    std::time::UNIX_EPOCH.elapsed().map(|d| d.as_millis() as u64).unwrap_or_default()
}

impl RefreshedTokens {
    /// When the access token expires, reckoned from `now`.
    pub fn expires_at_from(&self, now: u64) -> (r: Option<u64>)
        ensures
            r == match self.expires_in {
                Some(s) => Some(later(now, s)),
                None => None,
            },
    {
        match self.expires_in {
            Some(s) => {
                let at: u128 = now as u128 + s as u128 * 1000;
                if at <= u64::MAX as u128 {
                    Some(at as u64)
                } else {
                    Some(u64::MAX)
                }
            },
            None => None,
        }
    }

    /// When the access token expires, reckoned from now.
    pub fn expires_at(&self) -> (r: Option<u64>)
        ensures
            r is Some <==> self.expires_in is Some,
            r matches Some(t) ==> exists|now: u64| #[trigger] later(now, self.expires_in->0) == t,
    {
        let now = now_ms();
        self.expires_at_from(now)
    }
}

/// Whether a token that expires then is due for a refresh at `now`.
pub fn needs_refresh_at(expires_at: Option<u64>, now: u64) -> (r: bool)
    ensures
        r == due(expires_at, now),
{
    match expires_at {
        None => false,
        Some(t) => t <= REFRESH_SKEW || now >= t - REFRESH_SKEW,
    }
}

/// Whether a token that expires then is due for a refresh now.
pub fn needs_refresh(expires_at: Option<u64>) -> (r: bool)
    ensures
        exists|now: u64| r == #[trigger] due(expires_at, now),
        expires_at is None ==> !r,
        expires_at matches Some(t) ==> (t <= REFRESH_SKEW ==> r),
{
    let now = now_ms();
    needs_refresh_at(expires_at, now)
}

/// The fields of the form that asks for a refresh.
pub open spec fn form_view(client_id: Seq<char>, refresh_token: Seq<char>) -> Seq<
    (Seq<char>, Seq<char>),
> {
    seq![
        ("grant_type"@, "refresh_token"@),
        ("refresh_token"@, refresh_token),
        ("client_id"@, client_id),
    ]
}

/// The form that asks for a refresh. The client is a public one: its name is
/// enough.
pub fn refresh_form(client_id: &str, refresh_token: &str) -> (r: Vec<(String, String)>)
    ensures
        config::pairs_view(r@) == form_view(client_id@, refresh_token@),
{
    let mut r: Vec<(String, String)> = Vec::new();
    r.push(("grant_type".to_owned(), "refresh_token".to_owned()));
    r.push(("refresh_token".to_owned(), refresh_token.to_owned()));
    r.push(("client_id".to_owned(), client_id.to_owned()));
    assert(config::pairs_view(r@) =~= form_view(client_id@, refresh_token@));
    r
}

/// An optional whole number: the outer `None` rejects it.
pub open spec fn optional_number(j: Option<json::JsonView>) -> Option<Option<u64>> {
    match j {
        None => Some(None),
        Some(json::JsonView::Null) => Some(None),
        Some(json::JsonView::Number(n)) => match json::number_u64(n) {
            Some(v) => Some(Some(v)),
            None => None,
        },
        _ => None,
    }
}

/// The tokens of an answer.
pub open spec fn refreshed(j: json::JsonView) -> Option<RefreshedView> {
    let access = wire::field(j, "access_token"@, 0);
    let refresh = wire::optional_text(wire::field(j, "refresh_token"@, 1));
    let expires = optional_number(wire::field(j, "expires_in"@, 2));
    if wire::is_record(j, 3) && refresh is Some && expires is Some {
        match access {
            Some(json::JsonView::Str(a)) => Some(
                RefreshedView {
                    access_token: a,
                    refresh_token: refresh->0,
                    expires_in: expires->0,
                },
            ),
            _ => None,
        }
    } else {
        None
    }
}

fn optional_number_of(j: Option<&Json>) -> (r: Option<Option<u64>>)
    ensures
        r == optional_number(
            match j {
                Some(v) => Some(v@),
                None => None,
            },
        ),
{
    match j {
        None => Some(None),
        Some(v) => match v {
            Json::Null => Some(None),
            Json::Number(_) => match v.as_u64() {
                Some(n) => Some(Some(n)),
                None => None,
            },
            _ => None,
        },
    }
}

/// Reads the tokens of an answer; `None` where it holds none.
pub fn read_refreshed(j: &Json) -> (r: Option<RefreshedTokens>)
    ensures
        match r {
            Some(t) => refreshed(j@) == Some(t@),
            None => refreshed(j@) is None,
        },
{
    if !wire::is_record_of(j, 3) {
        return None;
    }
    let refresh = wire::optional_text_of(wire::field_of(j, "refresh_token", 1, 3));
    let expires = optional_number_of(wire::field_of(j, "expires_in", 2, 3));
    match (wire::field_of(j, "access_token", 0, 3), refresh, expires) {
        (Some(a), Some(refresh_token), Some(expires_in)) => match a.as_str() {
            Some(s) => Some(
                RefreshedTokens { access_token: s.clone(), refresh_token, expires_in },
            ),
            None => None,
        },
        _ => None,
    }
}

/// What is said of a refused refresh.
pub open spec fn refused_text(status: u16) -> Seq<char> {
    "OAuth token refresh was rejected (HTTP "@ + numbers::dec(status as nat) + ")"@
}

/// What is said of an answer that cannot be read.
pub open spec fn unreadable_text(why: Seq<char>) -> Seq<char> {
    "unreadable token refresh response: "@ + why
}

/// What comes of the answer to a refresh: the tokens where the server agreed
/// and sent some, and no reader of the caller's objects to them, or what is wrong
/// with it.
pub open spec fn outcome(status: u16, body: Seq<char>, objection: Option<Seq<char>>) -> Result<
    RefreshedView,
    Seq<char>,
> {
    if status < 200 || status > 299 {
        Err(refused_text(status))
    } else {
        match (objection, json::parsed(body)) {
            (Some(why), _) => Err(unreadable_text(why)),
            (None, Ok(j)) => match refreshed(j) {
                Some(t) => Ok(t),
                None => Err(unreadable_text("no tokens in it"@)),
            },
            (None, Err(why)) => Err(unreadable_text(why)),
        }
    }
}

/// What comes of the answer to a refresh: the tokens where the server agreed
/// and sent some, an [`ApiError::Auth`] that says why otherwise. `objection` is what
/// a reader that knows the types of the answer has against the body; it is handed
/// on in its own words.
pub fn refresh_outcome(status: u16, body: &str, objection: Option<&str>) -> (r: Result<
    RefreshedTokens,
    ApiError,
>)
    ensures
        match r {
            Ok(t) => outcome(status, body@, config::str_view(objection)) == Ok::<
                RefreshedView,
                Seq<char>,
            >(t@),
            Err(e) => e matches ApiError::Auth(why) && outcome(
                status,
                body@,
                config::str_view(objection),
            ) == Err::<RefreshedView, Seq<char>>(why@),
        },
{
    if status < 200 || status > 299 {
        let mut v = chars_of("OAuth token refresh was rejected (HTTP ");
        let digits = dec_of(status as u128);
        extend(&mut v, &digits);
        push_text(&mut v, ")");
        return Err(ApiError::Auth(string_of(&v)));
    }
    if let Some(why) = objection {
        return Err(ApiError::Auth(text::concat("unreadable token refresh response: ", why)));
    }
    match json::parse(body) {
        Ok(j) => match read_refreshed(&j) {
            Some(t) => Ok(t),
            None => Err(
                ApiError::Auth(
                    text::concat("unreadable token refresh response: ", "no tokens in it"),
                ),
            ),
        },
        Err(m) => Err(
            ApiError::Auth(text::concat("unreadable token refresh response: ", m.as_str())),
        ),
    }
}

} // verus!
