//! The credentials that the Grok command line tool keeps.
//!
//! Its sign-in is shared: the stored tokens are used, refreshed when they run
//! out, and written back into the entry they came from. Of that entry only the
//! token fields change.
//!
//! A store is an object. In its present form each entry is keyed
//! `<issuer>::<client id>` and holds `key`, `refresh_token` and `expires_at`.
//! Older forms key it otherwise, or hold the token fields at the top level.

use crate::api::auth::oauth;
use crate::api::auth::oauth::needs_refresh_at;
use crate::api::auth::oauth::RefreshedTokens;
use crate::api::wire;
use crate::clock;
use crate::clock::format_utc;
use crate::clock::parse_iso8601_utc;
use crate::config;
use crate::error::ApiError;
use crate::json;
use crate::json::find_member;
use crate::json::set_member;
use crate::json::Json;
use crate::text;
use crate::text::chars_of;
use crate::text::comes_before;
use crate::text::concat;
use crate::text::find_at;
use crate::text::piece;
use crate::text::push_text;
use crate::text::string_of;
use crate::text::trim_end_at;
use crate::text::CharClass;
use vstd::prelude::*;

verus! {

/// The issuer of an entry that names none.
pub const DEFAULT_ISSUER: &'static str = "https://auth.x.ai";

/// What the user can do when signing in has failed.
pub const SIGN_IN_HINT: &'static str = "Run `grok` in a terminal and sign in again.";

/// Seconds that a refresh may take.
pub const REFRESH_TIMEOUT_SECS: u64 = 15;

/// The tokens of an entry.
#[derive(Debug, PartialEq)]
pub struct TokenState {
    pub access_token: String,
    pub refresh_token: Option<String>,
    /// When the access token expires; `None` where it does not.
    pub expires_at: Option<u64>,
}

/// What a [`TokenState`] says.
#[verifier::ext_equal]
pub struct TokenView {
    pub access_token: Seq<char>,
    pub refresh_token: Option<Seq<char>>,
    pub expires_at: Option<u64>,
}

impl TokenState {
    pub open spec fn view(&self) -> TokenView {
        TokenView {
            access_token: self.access_token@,
            refresh_token: wire::text_view(self.refresh_token),
            expires_at: self.expires_at,
        }
    }
}

/// Where in a store the tokens stand.
#[derive(Debug, PartialEq)]
pub enum EntryLocation {
    /// In the entry with this key.
    Keyed(String),
    /// At the top level.
    TopLevel,
}

/// What an [`EntryLocation`] says.
pub enum LocationView {
    Keyed(Seq<char>),
    TopLevel,
}

impl EntryLocation {
    pub open spec fn view(&self) -> LocationView {
        match self {
            EntryLocation::Keyed(k) => LocationView::Keyed(k@),
            EntryLocation::TopLevel => LocationView::TopLevel,
        }
    }
}

/// Tokens, where they stand, and how to refresh them.
#[derive(Debug, PartialEq)]
pub struct ParsedStore {
    pub tokens: TokenState,
    pub location: EntryLocation,
    pub token_url: String,
    pub client_id: String,
}

/// What a [`ParsedStore`] says.
#[verifier::ext_equal]
pub struct StoreView {
    pub tokens: TokenView,
    pub location: LocationView,
    pub token_url: Seq<char>,
    pub client_id: Seq<char>,
}

impl ParsedStore {
    pub open spec fn view(&self) -> StoreView {
        StoreView {
            tokens: self.tokens@,
            location: self.location@,
            token_url: self.token_url@,
            client_id: self.client_id@,
        }
    }
}

// ---------------------------------------------------------------------------
// Reading a store
// ---------------------------------------------------------------------------

/// The member `name`, where it is a string.
pub open spec fn text_member(j: json::JsonView, name: Seq<char>) -> Option<Seq<char>> {
    match json::member(j, name) {
        Some(json::JsonView::Str(s)) => Some(s),
        _ => None,
    }
}

/// The first of two that is there.
pub open spec fn either(a: Option<Seq<char>>, b: Option<Seq<char>>) -> Option<Seq<char>> {
    if a is Some {
        a
    } else {
        b
    }
}

/// The access token of an entry: it goes by any of three names.
pub open spec fn access_token(j: json::JsonView) -> Option<Seq<char>> {
    either(
        text_member(j, "key"@),
        either(text_member(j, "access_token"@), text_member(j, "token"@)),
    )
}

/// The refresh token of an entry.
pub open spec fn refresh_token(j: json::JsonView) -> Option<Seq<char>> {
    either(text_member(j, "refresh_token"@), text_member(j, "refresh"@))
}

/// From this number on, a number of seconds since 1970 must be one of
/// milliseconds.
pub const MILLIS_FROM: u64 = 100_000_000_000;

/// The moment that an expiry stands for: a text, or a number of seconds or
/// milliseconds.
pub open spec fn expiry(j: json::JsonView) -> Option<u64> {
    match j {
        json::JsonView::Str(s) => match clock::parsed_utc(s) {
            Some(ms) => Some(ms as u64),
            None => None,
        },
        json::JsonView::Number(n) => match json::number_u64(n) {
            Some(v) => if v >= MILLIS_FROM {
                Some(v)
            } else {
                Some((v * 1000) as u64)
            },
            None => None,
        },
        _ => None,
    }
}

/// When an entry's token expires. One that says so in a way that cannot be
/// read counts as expired long ago.
pub open spec fn expires(j: json::JsonView) -> Option<u64> {
    match json::member(j, "expires_at"@) {
        None => None,
        Some(v) => match expiry(v) {
            Some(t) => Some(t),
            None => Some(0),
        },
    }
}

/// The tokens of an entry; `None` where it holds no access token.
pub open spec fn entry_tokens(j: json::JsonView) -> Option<TokenView> {
    match access_token(j) {
        Some(a) => Some(
            TokenView {
                access_token: a,
                refresh_token: refresh_token(j),
                expires_at: expires(j),
            },
        ),
        None => None,
    }
}

/// Whether the key has the form `<issuer>::<client id>`.
pub open spec fn has_separator(k: Seq<char>) -> bool {
    text::find_from(k, "::"@, 0) is Some
}

/// Whether the entry `k` holds tokens and its key has, or lacks, the form
/// `<issuer>::<client id>`.
pub open spec fn candidate(m: Map<Seq<char>, json::JsonView>, oidc: bool, k: Seq<char>) -> bool {
    m.dom().contains(k) && has_separator(k) == oidc && entry_tokens(m[k]) is Some
}

/// Whether `k` is the first of the candidates in the order of their keys.
pub open spec fn is_first(m: Map<Seq<char>, json::JsonView>, oidc: bool, k: Seq<char>) -> bool {
    candidate(m, oidc, k) && forall|other: Seq<char>| #[trigger]
        candidate(m, oidc, other) ==> other == k || text::before(k, other)
}

/// The first of the candidates.
pub open spec fn picked(m: Map<Seq<char>, json::JsonView>, oidc: bool) -> Option<Seq<char>> {
    if exists|k: Seq<char>| is_first(m, oidc, k) {
        Some(choose|k: Seq<char>| is_first(m, oidc, k))
    } else {
        None
    }
}

/// Where tokens are refreshed.
pub open spec fn token_url_of(issuer: Seq<char>) -> Seq<char> {
    text::trim_end(issuer, CharClass::Only('/')) + "/oauth2/token"@
}

/// The issuer that an entry names, or the usual one.
pub open spec fn issuer_of(j: json::JsonView) -> Seq<char> {
    match text_member(j, "oidc_issuer"@) {
        Some(s) => s,
        None => DEFAULT_ISSUER@,
    }
}

/// The client id that a key ends with.
pub open spec fn id_in_key(k: Seq<char>) -> Option<Seq<char>> {
    match text::find_from(k, "::"@, 0) {
        Some(i) => Some(k.skip(i + 2)),
        None => None,
    }
}

/// The store of an entry, given its tokens.
pub open spec fn keyed_store(m: Map<Seq<char>, json::JsonView>, k: Seq<char>) -> Result<
    StoreView,
    Seq<char>,
> {
    match either(text_member(m[k], "oidc_client_id"@), id_in_key(k)) {
        Some(id) => Ok(
            StoreView {
                tokens: entry_tokens(m[k])->0,
                location: LocationView::Keyed(k),
                token_url: token_url_of(issuer_of(m[k])),
                client_id: id,
            },
        ),
        None => Err("Grok credential entry has no OAuth client id"@),
    }
}

/// The store of tokens at the top level.
pub open spec fn top_store(j: json::JsonView) -> Result<StoreView, Seq<char>> {
    match entry_tokens(j) {
        Some(tokens) => match either(
            text_member(j, "oidc_client_id"@),
            text_member(j, "client_id"@),
        ) {
            Some(id) => Ok(
                StoreView {
                    tokens,
                    location: LocationView::TopLevel,
                    token_url: token_url_of(issuer_of(j)),
                    client_id: id,
                },
            ),
            None => Err("Grok credential store has no OAuth client id"@),
        },
        None => Err("no Grok credentials found in the store. "@ + SIGN_IN_HINT@),
    }
}

/// What a store holds: entries whose key has the form `<issuer>::<client id>`
/// go first, then other entries, then the top level.
pub open spec fn stored(j: json::JsonView) -> Result<StoreView, Seq<char>> {
    match j {
        json::JsonView::Object(m) => match either(picked(m, true), picked(m, false)) {
            Some(k) => keyed_store(m, k),
            None => top_store(j),
        },
        _ => Err("Grok credential store is not a JSON object"@),
    }
}

/// What is first is unique.
proof fn lemma_picked(m: Map<Seq<char>, json::JsonView>, oidc: bool, k: Seq<char>)
    requires
        is_first(m, oidc, k),
    ensures
        picked(m, oidc) == Some(k),
{
    let other = choose|x: Seq<char>| is_first(m, oidc, x);
    assert(is_first(m, oidc, other));
    assert(candidate(m, oidc, other));
    text::lemma_before_total(k, other);
}

fn text_of(j: &Json, name: &str) -> (r: Option<String>)
    ensures
        wire::text_view(r) == text_member(j@, name@),
{
    match j.get(name) {
        Some(v) => match v.as_str() {
            Some(s) => Some(s.clone()),
            None => None,
        },
        None => None,
    }
}

fn or_text(a: Option<String>, b: Option<String>) -> (r: Option<String>)
    ensures
        wire::text_view(r) == either(wire::text_view(a), wire::text_view(b)),
{
    if a.is_some() {
        a
    } else {
        b
    }
}

/// The moment that an expiry stands for.
pub fn parse_expires_at(v: &Json) -> (r: Option<u64>)
    ensures
        r == expiry(v@),
{
    match v {
        Json::Str(s) => parse_iso8601_utc(s.as_str()),
        Json::Number(n) => match n.as_u64() {
            Some(n) => if n >= MILLIS_FROM {
                Some(n)
            } else {
                Some(n * 1000)
            },
            None => None,
        },
        _ => None,
    }
}

/// The tokens of an entry; `None` where it holds no access token.
pub fn parse_entry(obj: &Json) -> (r: Option<TokenState>)
    ensures
        match r {
            Some(t) => entry_tokens(obj@) == Some(t@),
            None => entry_tokens(obj@) is None,
        },
{
    let access = or_text(
        text_of(obj, "key"),
        or_text(text_of(obj, "access_token"), text_of(obj, "token")),
    );
    match access {
        Some(access_token) => {
            let refresh_token = or_text(text_of(obj, "refresh_token"), text_of(obj, "refresh"));
            let expires_at = match obj.get("expires_at") {
                None => None,
                Some(v) => match parse_expires_at(v) {
                    Some(t) => Some(t),
                    None => Some(0),
                },
            };
            Some(TokenState { access_token, refresh_token, expires_at })
        },
        None => None,
    }
}

/// The index of the entry that is picked.
fn pick(members: &Vec<(String, Json)>, oidc: bool) -> (r: Option<usize>)
    ensures
        match r {
            Some(i) => i < members@.len() && is_first(
                json::members_view(members@),
                oidc,
                members@[i as int].0@,
            ) && json::members_view(members@)[members@[i as int].0@] == members@[i as int].1@,
            None => forall|k: Seq<char>| !candidate(json::members_view(members@), oidc, k),
        },
{
    let ghost m = json::members_view(members@);
    let separator = chars_of("::");
    let mut best: Option<usize> = None;
    let mut i: usize = 0;
    while i < members.len()
        invariant
            i <= members@.len(),
            separator@ == "::"@,
            m == json::members_view(members@),
            match best {
                Some(b) => b < members@.len() && candidate(m, oidc, members@[b as int].0@)
                    && m[members@[b as int].0@] == members@[b as int].1@ && forall|j: int|
                    0 <= j < i && candidate(m, oidc, #[trigger] members@[j].0@)
                        ==> members@[j].0@ == members@[b as int].0@ || text::before(
                        members@[b as int].0@,
                        members@[j].0@,
                    ),
                None => forall|j: int|
                    0 <= j < i ==> !candidate(m, oidc, #[trigger] members@[j].0@),
            },
        decreases members.len() - i,
    {
        let key = chars_of(members[i].0.as_str());
        let ghost k = members@[i as int].0@;
        proof {
            json::lemma_members_dom(members@, k);
            assert(members@[i as int].0@ == k);
        }
        let found = find_member(members, members[i].0.as_str());
        if let Some(at) = found {
            let fits = find_at(&key, &separator, 0).is_some() == oidc && parse_entry(
                &members[at].1,
            ).is_some();
            assert(fits == candidate(m, oidc, k));
            if fits {
                match best {
                    Some(b) => {
                        let held = chars_of(members[b].0.as_str());
                        proof {
                            text::lemma_before_total(held@, key@);
                        }
                        if comes_before(&key, &held) {
                            proof {
                                assert forall|j: int|
                                    0 <= j < i && candidate(
                                        m,
                                        oidc,
                                        #[trigger] members@[j].0@,
                                    ) implies members@[j].0@ == k || text::before(
                                    k,
                                    members@[j].0@,
                                ) by {
                                    if members@[j].0@ != held@ {
                                        text::lemma_before_transitive(k, held@, members@[j].0@);
                                    }
                                }
                            }
                            best = Some(at);
                        }
                    },
                    None => {
                        best = Some(at);
                    },
                }
            }
        }
        i += 1;
    }
    proof {
        assert forall|k: Seq<char>| #[trigger] candidate(m, oidc, k) implies best is Some && (k
            == members@[best->0 as int].0@ || text::before(members@[best->0 as int].0@, k)) by {
            json::lemma_members_dom(members@, k);
            let j = choose|j: int| 0 <= j < members@.len() && #[trigger] members@[j].0@ == k;
            assert(candidate(m, oidc, members@[j].0@));
        }
    }
    best
}

/// Where tokens are refreshed.
pub fn token_url(issuer: &str) -> (r: String)
    ensures
        r@ == token_url_of(issuer@),
{
    let v = chars_of(issuer);
    let end = trim_end_at(&v, 0, CharClass::Only('/'));
    assert(v@.skip(0) =~= v@);
    let mut w = piece(&v, 0, end);
    push_text(&mut w, "/oauth2/token");
    string_of(&w)
}

fn url_of_entry(j: &Json) -> (r: String)
    ensures
        r@ == token_url_of(issuer_of(j@)),
{
    match text_of(j, "oidc_issuer") {
        Some(s) => token_url(s.as_str()),
        None => token_url(DEFAULT_ISSUER),
    }
}

fn id_of_key(key: &str) -> (r: Option<String>)
    ensures
        wire::text_view(r) == id_in_key(key@),
{
    let k = chars_of(key);
    let separator = chars_of("::");
    proof {
        reveal_strlit("::");
    }
    match find_at(&k, &separator, 0) {
        Some(i) => {
            let total: usize = k.len();
            let id = piece(&k, i + 2, total);
            assert(id@ =~= k@.skip(i + 2));
            Some(string_of(&id))
        },
        None => None,
    }
}

fn refused(text: &str) -> (r: Result<ParsedStore, ApiError>)
    ensures
        r matches Err(ApiError::Auth(why)) && why@ == text@,
{
    Err(ApiError::Auth(text.to_owned()))
}

/// Finds the tokens in a store.
pub fn parse_store(doc: &Json) -> (r: Result<ParsedStore, ApiError>)
    ensures
        match r {
            Ok(s) => stored(doc@) == Ok::<StoreView, Seq<char>>(s@),
            Err(e) => e matches ApiError::Auth(why) && stored(doc@) == Err::<StoreView, Seq<char>>(
                why@,
            ),
        },
{
    let members = match doc {
        Json::Object(members) => members,
        _ => {
            return refused("Grok credential store is not a JSON object");
        },
    };
    let ghost m = json::members_view(members@);
    let chosen = match pick(members, true) {
        Some(i) => {
            proof {
                lemma_picked(m, true, members@[i as int].0@);
            }
            Some(i)
        },
        None => {
            assert(forall|k: Seq<char>| !is_first(m, true, k));
            match pick(members, false) {
                Some(i) => {
                    proof {
                        lemma_picked(m, false, members@[i as int].0@);
                    }
                    Some(i)
                },
                None => {
                    assert(forall|k: Seq<char>| !is_first(m, false, k));
                    None
                },
            }
        },
    };
    match chosen {
        Some(i) => {
            let entry = &members[i].1;
            let id = or_text(text_of(entry, "oidc_client_id"), id_of_key(members[i].0.as_str()));
            let client_id = match id {
                Some(id) => id,
                None => {
                    return refused("Grok credential entry has no OAuth client id");
                },
            };
            let tokens = match parse_entry(entry) {
                Some(t) => t,
                None => {
                    return refused("Grok credential entry has no OAuth client id");
                },
            };
            Ok(
                ParsedStore {
                    tokens,
                    location: EntryLocation::Keyed(members[i].0.clone()),
                    token_url: url_of_entry(entry),
                    client_id,
                },
            )
        },
        None => match parse_entry(doc) {
            Some(tokens) => {
                let id = or_text(text_of(doc, "oidc_client_id"), text_of(doc, "client_id"));
                let client_id = match id {
                    Some(id) => id,
                    None => {
                        return refused("Grok credential store has no OAuth client id");
                    },
                };
                Ok(
                    ParsedStore {
                        tokens,
                        location: EntryLocation::TopLevel,
                        token_url: url_of_entry(doc),
                        client_id,
                    },
                )
            },
            None => {
                let text = concat("no Grok credentials found in the store. ", SIGN_IN_HINT);
                refused(text.as_str())
            },
        },
    }
}

/// Finds the tokens in the text of the store at `path`.
pub fn load_store(path: &str, raw: &str) -> (r: Result<ParsedStore, ApiError>)
    ensures
        match (json::parsed(raw@), r) {
            (Ok(j), Ok(s)) => stored(j) == Ok::<StoreView, Seq<char>>(s@),
            (Ok(j), Err(e)) => e matches ApiError::Auth(why) && stored(j) == Err::<
                StoreView,
                Seq<char>,
            >(why@),
            (Err(m), Err(e)) => e matches ApiError::Auth(why) && why@
                == "Grok credential store at "@ + path@ + " is not valid JSON: "@ + m,
            (Err(_), Ok(_)) => false,
        },
{
    match json::parse(raw) {
        Ok(doc) => parse_store(&doc),
        Err(m) => {
            let mut v = chars_of("Grok credential store at ");
            push_text(&mut v, path);
            push_text(&mut v, " is not valid JSON: ");
            push_text(&mut v, m.as_str());
            Err(ApiError::Auth(string_of(&v)))
        },
    }
}

/// What is said where the store at `path` cannot be read.
pub fn unreadable_store(path: &str, why: &str) -> (r: ApiError)
    ensures
        r matches ApiError::Auth(text) && text@ == "cannot read Grok credentials at "@ + path@
            + ": "@ + why@ + ". "@ + SIGN_IN_HINT@,
{
    let mut v = chars_of("cannot read Grok credentials at ");
    push_text(&mut v, path);
    push_text(&mut v, ": ");
    push_text(&mut v, why);
    push_text(&mut v, ". ");
    push_text(&mut v, SIGN_IN_HINT);
    ApiError::Auth(string_of(&v))
}

// ---------------------------------------------------------------------------
// Writing tokens back
// ---------------------------------------------------------------------------

/// `m` with the member `name` set where it is already there.
pub open spec fn replaced(
    m: Map<Seq<char>, json::JsonView>,
    name: Seq<char>,
    v: json::JsonView,
) -> Map<Seq<char>, json::JsonView> {
    if m.dom().contains(name) {
        m.insert(name, v)
    } else {
        m
    }
}

/// An entry with another access token, under every name that the entry has for
/// it; under the present name where it has none.
pub open spec fn with_access(m: Map<Seq<char>, json::JsonView>, token: Seq<char>) -> Map<
    Seq<char>,
    json::JsonView,
> {
    let v = json::JsonView::Str(token);
    if m.dom().contains("key"@) || m.dom().contains("access_token"@) || m.dom().contains(
        "token"@,
    ) {
        replaced(replaced(replaced(m, "key"@, v), "access_token"@, v), "token"@, v)
    } else {
        m.insert("key"@, v)
    }
}

/// The name under which an entry keeps its refresh token.
pub open spec fn refresh_name(m: Map<Seq<char>, json::JsonView>) -> Seq<char> {
    if m.dom().contains("refresh"@) && !m.dom().contains("refresh_token"@) {
        "refresh"@
    } else {
        "refresh_token"@
    }
}

/// An entry with another refresh token, where there is one.
pub open spec fn with_refresh(
    m: Map<Seq<char>, json::JsonView>,
    token: Option<Seq<char>>,
) -> Map<Seq<char>, json::JsonView> {
    match token {
        Some(t) => m.insert(refresh_name(m), json::JsonView::Str(t)),
        None => m,
    }
}

/// An expiry, as a number where the entry had one and as text otherwise.
pub open spec fn written_expiry(m: Map<Seq<char>, json::JsonView>, ms: u64) -> json::JsonView {
    if m.dom().contains("expires_at"@) && m["expires_at"@] is Number {
        json::JsonView::Number(json::number_of(ms))
    } else {
        json::JsonView::Str(clock::formatted(ms as int))
    }
}

/// An entry with another expiry, where there is one.
pub open spec fn with_expiry(m: Map<Seq<char>, json::JsonView>, ms: Option<u64>) -> Map<
    Seq<char>,
    json::JsonView,
> {
    match ms {
        Some(t) => m.insert("expires_at"@, written_expiry(m, t)),
        None => m,
    }
}

/// An entry with other tokens.
pub open spec fn with_tokens(m: Map<Seq<char>, json::JsonView>, t: TokenView) -> Map<
    Seq<char>,
    json::JsonView,
> {
    with_expiry(with_refresh(with_access(m, t.access_token), t.refresh_token), t.expires_at)
}

/// A store with other tokens at `location`; `None` where there is no entry.
pub open spec fn store_with(j: json::JsonView, location: LocationView, t: TokenView) -> Option<
    json::JsonView,
> {
    match (j, location) {
        (json::JsonView::Object(m), LocationView::TopLevel) => Some(
            json::JsonView::Object(with_tokens(m, t)),
        ),
        (json::JsonView::Object(m), LocationView::Keyed(k)) => if m.dom().contains(k) {
            match m[k] {
                json::JsonView::Object(e) => Some(
                    json::JsonView::Object(m.insert(k, json::JsonView::Object(with_tokens(e, t)))),
                ),
                _ => None,
            }
        } else {
            None
        },
        _ => None,
    }
}

fn has_member(members: &Vec<(String, Json)>, name: &str) -> (r: bool)
    ensures
        r == json::members_view(members@).dom().contains(name@),
{
    find_member(members, name).is_some()
}

fn replace(members: &mut Vec<(String, Json)>, name: &str, value: &str)
    ensures
        json::members_view(final(members)@) == replaced(
            json::members_view(old(members)@),
            name@,
            json::JsonView::Str(value@),
        ),
{
    if has_member(members, name) {
        set_member(members, name, Json::str(value));
    }
}

/// Sets the tokens of an entry.
fn set_tokens(members: &mut Vec<(String, Json)>, tokens: &TokenState)
    ensures
        json::members_view(final(members)@) == with_tokens(
            json::members_view(old(members)@),
            tokens@,
        ),
{
    let token = tokens.access_token.as_str();
    proof {
        reveal_strlit("key");
        reveal_strlit("access_token");
        reveal_strlit("token");
    }
    if has_member(members, "key") || has_member(members, "access_token") || has_member(members, "token") {
        replace(members, "key", token);
        replace(members, "access_token", token);
        replace(members, "token", token);
    } else {
        set_member(members, "key", Json::str(token));
    }
    if let Some(refresh) = &tokens.refresh_token {
        if has_member(members, "refresh") && !has_member(members, "refresh_token") {
            set_member(members, "refresh", Json::str(refresh.as_str()));
        } else {
            set_member(members, "refresh_token", Json::str(refresh.as_str()));
        }
    }
    if let Some(ms) = tokens.expires_at {
        let as_number = match find_member(members, "expires_at") {
            Some(i) => matches!(members[i].1, Json::Number(_)),
            None => false,
        };
        let value = if as_number {
            Json::number(ms)
        } else {
            Json::Str(format_utc(ms))
        };
        set_member(members, "expires_at", value);
    }
}

/// Writes tokens into the entry at `location`, and nothing else. `false`, with
/// the store as it was, where there is no such entry.
pub fn update_store_doc(doc: &mut Json, location: &EntryLocation, tokens: &TokenState) -> (r: bool)
    ensures
        match store_with(old(doc)@, location@, tokens@) {
            Some(j) => r && final(doc)@ == j,
            None => !r && final(doc)@ == old(doc)@,
        },
{
    match doc {
        Json::Object(members) => match location {
            EntryLocation::TopLevel => {
                set_tokens(members, tokens);
                true
            },
            EntryLocation::Keyed(key) => match find_member(members, key.as_str()) {
                Some(i) => {
                    let ghost before = members@;
                    let mut pair = (key.clone(), Json::Null);
                    std::mem::swap(&mut members[i], &mut pair);
                    let (name, mut entry) = pair;
                    assert((name, entry) == before[i as int]);
                    let done = match &mut entry {
                        Json::Object(fields) => {
                            set_tokens(fields, tokens);
                            true
                        },
                        _ => false,
                    };
                    proof {
                        json::lemma_members_update(before, i as int, entry);
                    }
                    members.set(i, (name, entry));
                    assert(members@ =~= before.update(i as int, (name, entry)));
                    proof {
                        if !done {
                            assert(members@ =~= before);
                        }
                    }
                    done
                },
                None => false,
            },
        },
        _ => false,
    }
}

/// The text of a store with other tokens in it, or why there is none.
pub open spec fn rewritten(raw: Seq<char>, location: LocationView, t: TokenView) -> Result<
    Seq<char>,
    Seq<char>,
> {
    match json::parsed(raw) {
        Ok(j) => match store_with(j, location, t) {
            Some(after) => Ok(json::pretty(after)),
            None => Err("credential entry disappeared from the store"@),
        },
        Err(why) => Err(why),
    }
}

/// The text of the store `raw` with other tokens in it, for the file to be
/// replaced with.
pub fn persist_tokens(raw: &str, location: &EntryLocation, tokens: &TokenState) -> (r: Result<
    String,
    String,
>)
    ensures
        rewritten(raw@, location@, tokens@) == match r {
            Ok(t) => Ok::<Seq<char>, Seq<char>>(t@),
            Err(why) => Err::<Seq<char>, Seq<char>>(why@),
        },
{
    match json::parse(raw) {
        Ok(doc) => {
            let mut doc = doc;
            if update_store_doc(&mut doc, location, tokens) {
                Ok(doc.to_pretty())
            } else {
                Err("credential entry disappeared from the store".to_owned())
            }
        },
        Err(why) => Err(why),
    }
}

// ---------------------------------------------------------------------------
// Keeping a valid token
// ---------------------------------------------------------------------------

/// The session of the Grok command line tool, as its store had it last.
///
/// To get a token: [`Self::bearer`] hands out the one at hand while it is good.
/// Otherwise the store is read again and offered to [`Self::reread`], as the
/// tool may have refreshed the token meanwhile. Failing that, a refresh is asked
/// for, and [`Self::refreshed`] takes what came back.
#[derive(Debug)]
pub struct GrokCliAuth {
    path: String,
    state: ParsedStore,
}

/// What a [`GrokCliAuth`] holds.
pub struct SessionView {
    pub path: Seq<char>,
    pub state: StoreView,
}

impl View for GrokCliAuth {
    type V = SessionView;

    closed spec fn view(&self) -> SessionView {
        SessionView { path: self.path@, state: self.state@ }
    }
}

/// What a refresh asks for.
#[derive(Debug)]
pub struct RefreshRequest {
    pub token_url: String,
    pub client_id: String,
    pub refresh_token: String,
}

/// What is to be done to get a token.
#[derive(Debug)]
pub enum BearerStep {
    /// Nothing: here it is.
    Use(String),
    /// Read the store, and go on with [`GrokCliAuth::reread`].
    ReadStore,
    /// Ask for a refresh, and go on with [`GrokCliAuth::refreshed`].
    Refresh(RefreshRequest),
    /// Here it is. Read the store, write what [`GrokCliAuth::write_back`] makes
    /// of it, and care not whether that works: it only saves a refresh.
    WriteBack(String),
    /// There is none.
    Failed(ApiError),
}

/// What a [`BearerStep`] says.
pub enum BearerView {
    Use(Seq<char>),
    ReadStore,
    /// The server's address, the client's name, and the refresh token.
    Refresh(Seq<char>, Seq<char>, Seq<char>),
    WriteBack(Seq<char>),
    /// The text of an error about signing in.
    Refused(Seq<char>),
    /// Another error.
    Failed(ApiError),
}

impl BearerStep {
    /// What it says.
    pub open spec fn view(&self) -> BearerView {
        match self {
            BearerStep::Use(t) => BearerView::Use(t@),
            BearerStep::ReadStore => BearerView::ReadStore,
            BearerStep::Refresh(q) => BearerView::Refresh(
                q.token_url@,
                q.client_id@,
                q.refresh_token@,
            ),
            BearerStep::WriteBack(t) => BearerView::WriteBack(t@),
            BearerStep::Failed(e) => match e {
                ApiError::Auth(why) => BearerView::Refused(why@),
                _ => BearerView::Failed(*e),
            },
        }
    }
}

/// What is done where the token at hand is not good any more and the store, if
/// it can be read, is `fresh`.
pub open spec fn after_reading(
    held: StoreView,
    fresh: Option<StoreView>,
    now: u64,
) -> (StoreView, BearerView) {
    if fresh is Some && better(held, fresh->0, now) {
        (fresh->0, BearerView::Use(fresh->0.tokens.access_token))
    } else {
        (
            held,
            match held.tokens.refresh_token {
                Some(t) => BearerView::Refresh(held.token_url, held.client_id, t),
                None => BearerView::Refused(
                    "the stored Grok token expired and there is no refresh token. "@
                        + SIGN_IN_HINT@,
                ),
            },
        )
    }
}

/// The store in a text, where there is one.
pub open spec fn read_store(raw: Option<Seq<char>>) -> Option<StoreView> {
    match raw {
        Some(t) => match json::parsed(t) {
            Ok(j) => match stored(j) {
                Ok(s) => Some(s),
                Err(_) => None,
            },
            Err(_) => None,
        },
        None => None,
    }
}

/// Whether a store that was read again has a better token than the one at hand:
/// another one, and good for a while.
pub open spec fn better(held: StoreView, fresh: StoreView, now: u64) -> bool {
    fresh.tokens.access_token != held.tokens.access_token && !oauth::due(
        fresh.tokens.expires_at,
        now,
    )
}

/// The tokens at hand once a refresh has come through. Where no refresh token
/// came back, the old one stays.
pub open spec fn renewed(held: TokenView, new: oauth::RefreshedView, now: u64) -> TokenView {
    TokenView {
        access_token: new.access_token,
        refresh_token: either(new.refresh_token, held.refresh_token),
        expires_at: match new.expires_in {
            Some(s) => Some(oauth::later(now, s)),
            None => None,
        },
    }
}

impl GrokCliAuth {
    /// Takes the session from the text of the store at `path`.
    pub fn load(path: String, raw: &str) -> (r: Result<Self, ApiError>)
        ensures
            match (json::parsed(raw@), r) {
                (Ok(j), Ok(s)) => stored(j) == Ok::<StoreView, Seq<char>>(s@.state) && s@.path
                    == path@,
                (Ok(j), Err(e)) => e matches ApiError::Auth(why) && stored(j) == Err::<
                    StoreView,
                    Seq<char>,
                >(why@),
                (Err(m), Err(e)) => e matches ApiError::Auth(why) && why@
                    == "Grok credential store at "@ + path@ + " is not valid JSON: "@ + m,
                (Err(_), Ok(_)) => false,
            },
    {
        match load_store(path.as_str(), raw) {
            Ok(state) => Ok(GrokCliAuth { path, state }),
            Err(e) => Err(e),
        }
    }

    /// Where the store is.
    pub fn store_path(&self) -> (r: &str)
        ensures
            r@ == self@.path,
    {
        self.path.as_str()
    }

    /// The tokens at hand and where they stand.
    pub fn state(&self) -> (r: &ParsedStore)
        ensures
            r@ == self@.state,
    {
        &self.state
    }

    /// The token at hand, while it is good; otherwise the store is to be read
    /// again.
    pub fn bearer(&self, now: u64) -> (r: BearerStep)
        ensures
            r@ == if oauth::due(self@.state.tokens.expires_at, now) {
                BearerView::ReadStore
            } else {
                BearerView::Use(self@.state.tokens.access_token)
            },
    {
        if needs_refresh_at(self.state.tokens.expires_at, now) {
            BearerStep::ReadStore
        } else {
            BearerStep::Use(self.state.tokens.access_token.clone())
        }
    }

    /// Goes on with the text of the store, where it could be read. Its token is
    /// taken, and handed out, where it is a better one; otherwise a refresh is
    /// asked for.
    pub fn reread(&mut self, raw: Option<&str>, now: u64) -> (r: BearerStep)
        ensures
            final(self)@.path == old(self)@.path,
            (final(self)@.state, r@) == after_reading(
                old(self)@.state,
                read_store(config::str_view(raw)),
                now,
            ),
    {
        if let Some(t) = raw {
            if let Ok(fresh) = load_store(self.path.as_str(), t) {
                let differs = !text::str_same(
                    fresh.tokens.access_token.as_str(),
                    self.state.tokens.access_token.as_str(),
                );
                if differs && !needs_refresh_at(fresh.tokens.expires_at, now) {
                    let token = fresh.tokens.access_token.clone();
                    self.state = fresh;
                    return BearerStep::Use(token);
                }
            }
        }
        match &self.state.tokens.refresh_token {
            Some(t) => BearerStep::Refresh(
                RefreshRequest {
                    token_url: self.state.token_url.clone(),
                    client_id: self.state.client_id.clone(),
                    refresh_token: t.clone(),
                },
            ),
            None => BearerStep::Failed(
                ApiError::Auth(
                    concat(
                        "the stored Grok token expired and there is no refresh token. ",
                        SIGN_IN_HINT,
                    ),
                ),
            ),
        }
    }

    /// Goes on with what a refresh brought: the new token is handed out, and is
    /// to be written back.
    pub fn refreshed(&mut self, outcome: Result<RefreshedTokens, ApiError>, now: u64) -> (r:
        BearerStep)
        ensures
            final(self)@.path == old(self)@.path,
            match outcome {
                Ok(new) => r@ == BearerView::WriteBack(new@.access_token) && final(self)@.state == (
                StoreView {
                    tokens: renewed(old(self)@.state.tokens, new@, now),
                    ..old(self)@.state
                }),
                Err(e) => final(self)@.state == old(self)@.state && r@ == match e {
                    ApiError::Auth(m) => BearerView::Refused(expired(m@)),
                    _ => BearerView::Failed(e),
                },
            },
    {
        let new = match outcome {
            Ok(new) => new,
            Err(e) => {
                return BearerStep::Failed(refresh_failed(e));
            },
        };
        let kept = match &self.state.tokens.refresh_token {
            Some(t) => Some(t.clone()),
            None => None,
        };
        let given = match &new.refresh_token {
            Some(t) => Some(t.clone()),
            None => None,
        };
        self.state.tokens = TokenState {
            access_token: new.access_token.clone(),
            refresh_token: or_text(given, kept),
            expires_at: new.expires_at_from(now),
        };
        BearerStep::WriteBack(new.access_token)
    }

    /// The text of the store `raw` with the tokens at hand in it, or why there is
    /// none.
    pub fn write_back(&self, raw: &str) -> (r: Result<String, String>)
        ensures
            rewritten(raw@, self@.state.location, self@.state.tokens) == match r {
                Ok(t) => Ok::<Seq<char>, Seq<char>>(t@),
                Err(why) => Err::<Seq<char>, Seq<char>>(why@),
            },
    {
        persist_tokens(raw, &self.state.location, &self.state.tokens)
    }
}

/// What is said where the server refused a refresh.
pub open spec fn expired(why: Seq<char>) -> Seq<char> {
    "Grok sign-in expired ("@ + why + "). "@ + SIGN_IN_HINT@
}

/// What is said where a refresh failed: one that the server refused comes with
/// what to do about it.
pub fn refresh_failed(e: ApiError) -> (r: ApiError)
    ensures
        match e {
            ApiError::Auth(m) => r matches ApiError::Auth(why) && why@ == expired(m@),
            _ => r == e,
        },
{
    match e {
        ApiError::Auth(m) => {
            let mut v = chars_of("Grok sign-in expired (");
            push_text(&mut v, m.as_str());
            push_text(&mut v, "). ");
            push_text(&mut v, SIGN_IN_HINT);
            ApiError::Auth(string_of(&v))
        },
        other => other,
    }
}

/// The directory in which the store is looked for.
pub fn home_dir(home: Option<String>) -> (r: Result<String, ApiError>)
    ensures
        match (home, r) {
            (Some(h), Ok(d)) => h@.len() > 0 && d@ == h@,
            (Some(h), Err(_)) => h@.len() == 0,
            (None, Ok(_)) => false,
            (None, Err(_)) => true,
        },
        r matches Err(e) ==> (e matches ApiError::Auth(why) && why@
            == "cannot locate the home directory to find the Grok CLI credentials"@),
{
    match home {
        Some(h) => if h.as_str().is_empty() {
            Err(
                ApiError::Auth(
                    "cannot locate the home directory to find the Grok CLI credentials".to_owned(),
                ),
            )
        } else {
            Ok(h)
        },
        None => Err(
            ApiError::Auth(
                "cannot locate the home directory to find the Grok CLI credentials".to_owned(),
            ),
        ),
    }
}

// ---------------------------------------------------------------------------
// Laws
// ---------------------------------------------------------------------------

/// A token that is handed out without a refresh is good for a while, and a good
/// one that another program has stored is taken before a refresh is spent.
pub proof fn good_tokens_come_first(held: StoreView, fresh: Option<StoreView>, now: u64)
    ensures
        after_reading(held, fresh, now).1 matches BearerView::Use(t) ==> {
            let state = after_reading(held, fresh, now).0;
            t == state.tokens.access_token && !oauth::due(state.tokens.expires_at, now)
        },
        after_reading(held, fresh, now).1 is Refresh ==> (fresh matches Some(s) ==> oauth::due(
            s.tokens.expires_at,
            now,
        ) || s.tokens.access_token == held.tokens.access_token),
{
}

/// Whether an entry keeps tokens under this name.
pub open spec fn is_token_field(name: Seq<char>) -> bool {
    ||| name == "key"@
    ||| name == "access_token"@
    ||| name == "token"@
    ||| name == "refresh_token"@
    ||| name == "refresh"@
    ||| name == "expires_at"@
}

proof fn lemma_field_names()
    ensures
        "key"@.len() == 3,
        "token"@.len() == 5,
        "refresh"@.len() == 7,
        "client_id"@.len() == 9,
        "expires_at"@.len() == 10,
        "oidc_issuer"@.len() == 11,
        "access_token"@.len() == 12,
        "refresh_token"@.len() == 13,
        "oidc_client_id"@.len() == 14,
{
    reveal_strlit("key");
    reveal_strlit("token");
    reveal_strlit("refresh");
    reveal_strlit("client_id");
    reveal_strlit("expires_at");
    reveal_strlit("oidc_issuer");
    reveal_strlit("access_token");
    reveal_strlit("refresh_token");
    reveal_strlit("oidc_client_id");
}

/// Writing tokens into an entry leaves every other field of it as it was.
pub proof fn only_token_fields_change(
    m: Map<Seq<char>, json::JsonView>,
    t: TokenView,
    name: Seq<char>,
)
    requires
        !is_token_field(name),
    ensures
        with_tokens(m, t).dom().contains(name) == m.dom().contains(name),
        m.dom().contains(name) ==> with_tokens(m, t)[name] == m[name],
{
}

/// Writing tokens into an entry leaves every other entry of the store as it
/// was.
pub proof fn only_the_entry_changes(
    m: Map<Seq<char>, json::JsonView>,
    k: Seq<char>,
    t: TokenView,
    other: Seq<char>,
)
    requires
        store_with(json::JsonView::Object(m), LocationView::Keyed(k), t) is Some,
        other != k,
    ensures
        ({
            let after = store_with(json::JsonView::Object(m), LocationView::Keyed(k), t)->0;
            json::member(after, other) == json::member(json::JsonView::Object(m), other)
        }),
{
}

/// What an entry says once tokens have been written into it: the new access
/// token, the new refresh token and expiry where there are any, and otherwise
/// the old ones.
pub open spec fn merged(j: json::JsonView, t: TokenView) -> TokenView {
    TokenView {
        access_token: t.access_token,
        refresh_token: either(t.refresh_token, refresh_token(j)),
        expires_at: if t.expires_at is Some {
            t.expires_at
        } else {
            expires(j)
        },
    }
}

/// Whether an expiry can be read once it is written: as a number, it must be
/// told from a number of seconds; as a text, its year must have four digits.
pub open spec fn expiry_readable(m: Map<Seq<char>, json::JsonView>, ms: Option<u64>) -> bool {
    match ms {
        Some(t) => if written_expiry(m, t) is Number {
            t >= MILLIS_FROM && json::number_u64(json::number_of(t)) == Some(t)
        } else {
            t < clock::YEAR_10000_MS
        },
        None => true,
    }
}

/// Tokens that were written into an entry are read back. An expiry that the
/// entry keeps as a number must be late enough to be told from seconds, and one
/// that it keeps as a text must lie before the year 10000.
pub proof fn written_tokens_read_back(m: Map<Seq<char>, json::JsonView>, t: TokenView)
    requires
        expiry_readable(m, t.expires_at),
    ensures
        entry_tokens(json::JsonView::Object(with_tokens(m, t))) == Some(
            merged(json::JsonView::Object(m), t),
        ),
{
    lemma_field_names();
    let one = with_access(m, t.access_token);
    let two = with_refresh(one, t.refresh_token);
    let all = with_expiry(two, t.expires_at);
    let j = json::JsonView::Object(all);
    if let Some(ms) = t.expires_at {
        if ms < clock::YEAR_10000_MS {
            clock::parse_undoes_format(ms);
        }
        assert(written_expiry(two, ms) == written_expiry(m, ms));
    }
    assert(access_token(j) == Some(t.access_token));
    assert(refresh_token(j) == either(t.refresh_token, refresh_token(json::JsonView::Object(m))));
    assert(expires(j) == merged(json::JsonView::Object(m), t).expires_at);
}

/// Whether the entry at `location` has an expiry that can be written back.
pub open spec fn location_readable(j: json::JsonView, location: LocationView, t: TokenView) -> bool {
    match (j, location) {
        (json::JsonView::Object(m), LocationView::TopLevel) => expiry_readable(m, t.expires_at),
        (json::JsonView::Object(m), LocationView::Keyed(k)) => m[k] matches json::JsonView::Object(
            e,
        ) ==> expiry_readable(e, t.expires_at),
        _ => true,
    }
}

/// A store into which refreshed tokens were written gives them back, from the
/// same place, with the same way to refresh them.
pub proof fn refreshed_store_reads_back(
    m: Map<Seq<char>, json::JsonView>,
    s: StoreView,
    t: TokenView,
)
    requires
        m.dom().finite(),
        stored(json::JsonView::Object(m)) == Ok::<StoreView, Seq<char>>(s),
        location_readable(json::JsonView::Object(m), s.location, t),
    ensures
        store_with(json::JsonView::Object(m), s.location, t) matches Some(after) && stored(after)
            == Ok::<StoreView, Seq<char>>(
            StoreView {
                tokens: TokenView {
                    access_token: t.access_token,
                    refresh_token: either(t.refresh_token, s.tokens.refresh_token),
                    expires_at: if t.expires_at is Some {
                        t.expires_at
                    } else {
                        s.tokens.expires_at
                    },
                },
                ..s
            },
        ),
{
    lemma_field_names();
    let j = json::JsonView::Object(m);
    match s.location {
        LocationView::Keyed(k) => {
            assert(either(picked(m, true), picked(m, false)) == Some(k));
            let oidc = picked(m, true) is Some;
            assert(is_first(m, oidc, k)) by {
                assert(picked(m, oidc) == Some(k));
            }
            assert(candidate(m, oidc, k));
            assert(entry_tokens(m[k]) is Some);
            let e = m[k]->Object_0;
            written_tokens_read_back(e, t);
            let changed = json::JsonView::Object(with_tokens(e, t));
            let m2 = m.insert(k, changed);
            assert forall|o: bool, x: Seq<char>| #[trigger]
                candidate(m2, o, x) == candidate(m, o, x) by {}
            assert forall|o: bool, x: Seq<char>| #[trigger]
                is_first(m2, o, x) == is_first(m, o, x) by {
                assert(forall|y: Seq<char>| candidate(m2, o, y) == candidate(m, o, y));
            }
            lemma_picked(m2, oidc, k);
            if !oidc {
                assert(picked(m2, true) is None);
            }
            only_token_fields_change(e, t, "oidc_client_id"@);
            only_token_fields_change(e, t, "oidc_issuer"@);
            assert(text_member(changed, "oidc_client_id"@) == text_member(m[k], "oidc_client_id"@));
            assert(issuer_of(changed) == issuer_of(m[k]));
        },
        LocationView::TopLevel => {
            assert(either(picked(m, true), picked(m, false)) is None);
            written_tokens_read_back(m, t);
            let m2 = with_tokens(m, t);
            assert forall|o: bool, x: Seq<char>| !#[trigger] candidate(m2, o, x) by {
                if candidate(m2, o, x) {
                    if is_token_field(x) {
                        lemma_token_field_is_plain(m, t, x);
                    } else {
                        only_token_fields_change(m, t, x);
                    }
                    assert(candidate(m, o, x));
                    lemma_first_exists(m, o, x);
                }
            }
            assert(picked(m2, true) is None);
            assert(picked(m2, false) is None);
            only_token_fields_change(m, t, "oidc_client_id"@);
            only_token_fields_change(m, t, "client_id"@);
            only_token_fields_change(m, t, "oidc_issuer"@);
        },
    }
}

/// A token field holds no entry, or what it held before.
proof fn lemma_token_field_is_plain(
    m: Map<Seq<char>, json::JsonView>,
    t: TokenView,
    name: Seq<char>,
)
    ensures
        ({
            let after = with_tokens(m, t);
            after.dom().contains(name) && entry_tokens(after[name]) is Some
                ==> m.dom().contains(name) && after[name] == m[name]
        }),
{
    lemma_field_names();
}

/// Of finitely many candidates one is first.
proof fn lemma_first_exists(m: Map<Seq<char>, json::JsonView>, oidc: bool, k: Seq<char>)
    requires
        m.dom().finite(),
        candidate(m, oidc, k),
    ensures
        exists|x: Seq<char>| is_first(m, oidc, x),
{
    let all = m.dom().filter(|x: Seq<char>| candidate(m, oidc, x));
    assert(all.contains(k));
    m.dom().lemma_len_filter(|x: Seq<char>| candidate(m, oidc, x));
    let x = lemma_least(all);
    assert forall|other: Seq<char>| #[trigger] candidate(m, oidc, other) implies other == x
        || text::before(x, other) by {
        assert(all.contains(other));
    }
    assert(is_first(m, oidc, x));
}

proof fn lemma_least(s: Set<Seq<char>>) -> (k: Seq<char>)
    requires
        s.finite(),
        exists|x: Seq<char>| s.contains(x),
    ensures
        s.contains(k),
        forall|other: Seq<char>| #[trigger] s.contains(other) ==> other == k || text::before(
            k,
            other,
        ),
    decreases s.len(),
{
    let x = choose|x: Seq<char>| s.contains(x);
    let rest = s.remove(x);
    if exists|y: Seq<char>| rest.contains(y) {
        let y = lemma_least(rest);
        text::lemma_before_total(x, y);
        if text::before(x, y) {
            assert forall|other: Seq<char>| #[trigger] s.contains(other) implies other == x
                || text::before(x, other) by {
                if other != x {
                    assert(rest.contains(other));
                    if other != y {
                        text::lemma_before_transitive(x, y, other);
                    }
                }
            }
            x
        } else {
            assert forall|other: Seq<char>| #[trigger] s.contains(other) implies other == y
                || text::before(y, other) by {
                if other != x {
                    assert(rest.contains(other));
                }
            }
            y
        }
    } else {
        assert forall|other: Seq<char>| #[trigger] s.contains(other) implies other == x by {
            if other != x {
                assert(rest.contains(other));
            }
        }
        x
    }
}

} // verus!
