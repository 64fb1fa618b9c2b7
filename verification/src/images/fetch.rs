//! Where the bytes behind an `<img src>` are, by scheme: inline `data:` URIs,
//! local `file:` URLs (office programs write clipboard images to a temporary
//! folder), and `http(s)` on the intranet. Each way is bounded in size.

use crate::base64_text;
use crate::text;
use crate::text::chars_of;
use crate::text::index_at;
use crate::text::lowered;
use crate::text::matches_at;
use crate::text::piece;
use crate::text::same;
use crate::text::split_at_char;
use crate::text::string_of;
use crate::text::trimmed;
use crate::text::CharClass;
use crate::utf8;
use vstd::prelude::*;

verus! {

/// Bytes taken from one source at most; more is left alone.
pub const MAX_SOURCE_BYTES: u64 = 8 * 1024 * 1024;

/// How long to wait for one remote image, in milliseconds.
pub const FETCH_TIMEOUT_MS: u64 = 2000;

/// Whether `c` is white space in ASCII.
pub open spec fn is_ascii_space(c: char) -> bool {
    c == ' ' || c == '\t' || c == '\n' || c == '\r' || c == '\u{c}'
}

/// Whether `c` is white space in ASCII.
pub(crate) fn ascii_space(c: char) -> (r: bool)
    ensures
        r == is_ascii_space(c),
{
    c == ' ' || c == '\t' || c == '\n' || c == '\r' || c == '\u{c}'
}

/// Whether `s` starts with `scheme`, given in lower case, in any case.
pub open spec fn schemed(s: Seq<char>, scheme: Seq<char>) -> bool {
    text::starts_with(text::lowercase(s), scheme)
}

/// Whether `s` starts with `scheme`, given in lower case, in any case.
pub fn has_scheme(s: &[char], scheme: &str) -> (r: bool)
    ensures
        r == schemed(s@, scheme@),
        r ==> s@.len() >= scheme@.len(),
{
    let low = lowered(s);
    let want = chars_of(scheme);
    matches_at(&low, &want, 0)
}

// ---------------------------------------------------------------------------
// data:
// ---------------------------------------------------------------------------

/// Whether one of the parameters before the comma is `base64`.
pub open spec fn says_base64(meta: Seq<char>) -> bool {
    exists|i: int|
        0 <= i < text::split(meta, ';').len() && text::lowercase(
            text::trim(#[trigger] text::split(meta, ';')[i], CharClass::Space),
        ) == "base64"@
}

/// `s` without its ASCII white space.
pub open spec fn compact(s: Seq<char>) -> Seq<char>
    decreases s.len(),
{
    if s.len() == 0 {
        s
    } else if is_ascii_space(s.last()) {
        compact(s.drop_last())
    } else {
        compact(s.drop_last()).push(s.last())
    }
}

/// The base64 text in a `data:` URI: `None` of anything else, of another
/// encoding, and of a text too long for [`MAX_SOURCE_BYTES`].
pub open spec fn data_payload(src: Seq<char>) -> Option<Seq<char>> {
    let s = text::trim(src, CharClass::Space);
    let rest = s.skip("data:"@.len() as int);
    if !schemed(s, "data:"@) {
        None
    } else {
        match text::index_from(rest, ',', 0) {
            Some(i) => if says_base64(rest.take(i)) && text::byte_len(rest.skip(i + 1))
                <= MAX_SOURCE_BYTES / 3 * 4 + 4 {
                Some(compact(rest.skip(i + 1)))
            } else {
                None
            },
            None => None,
        }
    }
}

/// Bytes that are there and no more than [`MAX_SOURCE_BYTES`].
pub open spec fn bounded(b: Option<Seq<u8>>) -> Option<Seq<u8>> {
    match b {
        Some(v) => if v.len() <= MAX_SOURCE_BYTES {
            Some(v)
        } else {
            None
        },
        None => None,
    }
}

/// The bytes in a `data:` URI; `None` of more than [`MAX_SOURCE_BYTES`].
pub open spec fn inline_bytes(src: Seq<char>) -> Option<Seq<u8>> {
    match data_payload(src) {
        Some(payload) => bounded(base64_text::base64_bytes(vstd::utf8::encode_utf8(payload))),
        None => None,
    }
}

fn names_base64(meta: &[char]) -> (r: bool)
    ensures
        r == says_base64(meta@),
{
    let parts = split_at_char(meta, ';');
    let want = chars_of("base64");
    let mut i: usize = 0;
    while i < parts.len()
        invariant
            i <= parts@.len(),
            text::views(parts@) == text::split(meta@, ';'),
            want@ == "base64"@,
            forall|j: int|
                0 <= j < i ==> text::lowercase(
                    text::trim(#[trigger] text::split(meta@, ';')[j], CharClass::Space),
                ) != "base64"@,
        decreases parts@.len() - i,
    {
        assert(text::split(meta@, ';')[i as int] == parts@[i as int]@);
        let low = lowered(&trimmed(&parts[i], CharClass::Space));
        if same(&low, &want) {
            return true;
        }
        i += 1;
    }
    false
}

fn compacted(v: &[char]) -> (r: Vec<char>)
    ensures
        r@ == compact(v@),
{
    let mut r: Vec<char> = Vec::new();
    let mut i: usize = 0;
    while i < v.len()
        invariant
            i <= v@.len(),
            r@ == compact(v@.take(i as int)),
        decreases v@.len() - i,
    {
        assert(v@.take(i + 1).drop_last() =~= v@.take(i as int));
        if !ascii_space(v[i]) {
            r.push(v[i]);
        }
        i += 1;
    }
    assert(v@.take(i as int) =~= v@);
    r
}

/// The bytes in a `data:` URI. `None` of anything else, of another encoding
/// than base64, and of more than [`MAX_SOURCE_BYTES`].
pub fn data_uri_bytes(src: &str) -> (r: Option<Vec<u8>>)
    ensures
        match r {
            Some(b) => inline_bytes(src@) == Some(b@),
            None => inline_bytes(src@) is None,
        },
{
    let s = trimmed(&chars_of(src), CharClass::Space);
    if !has_scheme(&s, "data:") {
        return None;
    }
    proof {
        reveal_strlit("data:");
    }
    let rest = piece(&s, 5, s.len());
    assert(rest@ =~= s@.skip(5));
    match index_at(&rest, ',', 0) {
        Some(i) => {
            let meta = piece(&rest, 0, i);
            assert(meta@ =~= rest@.take(i as int));
            if !names_base64(&meta) {
                return None;
            }
            let payload = piece(&rest, i + 1, rest.len());
            assert(payload@ =~= rest@.skip(i + 1));
            let payload_text = string_of(&payload);
            let payload_len: usize = payload_text.as_str().as_bytes().len();
            if payload_len as u64 > MAX_SOURCE_BYTES / 3 * 4 + 4 {
                return None;
            }
            let compact_text = string_of(&compacted(&payload));
            match base64_text::decode(compact_text.as_str().as_bytes()) {
                Some(b) => if b.len() as u64 <= MAX_SOURCE_BYTES {
                    Some(b)
                } else {
                    None
                },
                None => None,
            }
        },
        None => None,
    }
}

proof fn lemma_compact(t: Seq<char>)
    requires
        forall|i: int| 0 <= i < t.len() ==> !is_ascii_space(#[trigger] t[i]),
    ensures
        compact(t) == t,
    decreases t.len(),
{
    if t.len() > 0 {
        lemma_compact(t.drop_last());
        assert(t.drop_last().push(t.last()) =~= t);
    }
}

/// A text in base64 that a `data:` URI is made of can be read out of it again.
pub proof fn lemma_data_uri(mime: Seq<char>, t: Seq<char>)
    requires
        mime == "image/png"@ || mime == "image/jpeg"@,
        forall|i: int| 0 <= i < t.len() ==> base64_text::is_base64(#[trigger] t[i]),
        t.len() <= MAX_SOURCE_BYTES / 3 * 4 + 4,
    ensures
        inline_bytes("data:"@ + mime + ";base64,"@ + t) == bounded(
            base64_text::base64_bytes(Seq::new(t.len(), |i: int| t[i] as u8)),
        ),
{
    reveal_strlit("data:");
    reveal_strlit("image/png");
    reveal_strlit("image/jpeg");
    reveal_strlit(";base64,");
    reveal_strlit("base64");
    let s = "data:"@ + mime + ";base64,"@ + t;
    assert(!text::is_space(s[0]));
    assert(!text::is_space(s.last()));
    assert(text::trim(s, CharClass::Space) == s);
    assert(text::lowercase(s).subrange(0, 5) =~= "data:"@);
    let rest = s.skip(5);
    let k = mime.len() + 7;
    assert(rest =~= mime + ";base64,"@ + t);
    assert(forall|j: int| 0 <= j < mime.len() ==> mime[j] != ',' && mime[j] != ';');
    assert forall|j: int| 0 <= j < k implies rest[j] != ',' by {
        if j >= mime.len() {
            assert(rest[j] == ";base64,"@[j - mime.len()]);
        } else {
            assert(rest[j] == mime[j]);
        }
    }
    assert(rest[k as int] == ";base64,"@[7]);
    text::lemma_index_from_is(rest, ',', 0, k as int);
    let meta = rest.take(k as int);
    assert(meta =~= mime + seq![';'] + "base64"@);
    text::lemma_split_first(mime, ';', "base64"@);
    text::lemma_split_one("base64"@, ';');
    assert(text::split(meta, ';') =~= seq![mime, "base64"@]);
    assert(text::trim("base64"@, CharClass::Space) == "base64"@);
    assert(text::lowercase("base64"@) =~= "base64"@);
    assert(text::split(meta, ';')[1] == "base64"@);
    assert(says_base64(meta));
    assert(rest.skip(k + 1int) =~= t);
    assert(vstd::utf8::is_ascii_chars(t));
    vstd::utf8::is_ascii_chars_encode_utf8(t);
    lemma_compact(t);
    assert(vstd::utf8::encode_utf8(t) =~= Seq::new(t.len(), |i: int| t[i] as u8));
}

// ---------------------------------------------------------------------------
// file:
// ---------------------------------------------------------------------------

/// The value of a hexadecimal digit.
pub open spec fn hex_digit(b: u8) -> Option<int> {
    if 0x30 <= b <= 0x39 {
        Some(b - 0x30)
    } else if 0x41 <= b <= 0x46 {
        Some(b - 0x41 + 10)
    } else if 0x61 <= b <= 0x66 {
        Some(b - 0x61 + 10)
    } else {
        None
    }
}

/// The byte that two characters stand for in hexadecimal: two digits, or one
/// after a plus sign.
pub open spec fn hex_pair(a: u8, b: u8) -> Option<int> {
    match (hex_digit(a), hex_digit(b)) {
        (Some(x), Some(y)) => Some(16 * x + y),
        (None, Some(y)) => if a == 0x2b {
            Some(y)
        } else {
            None
        },
        _ => None,
    }
}

/// The byte that `b` starts with an escape of.
pub open spec fn escaped(b: Seq<u8>) -> Option<int> {
    if b.len() > 2 && b[0] == 0x25 {
        hex_pair(b[1], b[2])
    } else {
        None
    }
}

/// `b` with every `%` and two hexadecimal digits replaced by the byte that they
/// stand for.
pub open spec fn unescaped(b: Seq<u8>) -> Seq<u8>
    decreases b.len(),
{
    if b.len() == 0 {
        b
    } else {
        match escaped(b) {
            Some(v) => seq![v as u8] + unescaped(b.skip(3)),
            None => seq![b[0]] + unescaped(b.skip(1)),
        }
    }
}

/// The text of `b`, with what is malformed replaced.
pub open spec fn lossy(b: Seq<u8>) -> Seq<char> {
    let (s, rest) = utf8::decoded(b);
    if rest.len() == 0 {
        s
    } else {
        s.push(utf8::replacement())
    }
}

/// `p` without the slash before a drive letter.
pub open spec fn without_drive_slash(p: Seq<char>) -> Seq<char> {
    if p.len() >= 3 && p[0] == '/' && ('a' <= p[1] <= 'z' || 'A' <= p[1] <= 'Z') && p[2] == ':' {
        p.skip(1)
    } else {
        p
    }
}

/// The path in what follows `file:`; `None` where it names another host.
pub open spec fn local_part(rest: Seq<char>) -> Option<Seq<char>> {
    if text::starts_with(rest, "//"@) {
        let after = rest.skip("//"@.len() as int);
        let (host, path) = match text::index_from(after, '/', 0) {
            Some(i) => (after.take(i), after.skip(i)),
            None => (after, Seq::empty()),
        };
        if host.len() == 0 || text::lowercase(host) == "localhost"@ {
            Some(path)
        } else {
            None
        }
    } else {
        Some(rest)
    }
}

/// The path of a `file:` URL.
pub open spec fn url_path(src: Seq<char>) -> Option<Seq<char>> {
    let s = text::trim(src, CharClass::Space);
    if !schemed(s, "file:"@) {
        None
    } else {
        match local_part(s.skip("file:"@.len() as int)) {
            Some(p) => if p.len() == 0 {
                None
            } else {
                Some(without_drive_slash(lossy(unescaped(vstd::utf8::encode_utf8(p)))))
            },
            None => None,
        }
    }
}

fn hex_of(b: u8) -> (r: Option<u8>)
    ensures
        match r {
            Some(v) => hex_digit(b) == Some(v as int) && v < 16,
            None => hex_digit(b) is None,
        },
{
    if 0x30 <= b && b <= 0x39 {
        Some(b - 0x30)
    } else if 0x41 <= b && b <= 0x46 {
        Some(b - 0x41 + 10)
    } else if 0x61 <= b && b <= 0x66 {
        Some(b - 0x61 + 10)
    } else {
        None
    }
}

fn hex_pair_of(a: u8, b: u8) -> (r: Option<u8>)
    ensures
        match r {
            Some(v) => hex_pair(a, b) == Some(v as int),
            None => hex_pair(a, b) is None,
        },
{
    match (hex_of(a), hex_of(b)) {
        (Some(x), Some(y)) => Some(16 * x + y),
        (None, Some(y)) => if a == 0x2b {
            Some(y)
        } else {
            None
        },
        _ => None,
    }
}

/// `s` with its percent escapes replaced.
pub fn percent_decode(s: &str) -> (r: String)
    ensures
        r@ == lossy(unescaped(vstd::utf8::encode_utf8(s@))),
{
    let b = s.as_bytes();
    let n: usize = b.len();
    let mut out: Vec<u8> = Vec::new();
    let mut i: usize = 0;
    assert(b@.skip(0) =~= b@);
    while i < n
        invariant
            n == b@.len(),
            i <= n,
            out@ + unescaped(b@.skip(i as int)) == unescaped(b@),
        decreases n - i,
    {
        let ghost rest = b@.skip(i as int);
        let ghost before = out@;
        let hex: Option<u8> = if b[i] == 0x25 && n - i > 2 {
            hex_pair_of(b[i + 1], b[i + 2])
        } else {
            None
        };
        match hex {
            Some(v) => {
                out.push(v);
                assert(rest.skip(3) =~= b@.skip(i + 3));
                assert(out@ + unescaped(b@.skip(i + 3)) =~= before + unescaped(rest));
                i += 3;
            },
            None => {
                out.push(b[i]);
                assert(rest.skip(1) =~= b@.skip(i + 1));
                assert(out@ + unescaped(b@.skip(i + 1)) =~= before + unescaped(rest));
                i += 1;
            },
        }
    }
    assert(out@ =~= unescaped(b@));
    let (mut chars, rest) = utf8::decode(&out);
    if rest.len() > 0 {
        chars.push('\u{fffd}');
    }
    string_of(&chars)
}

/// The path of a `file:` URL, with percent escapes replaced, and without the
/// slash before a drive letter. `None` of anything else, and of a file on
/// another host.
pub fn file_url_path(src: &str) -> (r: Option<String>)
    ensures
        match r {
            Some(p) => url_path(src@) == Some(p@),
            None => url_path(src@) is None,
        },
{
    let s = trimmed(&chars_of(src), CharClass::Space);
    if !has_scheme(&s, "file:") {
        return None;
    }
    proof {
        reveal_strlit("file:");
        reveal_strlit("//");
    }
    let rest = piece(&s, 5, s.len());
    assert(rest@ =~= s@.skip(5));
    let slashes = chars_of("//");
    let path = if matches_at(&rest, &slashes, 0) {
        let after = piece(&rest, 2, rest.len());
        assert(after@ =~= rest@.skip(2));
        let cut: usize = match index_at(&after, '/', 0) {
            Some(i) => i,
            None => after.len(),
        };
        let host = piece(&after, 0, cut);
        let path = piece(&after, cut, after.len());
        assert(host@ =~= after@.take(cut as int));
        assert(path@ =~= after@.skip(cut as int));
        proof {
            if text::index_from(after@, '/', 0) is None {
                assert(host@ =~= after@);
                assert(path@ =~= Seq::<char>::empty());
            }
        }
        if host.len() > 0 && !same(&lowered(&host), &chars_of("localhost")) {
            return None;
        }
        path
    } else {
        rest
    };
    if path.len() == 0 {
        return None;
    }
    let whole = percent_decode(string_of(&path).as_str());
    let d = chars_of(whole.as_str());
    if d.len() >= 3 && d[0] == '/' && (('a' <= d[1] && d[1] <= 'z') || ('A' <= d[1] && d[1] <= 'Z'))
        && d[2] == ':' {
        let short = piece(&d, 1, d.len());
        assert(short@ =~= d@.skip(1));
        Some(string_of(&short))
    } else {
        Some(whole)
    }
}

// ---------------------------------------------------------------------------
// Which of them
// ---------------------------------------------------------------------------

/// How to get at the bytes of a source.
#[derive(Debug)]
pub enum Fetch {
    /// They are here.
    Inline(Vec<u8>),
    /// They are in a file, given by its path.
    LocalFile(String),
    /// They are on a server, given by its URL.
    Http(String),
    /// They cannot be had.
    Nothing,
}

/// What is in a [`Fetch`].
pub enum FetchView {
    Inline(Seq<u8>),
    LocalFile(Seq<char>),
    Http(Seq<char>),
    Nothing,
}

impl Fetch {
    /// What is in it.
    pub open spec fn view(&self) -> FetchView {
        match self {
            Fetch::Inline(b) => FetchView::Inline(b@),
            Fetch::LocalFile(p) => FetchView::LocalFile(p@),
            Fetch::Http(u) => FetchView::Http(u@),
            Fetch::Nothing => FetchView::Nothing,
        }
    }
}

/// How to get at the bytes of `src`.
pub open spec fn fetch(src: Seq<char>) -> FetchView {
    let s = text::trim(src, CharClass::Space);
    if schemed(s, "data:"@) {
        match inline_bytes(s) {
            Some(b) => FetchView::Inline(b),
            None => FetchView::Nothing,
        }
    } else if schemed(s, "file:"@) {
        match url_path(s) {
            Some(p) => FetchView::LocalFile(p),
            None => FetchView::Nothing,
        }
    } else if schemed(s, "http://"@) || schemed(s, "https://"@) {
        FetchView::Http(s)
    } else {
        FetchView::Nothing
    }
}

/// How to get at the bytes of `src`, by its scheme.
pub fn fetch_source(src: &str) -> (r: Fetch)
    ensures
        r@ == fetch(src@),
{
    let v = trimmed(&chars_of(src), CharClass::Space);
    let s = string_of(&v);
    if has_scheme(&v, "data:") {
        match data_uri_bytes(s.as_str()) {
            Some(b) => Fetch::Inline(b),
            None => Fetch::Nothing,
        }
    } else if has_scheme(&v, "file:") {
        match file_url_path(s.as_str()) {
            Some(p) => Fetch::LocalFile(p),
            None => Fetch::Nothing,
        }
    } else if has_scheme(&v, "http://") || has_scheme(&v, "https://") {
        Fetch::Http(s)
    } else {
        Fetch::Nothing
    }
}

/// Whether a local file is read: a plain file, and not too long.
pub fn local_file_fits(is_file: bool, len: u64) -> (r: bool)
    ensures
        r == (is_file && len <= MAX_SOURCE_BYTES),
{
    is_file && len <= MAX_SOURCE_BYTES
}

/// Whether a response's body is read: the request succeeded, and the body is
/// not announced to be too long.
pub fn response_fits(status: u16, content_length: Option<u64>) -> (r: bool)
    ensures
        r == (200 <= status < 300 && (content_length matches Some(n) ==> n <= MAX_SOURCE_BYTES)),
{
    200 <= status && status < 300 && match content_length {
        Some(n) => n <= MAX_SOURCE_BYTES,
        None => true,
    }
}

/// The body that was read, unless it turned out to be too long.
pub fn accept_body(body: Vec<u8>) -> (r: Option<Vec<u8>>)
    ensures
        r == if body@.len() <= MAX_SOURCE_BYTES {
            Some(body)
        } else {
            None
        },
{
    if body.len() as u64 <= MAX_SOURCE_BYTES {
        Some(body)
    } else {
        None
    }
}

} // verus!
