//! `<img>` references in the HTML that a clipboard holds. Plain scanning of the
//! text, for the attributes that the image filter needs.

use crate::config::as_text;
use crate::images::css;
use crate::images::css::css_px;
use crate::images::css::style_px;
use crate::images::fetch;
use crate::images::fetch::ascii_space;
use crate::images::filter;
use crate::images::filter::ImgHint;
use crate::numbers;
use crate::numbers::parse_u64;
use crate::text;
use crate::text::char_byte_len;
use crate::text::chars_of;
use crate::text::extend;
use crate::text::find_at;
use crate::text::index_at;
use crate::text::lowered;
use crate::text::piece;
use crate::text::same;
use crate::text::string_of;
use crate::text::trimmed;
use crate::text::CharClass;
use vstd::prelude::*;

verus! {

/// One `<img>`.
#[derive(Debug, Clone, PartialEq, Eq)]
pub struct ImgRef {
    /// The `src` value, with entities replaced.
    pub src: String,
    /// `width` attribute, or the inline style's, in CSS pixels.
    pub width: Option<u32>,
    /// `height` attribute, or the inline style's, in CSS pixels.
    pub height: Option<u32>,
    pub alt: Option<String>,
    pub class: Option<String>,
    /// How many bytes of the fragment stand before the tag.
    pub offset: usize,
}

/// What is in an [`ImgRef`].
#[verifier::ext_equal]
pub struct RefView {
    pub src: Seq<char>,
    pub width: Option<int>,
    pub height: Option<int>,
    pub alt: Option<Seq<char>>,
    pub class: Option<Seq<char>>,
    pub offset: int,
}

/// A number, if there is one.
pub open spec fn as_int(n: Option<u32>) -> Option<int> {
    match n {
        Some(v) => Some(v as int),
        None => None,
    }
}

/// A text, if there is one.
pub open spec fn as_chars(s: Option<String>) -> Option<Seq<char>> {
    match s {
        Some(t) => Some(t@),
        None => None,
    }
}

impl ImgRef {
    /// What is in it.
    pub open spec fn view(&self) -> RefView {
        RefView {
            src: self.src@,
            width: as_int(self.width),
            height: as_int(self.height),
            alt: as_chars(self.alt),
            class: as_chars(self.class),
            offset: self.offset as int,
        }
    }

    /// What the filter goes by.
    pub fn hint(&self) -> (r: ImgHint<'_>)
        ensures
            r@ == (filter::HintView {
                src: self.src@,
                width: self.width,
                height: self.height,
                alt: as_chars(self.alt),
                class: as_chars(self.class),
            }),
    {
        ImgHint {
            src: self.src.as_str(),
            width: self.width,
            height: self.height,
            alt: as_text(&self.alt),
            class: as_text(&self.class),
        }
    }
}

/// What is in a run of references.
pub open spec fn refs_view(v: Seq<ImgRef>) -> Seq<RefView> {
    v.map_values(|r: ImgRef| r@)
}

// ---------------------------------------------------------------------------
// The fragment
// ---------------------------------------------------------------------------

/// What stands between the fragment markers; all of it where there are none.
pub open spec fn fragment_of(html: Seq<char>) -> Seq<char> {
    match text::find_from(html, "<!--StartFragment-->"@, 0) {
        Some(i) => {
            let body = html.skip(i + "<!--StartFragment-->"@.len());
            match text::find_from(body, "<!--EndFragment-->"@, 0) {
                Some(j) => body.take(j),
                None => body,
            }
        },
        None => html,
    }
}

/// The markup between the fragment markers of a clipboard, or all of it where
/// it has none.
pub fn fragment(html: &str) -> (r: String)
    ensures
        r@ == fragment_of(html@),
{
    let v = chars_of(html);
    let n: usize = v.len();
    let start = chars_of("<!--StartFragment-->");
    let end = chars_of("<!--EndFragment-->");
    match find_at(&v, &start, 0) {
        Some(i) => {
            let body = piece(&v, i + start.len(), n);
            assert(body@ =~= v@.skip(i + start@.len()));
            match find_at(&body, &end, 0) {
                Some(j) => {
                    let inner = piece(&body, 0, j);
                    assert(inner@ =~= body@.take(j as int));
                    string_of(&inner)
                },
                None => string_of(&body),
            }
        },
        None => string_of(&v),
    }
}

// ---------------------------------------------------------------------------
// Entities
// ---------------------------------------------------------------------------

/// The value of a hexadecimal digit.
pub open spec fn hex_value(c: char) -> Option<int> {
    if '0' <= c <= '9' {
        Some(c as u32 - 48)
    } else if 'a' <= c <= 'f' {
        Some(c as u32 - 87)
    } else if 'A' <= c <= 'F' {
        Some(c as u32 - 55)
    } else {
        None
    }
}

/// The number that a run of hexadecimal digits stands for; `None` where one is
/// no digit.
pub open spec fn hex_number(s: Seq<char>) -> Option<int>
    decreases s.len(),
{
    if s.len() == 0 {
        Some(0)
    } else {
        match (hex_number(s.drop_last()), hex_value(s.last())) {
            (Some(n), Some(d)) => Some(16 * n + d),
            _ => None,
        }
    }
}

/// The hexadecimal number of up to 32 bits that `s` writes: one digit or more,
/// perhaps behind a plus sign.
pub open spec fn hex_u32(s: Seq<char>) -> Option<int> {
    let digits = if s.len() > 0 && s[0] == '+' {
        s.skip(1)
    } else {
        s
    };
    match hex_number(digits) {
        Some(n) => if digits.len() > 0 && n <= u32::MAX {
            Some(n)
        } else {
            None
        },
        None => None,
    }
}

/// The number of a character, in decimal, or in hexadecimal behind an `x`.
pub open spec fn code_of(n: Seq<char>) -> Option<int> {
    if n.len() > 0 && (n[0] == 'x' || n[0] == 'X') {
        hex_u32(n.skip(1))
    } else {
        match numbers::unsigned_up_to(n, u32::MAX as int) {
            Some(k) => Some(k as int),
            None => None,
        }
    }
}

/// The character that the entity called `e` stands for.
pub open spec fn entity(e: Seq<char>) -> Option<char> {
    if e == "amp"@ {
        Some('&')
    } else if e == "quot"@ {
        Some('"')
    } else if e == "apos"@ {
        Some('\'')
    } else if e == "lt"@ {
        Some('<')
    } else if e == "gt"@ {
        Some('>')
    } else if e == "nbsp"@ {
        Some(' ')
    } else if e.len() > 0 && e[0] == '#' {
        match code_of(e.skip(1)) {
            Some(k) => if vstd::utf8::is_scalar(k as u32) {
                Some((k as u32) as char)
            } else {
                None
            },
            None => None,
        }
    } else {
        None
    }
}

/// Where the entity that `tail` starts with ends: at a semicolon within its
/// first ten bytes.
pub open spec fn entity_end(tail: Seq<char>) -> Option<int> {
    match text::index_from(tail, ';', 0) {
        Some(k) => if text::byte_len(tail.take(k)) < 10 {
            Some(k)
        } else {
            None
        },
        None => None,
    }
}

/// The entity that `tail`, which starts with an ampersand, starts with, and
/// where what follows it starts; an ampersand that starts none stands for
/// itself.
pub open spec fn first_entity(tail: Seq<char>) -> (char, int) {
    match entity_end(tail) {
        Some(k) => match entity(tail.subrange(1, k)) {
            Some(c) => (c, k + 1),
            None => ('&', 1),
        },
        None => ('&', 1),
    }
}

/// `s` with its entities replaced.
pub open spec fn entities(s: Seq<char>) -> Seq<char>
    decreases s.len(),
    via entities_decreases
{
    match text::index_from(s, '&', 0) {
        Some(i) => {
            let (c, used) = first_entity(s.skip(i));
            s.take(i).push(c) + entities(s.skip(i + used))
        },
        None => s,
    }
}

proof fn lemma_first_entity(tail: Seq<char>)
    requires
        tail.len() > 0,
        tail[0] == '&',
    ensures
        1 <= first_entity(tail).1 <= tail.len(),
        entity_end(tail) matches Some(k) ==> 1 <= k < tail.len(),
{
    text::lemma_index_from(tail, ';', 0);
}

#[via_fn]
proof fn entities_decreases(s: Seq<char>) {
    text::lemma_index_from(s, '&', 0);
    if let Some(i) = text::index_from(s, '&', 0) {
        assert(s.skip(i)[0] == '&');
        lemma_first_entity(s.skip(i));
    }
}

fn hex_digit_of(c: char) -> (r: Option<u32>)
    ensures
        match r {
            Some(v) => hex_value(c) == Some(v as int) && v < 16,
            None => hex_value(c) is None,
        },
{
    if '0' <= c && c <= '9' {
        Some(c as u32 - 48)
    } else if 'a' <= c && c <= 'f' {
        Some(c as u32 - 87)
    } else if 'A' <= c && c <= 'F' {
        Some(c as u32 - 55)
    } else {
        None
    }
}

/// A longer run of digits stands for no smaller number.
proof fn lemma_hex_prefix(s: Seq<char>, i: int)
    requires
        0 <= i <= s.len(),
    ensures
        hex_number(s) matches Some(n) ==> hex_number(s.take(i)) matches Some(m) && 0 <= m <= n,
    decreases s.len(),
{
    if i == s.len() {
        assert(s.take(i) =~= s);
        if s.len() > 0 {
            lemma_hex_prefix(s.drop_last(), s.len() - 1);
            assert(s.drop_last().take(s.len() - 1) =~= s.drop_last());
        }
    } else {
        lemma_hex_prefix(s.drop_last(), i);
        assert(s.drop_last().take(i) =~= s.take(i));
    }
}

fn hex_of(s: &[char]) -> (r: Option<u32>)
    ensures
        match r {
            Some(v) => hex_u32(s@) == Some(v as int),
            None => hex_u32(s@) is None,
        },
{
    let total: usize = s.len();
    let from: usize = if total > 0 && s[0] == '+' {
        1
    } else {
        0
    };
    let ghost digits = s@.skip(from as int);
    proof {
        if from == 0 {
            assert(digits =~= s@);
        }
    }
    if from == total {
        return None;
    }
    let mut n: u32 = 0;
    let mut i: usize = from;
    assert(digits.take(0) =~= Seq::<char>::empty());
    while i < total
        invariant
            from <= i <= total,
            total == s@.len(),
            from < total,
            digits == s@.skip(from as int),
            hex_u32(s@) == match hex_number(digits) {
                Some(n) => if n <= u32::MAX {
                    Some(n)
                } else {
                    None
                },
                None => None,
            },
            hex_number(digits.take(i - from)) == Some(n as int),
        decreases total - i,
    {
        let ghost next = digits.take(i - from + 1);
        proof {
            assert(next.drop_last() =~= digits.take(i - from));
            assert(next.last() == s@[i as int]);
            lemma_hex_prefix(digits, i - from + 1);
        }
        match hex_digit_of(s[i]) {
            Some(d) => {
                if n > (u32::MAX - d) / 16 {
                    return None;
                }
                n = 16 * n + d;
            },
            None => {
                return None;
            },
        }
        i += 1;
    }
    assert(digits.take(total - from) =~= digits);
    Some(n)
}

fn code(n: &[char]) -> (r: Option<u32>)
    ensures
        match r {
            Some(v) => code_of(n@) == Some(v as int),
            None => code_of(n@) is None,
        },
{
    let total: usize = n.len();
    if total > 0 && (n[0] == 'x' || n[0] == 'X') {
        let digits = piece(n, 1, total);
        assert(digits@ =~= n@.skip(1));
        return hex_of(&digits);
    }
    match parse_u64(n) {
        Some(k) => if k <= u32::MAX as u64 {
            Some(k as u32)
        } else {
            None
        },
        None => None,
    }
}

fn named(e: &[char], name: &str) -> (r: bool)
    ensures
        r == (e@ == name@),
{
    same(e, &chars_of(name))
}

fn entity_of(e: &[char]) -> (r: Option<char>)
    ensures
        r == entity(e@),
{
    if named(e, "amp") {
        return Some('&');
    }
    if named(e, "quot") {
        return Some('"');
    }
    if named(e, "apos") {
        return Some('\'');
    }
    if named(e, "lt") {
        return Some('<');
    }
    if named(e, "gt") {
        return Some('>');
    }
    if named(e, "nbsp") {
        return Some(' ');
    }
    let total: usize = e.len();
    if total > 0 && e[0] == '#' {
        let n = piece(e, 1, total);
        assert(n@ =~= e@.skip(1));
        return match code(&n) {
            Some(k) => char::from_u32(k),
            None => None,
        };
    }
    None
}

/// Where the entity that starts at `at` ends.
fn entity_end_at(v: &[char], at: usize) -> (r: Option<usize>)
    requires
        at < v@.len(),
    ensures
        match r {
            Some(k) => entity_end(v@.skip(at as int)) == Some(k - at) && at <= k < v@.len(),
            None => entity_end(v@.skip(at as int)) is None,
        },
{
    proof {
        text::lemma_index_from_skip(v@, ';', at as int);
    }
    match index_at(v, ';', at) {
        Some(k) => {
            let before = piece(v, at, k);
            assert(before@ =~= v@.skip(at as int).take(k - at));
            let t = string_of(&before);
            let bytes: usize = t.as_str().as_bytes().len();
            if bytes < 10 {
                Some(k)
            } else {
                None
            }
        },
        None => None,
    }
}

/// `raw` with its entities replaced: those that occur in attribute values, and
/// numeric ones. Anything else stays as it is.
pub fn decode_entities(raw: &[char]) -> (r: Vec<char>)
    ensures
        r@ == entities(raw@),
{
    let n: usize = raw.len();
    let mut out: Vec<char> = Vec::new();
    let mut pos: usize = 0;
    assert(raw@.skip(0) =~= raw@);
    assert(out@ + entities(raw@) =~= entities(raw@));
    loop
        invariant
            n == raw@.len(),
            pos <= n,
            out@ + entities(raw@.skip(pos as int)) == entities(raw@),
        decreases n - pos,
    {
        let ghost rest = raw@.skip(pos as int);
        proof {
            text::lemma_index_from_skip(raw@, '&', pos as int);
            text::lemma_index_from(raw@, '&', pos as int);
        }
        match index_at(raw, '&', pos) {
            Some(amp) => {
                let ghost before = out@;
                let head = piece(raw, pos, amp);
                let ghost tail = raw@.skip(amp as int);
                proof {
                    assert(head@ =~= rest.take(amp - pos));
                    assert(rest.skip(amp - pos) =~= tail);
                    assert(tail[0] == '&');
                    lemma_first_entity(tail);
                }
                extend(&mut out, &head);
                let (c, used): (char, usize) = match entity_end_at(raw, amp) {
                    Some(k) => {
                        let name = piece(raw, amp + 1, k);
                        assert(name@ =~= tail.subrange(1, k - amp));
                        match entity_of(&name) {
                            Some(c) => (c, k - amp + 1),
                            None => ('&', 1),
                        }
                    },
                    None => ('&', 1),
                };
                assert((c, used as int) == first_entity(tail));
                out.push(c);
                proof {
                    assert(rest.skip(amp - pos + used) =~= raw@.skip(amp + used));
                    assert(out@ + entities(raw@.skip(amp + used)) =~= before + (rest.take(
                        amp - pos,
                    ).push(c) + entities(raw@.skip(amp + used))));
                }
                pos = amp + used;
            },
            None => {
                let tail = piece(raw, pos, n);
                assert(tail@ =~= rest);
                extend(&mut out, &tail);
                return out;
            },
        }
    }
}

// ---------------------------------------------------------------------------
// Attributes
// ---------------------------------------------------------------------------

/// What a scan stops at.
#[derive(Clone, Copy)]
pub enum Stop {
    /// The end of an attribute's name.
    NameEnd,
    /// White space.
    Space,
    /// Anything but white space.
    NotSpace,
}

/// Whether a scan for `stop` stops at `c`.
pub open spec fn stops(stop: Stop, c: char) -> bool {
    match stop {
        Stop::NameEnd => fetch::is_ascii_space(c) || c == '=' || c == '/',
        Stop::Space => fetch::is_ascii_space(c),
        Stop::NotSpace => !fetch::is_ascii_space(c),
    }
}

/// The first index from `i` on where a scan stops: the end at the latest.
pub open spec fn scan(a: Seq<char>, i: int, stop: Stop) -> int
    decreases a.len() - i,
{
    if i >= a.len() || stops(stop, a[i]) {
        i
    } else {
        scan(a, i + 1, stop)
    }
}

proof fn lemma_scan(a: Seq<char>, i: int, stop: Stop)
    requires
        0 <= i <= a.len(),
    ensures
        i <= scan(a, i, stop) <= a.len(),
        scan(a, i, stop) < a.len() ==> stops(stop, a[scan(a, i, stop)]),
        i < a.len() && !stops(stop, a[i]) ==> i < scan(a, i, stop),
    decreases a.len() - i,
{
    if i < a.len() && !stops(stop, a[i]) {
        lemma_scan(a, i + 1, stop);
    }
}

fn stops_at(stop: Stop, c: char) -> (r: bool)
    ensures
        r == stops(stop, c),
{
    match stop {
        Stop::NameEnd => ascii_space(c) || c == '=' || c == '/',
        Stop::Space => ascii_space(c),
        Stop::NotSpace => !ascii_space(c),
    }
}

fn scan_at(a: &[char], from: usize, stop: Stop) -> (r: usize)
    requires
        from <= a@.len(),
    ensures
        r == scan(a@, from as int, stop),
        from <= r <= a@.len(),
{
    let mut i: usize = from;
    while i < a.len() && !stops_at(stop, a[i])
        invariant
            from <= i <= a@.len(),
            scan(a@, i as int, stop) == scan(a@, from as int, stop),
        decreases a@.len() - i,
    {
        i += 1;
    }
    i
}

/// The raw value that starts at `k`, behind the equals sign and white space,
/// and where what follows it starts. It may be quoted or bare.
pub open spec fn raw_value(a: Seq<char>, k: int) -> (Seq<char>, int) {
    if k < a.len() && (a[k] == '"' || a[k] == '\'') {
        match text::index_from(a, a[k], k + 1) {
            Some(close) => (a.subrange(k + 1, close), close + 1),
            None => (a.skip(k + 1), a.len() as int),
        }
    } else {
        (a.subrange(k, scan(a, k, Stop::Space)), scan(a, k, Stop::Space))
    }
}

/// The name and the raw value, if it has one, of the attribute that starts at
/// `i`, and where what follows it starts.
pub open spec fn attribute(a: Seq<char>, i: int) -> (Seq<char>, Option<Seq<char>>, int) {
    let end = scan(a, i, Stop::NameEnd);
    let j = scan(a, end, Stop::NotSpace);
    let name = a.subrange(i, end);
    if j < a.len() && a[j] == '=' {
        let (raw, next) = raw_value(a, scan(a, j + 1, Stop::NotSpace));
        (name, Some(raw), next)
    } else {
        (name, None, j)
    }
}

proof fn lemma_raw_value(a: Seq<char>, k: int)
    requires
        0 <= k <= a.len(),
    ensures
        k <= raw_value(a, k).1 <= a.len(),
{
    if k < a.len() && (a[k] == '"' || a[k] == '\'') {
        text::lemma_index_from(a, a[k], k + 1);
    } else {
        lemma_scan(a, k, Stop::Space);
    }
}

proof fn lemma_attribute(a: Seq<char>, i: int)
    requires
        0 <= i < a.len(),
        !fetch::is_ascii_space(a[i]),
        a[i] != '/',
    ensures
        i < attribute(a, i).2 <= a.len(),
{
    lemma_scan(a, i, Stop::NameEnd);
    let end = scan(a, i, Stop::NameEnd);
    lemma_scan(a, end, Stop::NotSpace);
    let j = scan(a, end, Stop::NotSpace);
    if j < a.len() && a[j] == '=' {
        lemma_scan(a, j + 1, Stop::NotSpace);
        lemma_raw_value(a, scan(a, j + 1, Stop::NotSpace));
    }
}

/// The value of the attribute called `name`, the first from `i` on.
pub open spec fn lookup(attrs: Seq<(Seq<char>, Seq<char>)>, name: Seq<char>, i: int) -> Option<
    Seq<char>,
>
    decreases attrs.len() - i,
{
    if i < 0 || i >= attrs.len() {
        None
    } else if attrs[i].0 == name {
        Some(attrs[i].1)
    } else {
        lookup(attrs, name, i + 1)
    }
}

/// `attrs` with one more, unless it has no name or its name has come before.
pub open spec fn with_attribute(
    attrs: Seq<(Seq<char>, Seq<char>)>,
    name: Seq<char>,
    raw: Option<Seq<char>>,
) -> Seq<(Seq<char>, Seq<char>)> {
    let value = match raw {
        Some(r) => entities(r),
        None => Seq::empty(),
    };
    if name.len() == 0 || lookup(attrs, text::lowercase(name), 0) is Some {
        attrs
    } else {
        attrs.push((text::lowercase(name), value))
    }
}

/// The attributes from `i` on, behind `attrs`: names in lower case, values with
/// entities replaced, the first of each name.
pub open spec fn attributes(
    a: Seq<char>,
    i: int,
    attrs: Seq<(Seq<char>, Seq<char>)>,
) -> Seq<(Seq<char>, Seq<char>)>
    decreases a.len() - i,
    via attributes_decreases
{
    if i < 0 || i >= a.len() {
        attrs
    } else if fetch::is_ascii_space(a[i]) || a[i] == '/' {
        attributes(a, i + 1, attrs)
    } else {
        let (name, raw, next) = attribute(a, i);
        attributes(a, next, with_attribute(attrs, name, raw))
    }
}

#[via_fn]
proof fn attributes_decreases(a: Seq<char>, i: int, attrs: Seq<(Seq<char>, Seq<char>)>) {
    if 0 <= i < a.len() && !fetch::is_ascii_space(a[i]) && a[i] != '/' {
        lemma_attribute(a, i);
    }
}

/// What is in a run of attributes.
pub open spec fn attrs_view(v: Seq<(Vec<char>, Vec<char>)>) -> Seq<(Seq<char>, Seq<char>)> {
    v.map_values(|t: (Vec<char>, Vec<char>)| (t.0@, t.1@))
}

/// The value of the attribute called `name`.
fn get<'a>(attrs: &'a Vec<(Vec<char>, Vec<char>)>, name: &[char]) -> (r: Option<&'a Vec<char>>)
    ensures
        match r {
            Some(v) => lookup(attrs_view(attrs@), name@, 0) == Some(v@),
            None => lookup(attrs_view(attrs@), name@, 0) is None,
        },
{
    let mut i: usize = 0;
    while i < attrs.len()
        invariant
            i <= attrs@.len(),
            lookup(attrs_view(attrs@), name@, 0) == lookup(attrs_view(attrs@), name@, i as int),
        decreases attrs@.len() - i,
    {
        if same(&attrs[i].0, name) {
            return Some(&attrs[i].1);
        }
        i += 1;
    }
    None
}

fn raw_value_at(a: &[char], k: usize) -> (r: (Vec<char>, usize))
    requires
        k <= a@.len(),
    ensures
        (r.0@, r.1 as int) == raw_value(a@, k as int),
        k <= r.1 <= a@.len(),
{
    let n: usize = a.len();
    proof {
        lemma_raw_value(a@, k as int);
    }
    if k < n && (a[k] == '"' || a[k] == '\'') {
        match index_at(a, a[k], k + 1) {
            Some(close) => (piece(a, k + 1, close), close + 1),
            None => {
                let raw = piece(a, k + 1, n);
                assert(raw@ =~= a@.skip(k + 1));
                (raw, n)
            },
        }
    } else {
        let end = scan_at(a, k, Stop::Space);
        (piece(a, k, end), end)
    }
}

/// The attributes of a tag: names in lower case, values with entities replaced,
/// the first of each name.
pub fn parse_attrs(a: &[char]) -> (r: Vec<(Vec<char>, Vec<char>)>)
    ensures
        attrs_view(r@) == attributes(a@, 0, Seq::empty()),
{
    let n: usize = a.len();
    let mut out: Vec<(Vec<char>, Vec<char>)> = Vec::new();
    let mut i: usize = 0;
    assert(attrs_view(out@) =~= Seq::empty());
    while i < n
        invariant
            n == a@.len(),
            i <= n,
            attributes(a@, i as int, attrs_view(out@)) == attributes(a@, 0, Seq::empty()),
        decreases n - i,
    {
        if ascii_space(a[i]) || a[i] == '/' {
            i += 1;
            continue;
        }
        proof {
            lemma_attribute(a@, i as int);
            lemma_scan(a@, i as int, Stop::NameEnd);
        }
        let end = scan_at(a, i, Stop::NameEnd);
        let name = piece(a, i, end);
        let j = scan_at(a, end, Stop::NotSpace);
        let mut value: Vec<char> = Vec::new();
        let mut next: usize = j;
        assert(value@ =~= Seq::<char>::empty());
        if j < n && a[j] == '=' {
            let k = scan_at(a, j + 1, Stop::NotSpace);
            let (raw, after) = raw_value_at(a, k);
            value = decode_entities(&raw);
            next = after;
        }
        let ghost (want_name, want_raw, want_next) = attribute(a@, i as int);
        assert(want_name == name@ && want_next == next);
        let low = lowered(&name);
        let ghost before = attrs_view(out@);
        if name.len() > 0 && get(&out, &low).is_none() {
            out.push((low, value));
            assert(attrs_view(out@) =~= before.push((low@, value@)));
        }
        assert(attrs_view(out@) == with_attribute(before, want_name, want_raw));
        i = next;
    }
    out
}

// ---------------------------------------------------------------------------
// Tags
// ---------------------------------------------------------------------------

/// The index of the `>` that closes the tag, from `i` on; quoted values are
/// skipped. The end where nothing closes it.
pub open spec fn tag_end(s: Seq<char>, i: int, quote: Option<char>) -> int
    decreases s.len() - i,
{
    if i >= s.len() {
        s.len() as int
    } else {
        match quote {
            Some(q) => tag_end(
                s,
                i + 1,
                if s[i] == q {
                    None
                } else {
                    quote
                },
            ),
            None => if s[i] == '>' {
                i
            } else if s[i] == '"' || s[i] == '\'' {
                tag_end(s, i + 1, Some(s[i]))
            } else {
                tag_end(s, i + 1, None)
            },
        }
    }
}

/// The length that an attribute or else the inline style gives.
pub open spec fn length_of(attrs: Seq<(Seq<char>, Seq<char>)>, name: Seq<char>) -> Option<int> {
    let own = match lookup(attrs, name, 0) {
        Some(v) => css::css_pixels(v),
        None => None,
    };
    if own is Some {
        own
    } else {
        match lookup(attrs, "style"@, 0) {
            Some(style) => css::style_pixels(style, name),
            None => None,
        }
    }
}

/// The reference that a tag with these attributes makes, if it has a source.
pub open spec fn reference(attrs: Seq<(Seq<char>, Seq<char>)>, offset: int) -> Option<RefView> {
    match lookup(attrs, "src"@, 0) {
        Some(raw) => {
            let src = text::trim(raw, CharClass::Space);
            if src.len() == 0 {
                None
            } else {
                Some(
                    RefView {
                        src,
                        width: length_of(attrs, "width"@),
                        height: length_of(attrs, "height"@),
                        alt: lookup(attrs, "alt"@, 0),
                        class: lookup(attrs, "class"@, 0),
                        offset,
                    },
                )
            }
        },
        None => None,
    }
}

/// Whether one of `refs` has the source `src`.
pub open spec fn has_source(refs: Seq<RefView>, src: Seq<char>) -> bool {
    exists|i: int| 0 <= i < refs.len() && (#[trigger] refs[i]).src == src
}

/// `refs` with one more, unless its source has come before.
pub open spec fn with_reference(refs: Seq<RefView>, r: Option<RefView>) -> Seq<RefView> {
    match r {
        Some(one) => if has_source(refs, one.src) {
            refs
        } else {
            refs.push(one)
        },
        None => refs,
    }
}

/// Whether a tag's name ends at `i`.
pub open spec fn name_ends(s: Seq<char>, i: int) -> bool {
    i < s.len() && (fetch::is_ascii_space(s[i]) || s[i] == '/' || s[i] == '>')
}

/// The references from `pos` on, behind `refs`: in document order, one for each
/// source.
pub open spec fn references(s: Seq<char>, pos: int, refs: Seq<RefView>) -> Seq<RefView>
    decreases s.len() - pos,
    via references_decreases
{
    match text::find_from(text::lowercase(s), "<img"@, pos) {
        Some(start) => {
            let after = start + 4;
            let end = tag_end(s, after, None);
            if !name_ends(s, after) {
                references(s, after, refs)
            } else {
                let attrs = attributes(s.subrange(after, end), 0, Seq::empty());
                let next = if end < s.len() {
                    end + 1
                } else {
                    s.len() as int
                };
                references(
                    s,
                    next,
                    with_reference(refs, reference(attrs, text::byte_len(s.take(start)) as int)),
                )
            }
        },
        None => refs,
    }
}

proof fn lemma_tag_end(s: Seq<char>, i: int, quote: Option<char>)
    requires
        i <= s.len(),
    ensures
        i <= tag_end(s, i, quote) <= s.len(),
    decreases s.len() - i,
{
    if i < s.len() {
        match quote {
            Some(q) => {
                lemma_tag_end(
                    s,
                    i + 1,
                    if s[i] == q {
                        None
                    } else {
                        quote
                    },
                );
            },
            None => {
                if s[i] == '"' || s[i] == '\'' {
                    lemma_tag_end(s, i + 1, Some(s[i]));
                } else if s[i] != '>' {
                    lemma_tag_end(s, i + 1, None);
                }
            },
        }
    }
}

proof fn lemma_found(s: Seq<char>, pos: int)
    ensures
        text::find_from(text::lowercase(s), "<img"@, pos) matches Some(start) ==> pos <= start
            && 0 <= start && start + 4 <= s.len(),
{
    reveal_strlit("<img");
    if pos >= 0 {
        text::lemma_find_from(text::lowercase(s), "<img"@, pos);
    }
}

#[via_fn]
proof fn references_decreases(s: Seq<char>, pos: int, refs: Seq<RefView>) {
    lemma_found(s, pos);
    if let Some(start) = text::find_from(text::lowercase(s), "<img"@, pos) {
        lemma_tag_end(s, start + 4, None);
    }
}

fn tag_end_at(s: &[char], from: usize) -> (r: usize)
    requires
        from <= s@.len(),
    ensures
        r == tag_end(s@, from as int, None),
        from <= r <= s@.len(),
{
    let n: usize = s.len();
    let mut quote: Option<char> = None;
    let mut i: usize = from;
    while i < n
        invariant
            n == s@.len(),
            from <= i <= n,
            tag_end(s@, i as int, quote) == tag_end(s@, from as int, None),
        decreases n - i,
    {
        let c: char = s[i];
        match quote {
            Some(q) => {
                if c == q {
                    quote = None;
                }
            },
            None => {
                if c == '>' {
                    return i;
                }
                if c == '"' || c == '\'' {
                    quote = Some(c);
                }
            },
        }
        i += 1;
    }
    n
}

fn length_in(attrs: &Vec<(Vec<char>, Vec<char>)>, name: &str) -> (r: Option<u32>)
    ensures
        as_int(r) == length_of(attrs_view(attrs@), name@),
{
    let key = chars_of(name);
    let own: Option<u32> = match get(attrs, &key) {
        Some(v) => css_px(v),
        None => None,
    };
    if own.is_some() {
        return own;
    }
    match get(attrs, &chars_of("style")) {
        Some(style) => style_px(style, &key),
        None => None,
    }
}

fn text_in(attrs: &Vec<(Vec<char>, Vec<char>)>, name: &str) -> (r: Option<String>)
    ensures
        as_chars(r) == lookup(attrs_view(attrs@), name@, 0),
{
    match get(attrs, &chars_of(name)) {
        Some(v) => Some(string_of(v)),
        None => None,
    }
}

fn reference_of(attrs: &Vec<(Vec<char>, Vec<char>)>, offset: usize) -> (r: Option<ImgRef>)
    ensures
        match r {
            Some(one) => reference(attrs_view(attrs@), offset as int) == Some(one@),
            None => reference(attrs_view(attrs@), offset as int) is None,
        },
{
    match get(attrs, &chars_of("src")) {
        Some(raw) => {
            let src = trimmed(raw, CharClass::Space);
            if src.len() == 0 {
                None
            } else {
                Some(
                    ImgRef {
                        src: string_of(&src),
                        width: length_in(attrs, "width"),
                        height: length_in(attrs, "height"),
                        alt: text_in(attrs, "alt"),
                        class: text_in(attrs, "class"),
                        offset,
                    },
                )
            }
        },
        None => None,
    }
}

fn source_known(refs: &Vec<ImgRef>, src: &str) -> (r: bool)
    ensures
        r == has_source(refs_view(refs@), src@),
{
    let want = chars_of(src);
    let mut i: usize = 0;
    while i < refs.len()
        invariant
            i <= refs@.len(),
            want@ == src@,
            forall|j: int| 0 <= j < i ==> (#[trigger] refs_view(refs@)[j]).src != src@,
        decreases refs@.len() - i,
    {
        assert(refs_view(refs@)[i as int].src == refs@[i as int].src@);
        if same(&chars_of(refs[i].src.as_str()), &want) {
            return true;
        }
        i += 1;
    }
    false
}

/// The bytes before an index are no more than all of them.
proof fn lemma_bytes_before(s: Seq<char>, i: int)
    requires
        0 <= i <= s.len(),
    ensures
        text::byte_len(s.take(i)) <= text::byte_len(s),
{
    text::lemma_byte_len_concat(s.take(i), s.skip(i));
    assert(s.take(i) + s.skip(i) =~= s);
}

/// How many bytes stand before `to`, given how many stand before `from`.
fn bytes_before(s: &[char], from: usize, known: usize, to: usize) -> (r: usize)
    requires
        from <= to <= s@.len(),
        known == text::byte_len(s@.take(from as int)),
        text::byte_len(s@) <= usize::MAX,
    ensures
        r == text::byte_len(s@.take(to as int)),
{
    let mut total: usize = known;
    let mut i: usize = from;
    while i < to
        invariant
            from <= i <= to <= s@.len(),
            total == text::byte_len(s@.take(i as int)),
            text::byte_len(s@) <= usize::MAX,
        decreases to - i,
    {
        proof {
            let one = seq![s@[i as int]];
            assert(s@.take(i + 1) =~= s@.take(i as int) + one);
            text::lemma_byte_len_concat(s@.take(i as int), one);
            text::lemma_byte_len(one);
            assert(one.drop_first() =~= Seq::<char>::empty());
            lemma_bytes_before(s@, i + 1);
        }
        total += char_byte_len(s[i]);
        i += 1;
    }
    total
}

/// Every `<img>` with a source, in document order, one for each source.
pub fn img_refs(html: &str) -> (r: Vec<ImgRef>)
    ensures
        refs_view(r@) == references(html@, 0, Seq::empty()),
{
    let all: usize = html.as_bytes().len();
    let s = chars_of(html);
    let low = lowered(&s);
    let needle = chars_of("<img");
    let n: usize = s.len();
    let mut refs: Vec<ImgRef> = Vec::new();
    let mut pos: usize = 0;
    let mut known: usize = 0;
    proof {
        assert(all == text::byte_len(html@));
        assert(refs_view(refs@) =~= Seq::empty());
        assert(s@.take(0) =~= Seq::<char>::empty());
        reveal_strlit("<img");
    }
    loop
        invariant
            all == text::byte_len(html@),
            s@ == html@,
            low@ == text::lowercase(s@),
            needle@ == "<img"@,
            needle@.len() == 4,
            n == s@.len(),
            pos <= n,
            known == text::byte_len(s@.take(pos as int)),
            references(s@, pos as int, refs_view(refs@)) == references(html@, 0, Seq::empty()),
        decreases n - pos,
    {
        match find_at(&low, &needle, pos) {
            Some(start) => {
                proof {
                    lemma_found(s@, pos as int);
                    lemma_tag_end(s@, start + 4, None);
                }
                let after: usize = start + 4;
                let offset = bytes_before(&s, pos, known, start);
                if !(after < n && (ascii_space(s[after]) || s[after] == '/' || s[after] == '>')) {
                    known = bytes_before(&s, start, offset, after);
                    pos = after;
                    continue;
                }
                let end = tag_end_at(&s, after);
                let tag = piece(&s, after, end);
                let attrs = parse_attrs(&tag);
                let ghost before = refs_view(refs@);
                let ghost found = reference(attrs_view(attrs@), offset as int);
                match reference_of(&attrs, offset) {
                    Some(one) => {
                        if !source_known(&refs, one.src.as_str()) {
                            refs.push(one);
                            assert(refs_view(refs@) =~= before.push(one@));
                        }
                    },
                    None => {},
                }
                assert(refs_view(refs@) == with_reference(before, found));
                let next: usize = if end < n {
                    end + 1
                } else {
                    n
                };
                known = bytes_before(&s, start, offset, next);
                pos = next;
            },
            None => {
                return refs;
            },
        }
    }
}

/// Whether no two of `refs` have the same source, and each stands behind those
/// before it, all within the first `bytes` bytes.
pub open spec fn in_order(refs: Seq<RefView>, bytes: int) -> bool {
    &&& forall|i: int, j: int|
        0 <= i < j < refs.len() ==> (#[trigger] refs[i]).src != (#[trigger] refs[j]).src
            && refs[i].offset < refs[j].offset
    &&& forall|i: int| 0 <= i < refs.len() ==> 0 <= (#[trigger] refs[i]).offset < bytes
}

/// More characters take more bytes.
proof fn lemma_bytes_grow(s: Seq<char>, i: int, j: int)
    requires
        0 <= i <= j <= s.len(),
    ensures
        text::byte_len(s.take(i)) <= text::byte_len(s.take(j)),
        i < j ==> text::byte_len(s.take(i)) < text::byte_len(s.take(j)),
{
    let more = s.subrange(i, j);
    assert(s.take(j) =~= s.take(i) + more);
    text::lemma_byte_len_concat(s.take(i), more);
    text::lemma_byte_len_bounds(more);
}

proof fn lemma_in_order(s: Seq<char>, pos: int, refs: Seq<RefView>)
    requires
        0 <= pos <= s.len(),
        in_order(refs, text::byte_len(s.take(pos)) as int),
    ensures
        in_order(references(s, pos, refs), text::byte_len(s) as int),
    decreases s.len() - pos,
{
    lemma_found(s, pos);
    match text::find_from(text::lowercase(s), "<img"@, pos) {
        Some(start) => {
            let after = start + 4;
            let end = tag_end(s, after, None);
            lemma_tag_end(s, after, None);
            lemma_bytes_grow(s, pos, start);
            if !name_ends(s, after) {
                lemma_bytes_grow(s, pos, after);
                lemma_in_order(s, after, refs);
            } else {
                let attrs = attributes(s.subrange(after, end), 0, Seq::empty());
                let next = if end < s.len() {
                    end + 1
                } else {
                    s.len() as int
                };
                let one = reference(attrs, text::byte_len(s.take(start)) as int);
                let more = with_reference(refs, one);
                lemma_bytes_grow(s, start, next);
                assert(in_order(more, text::byte_len(s.take(next)) as int)) by {
                    if one is Some && !has_source(refs, one->0.src) {
                        assert forall|i: int| 0 <= i < refs.len() implies (#[trigger] refs[i]).src
                            != one->0.src by {}
                    }
                }
                lemma_in_order(s, next, more);
            }
        },
        None => {
            lemma_bytes_grow(s, pos, s.len() as int);
            assert(s.take(s.len() as int) =~= s);
        },
    }
}

/// References come in document order, each source once.
pub proof fn references_are_in_order(s: Seq<char>)
    ensures
        in_order(references(s, 0, Seq::empty()), text::byte_len(s) as int),
{
    lemma_in_order(s, 0, Seq::empty());
}

/// A text without an ampersand has no entities.
pub proof fn text_without_entities_stays(s: Seq<char>)
    requires
        !s.contains('&'),
    ensures
        entities(s) == s,
{
    text::lemma_index_from(s, '&', 0);
}

} // verus!
