//! What language a text is written in, and whether it is a word to look up.
//!
//! Only prose tells: identifiers, addresses and statements of a program do not
//! count.

use crate::text;
use crate::text::chars_of;
use crate::text::lowered;
use crate::text::matches_at;
use crate::text::piece;
use crate::text::same;
use crate::text::space;
use crate::text::split_at_char;
use crate::text::trim_end_at;
use crate::text::trim_start_at;
use crate::text::trimmed;
use crate::text::CharClass;
use vstd::prelude::*;

verus! {

/// How many characters a word to look up has at most.
pub const LOOKUP_MAX_CHARS: usize = 40;

/// Words that only stand in English sentences, never as terms in Korean ones.
pub const EN_FUNCTION_WORDS: [&'static str; 51] = [
    "the",
    "a",
    "an",
    "and",
    "or",
    "of",
    "to",
    "in",
    "on",
    "for",
    "with",
    "is",
    "are",
    "was",
    "were",
    "be",
    "been",
    "this",
    "that",
    "it",
    "we",
    "you",
    "they",
    "not",
    "by",
    "from",
    "as",
    "at",
    "if",
    "then",
    "when",
    "which",
    "who",
    "will",
    "would",
    "can",
    "could",
    "should",
    "has",
    "have",
    "had",
    "do",
    "does",
    "did",
    "but",
    "so",
    "than",
    "into",
    "please",
    "after",
    "before",
];

/// Korean particles and sentence endings, at the end of a word.
pub const KO_MARKERS: [&'static str; 24] = [
    "은",
    "는",
    "이",
    "가",
    "을",
    "를",
    "의",
    "에",
    "에서",
    "로",
    "으로",
    "와",
    "과",
    "도",
    "만",
    "까지",
    "부터",
    "다",
    "요",
    "니다",
    "함",
    "음",
    "됨",
    "임",
];

/// Whether a character is Hangul.
pub open spec fn is_hangul(c: char) -> bool {
    '\u{ac00}' <= c <= '\u{d7a3}' || '\u{1100}' <= c <= '\u{11ff}' || '\u{3131}' <= c
        <= '\u{318e}'
}

/// Whether a character is a letter of the English alphabet.
pub open spec fn is_latin(c: char) -> bool {
    'a' <= c <= 'z' || 'A' <= c <= 'Z'
}

/// How many characters are Hangul.
pub open spec fn hangul_count(s: Seq<char>) -> nat
    decreases s.len(),
{
    if s.len() == 0 {
        0
    } else if is_hangul(s.last()) {
        hangul_count(s.drop_last()) + 1
    } else {
        hangul_count(s.drop_last())
    }
}

/// Whether a word ends as Korean words in a sentence do.
pub open spec fn has_korean_marker(s: Seq<char>) -> bool {
    exists|i: int| 0 <= i < KO_MARKERS@.len() && text::ends_with(s, (#[trigger] KO_MARKERS@[i])@)
}

/// Whether a word is one of the [`EN_FUNCTION_WORDS`], in any case.
pub open spec fn is_function_word(s: Seq<char>) -> bool {
    exists|i: int|
        0 <= i < EN_FUNCTION_WORDS@.len() && text::lowercase(s) == (
        #[trigger] EN_FUNCTION_WORDS@[i])@
}

/// Whether a word is an abbreviation or a keyword in capitals.
pub open spec fn is_all_caps(s: Seq<char>) -> bool {
    s.len() >= 2 && forall|i: int| 0 <= i < s.len() ==> 'A' <= #[trigger] s[i] <= 'Z'
}

/// Characters of identifiers, paths, addresses and operators.
pub open spec fn is_symbol(c: char) -> bool {
    ||| c == '_' || c == '.' || c == ':' || c == '/' || c == '\\' || c == '='
    ||| c == '(' || c == ')' || c == '{' || c == '}' || c == '[' || c == ']' || c == '<' || c == '>'
    ||| c == '@' || c == '#' || c == '$' || c == '%' || c == '^' || c == '&' || c == '*'
    ||| c == '|' || c == '~' || c == '+'
}

/// Whether a word is an identifier, a path, an address or an operator.
pub open spec fn is_code_like(s: Seq<char>) -> bool {
    exists|i: int| 0 <= i < s.len() && is_symbol(#[trigger] s[i])
}

/// Whether a word is made of English letters, two at least.
pub open spec fn is_word(s: Seq<char>) -> bool {
    s.len() >= 2 && forall|i: int| 0 <= i < s.len() ==> is_latin(#[trigger] s[i])
}

/// Whether a line is a statement of a program.
pub open spec fn is_code_line(line: Seq<char>) -> bool {
    let t = text::trim_end(line, CharClass::Space);
    t.len() > 0 && (t.last() == ';' || t.last() == '{' || t.last() == '}')
}

/// What counts for and against a language.
#[verifier::ext_equal]
pub struct Tally {
    /// Hangul characters.
    pub hangul: nat,
    /// Letters of English words.
    pub latin: nat,
    /// Words that end as Korean words do.
    pub markers: nat,
    /// English function words.
    pub functions: nat,
}

/// Nothing counted.
pub open spec fn nothing() -> Tally {
    Tally { hangul: 0, latin: 0, markers: 0, functions: 0 }
}

/// Both counts together.
pub open spec fn both(a: Tally, b: Tally) -> Tally {
    Tally {
        hangul: a.hangul + b.hangul,
        latin: a.latin + b.latin,
        markers: a.markers + b.markers,
        functions: a.functions + b.functions,
    }
}

/// What a word without punctuation around it counts for.
pub open spec fn core_tally(core: Seq<char>, code_line: bool) -> Tally {
    if hangul_count(core) > 0 {
        Tally {
            hangul: hangul_count(core),
            latin: 0,
            markers: if has_korean_marker(core) {
                1
            } else {
                0
            },
            functions: 0,
        }
    } else if !code_line && !is_code_like(core) && !is_all_caps(core) && is_word(core) {
        Tally {
            hangul: 0,
            latin: core.len(),
            markers: 0,
            functions: if is_function_word(core) {
                1
            } else {
                0
            },
        }
    } else {
        nothing()
    }
}

/// Where the white space after a word begins.
pub open spec fn word_end(s: Seq<char>, from: int) -> int
    decreases s.len() - from,
{
    if from < 0 || from >= s.len() || text::is_space(s[from]) {
        from
    } else {
        word_end(s, from + 1)
    }
}

/// The words of a text: what stands between white space.
pub open spec fn words(s: Seq<char>) -> Seq<Seq<char>>
    decreases s.len(),
    via words_decreases
{
    let t = text::trim_start(s, CharClass::Space);
    if t.len() == 0 {
        seq![]
    } else {
        seq![t.take(word_end(t, 0))] + words(t.skip(word_end(t, 0)))
    }
}

#[via_fn]
proof fn words_decreases(s: Seq<char>) {
    let t = text::trim_start(s, CharClass::Space);
    lemma_trim_start_len(s);
    if t.len() > 0 {
        lemma_word_end(t, 0);
        lemma_first_is_no_space(s);
        assert(word_end(t, 0) > 0) by {
            lemma_word_end(t, 1);
        }
    }
}

proof fn lemma_trim_start_len(s: Seq<char>)
    ensures
        text::trim_start(s, CharClass::Space).len() <= s.len(),
    decreases s.len(),
{
    if s.len() > 0 && text::is_space(s[0]) {
        lemma_trim_start_len(s.drop_first());
    }
}

proof fn lemma_first_is_no_space(s: Seq<char>)
    ensures
        text::trim_start(s, CharClass::Space).len() > 0 ==> !text::is_space(
            text::trim_start(s, CharClass::Space)[0],
        ),
    decreases s.len(),
{
    if s.len() > 0 && text::is_space(s[0]) {
        lemma_first_is_no_space(s.drop_first());
    }
}

proof fn lemma_word_end(s: Seq<char>, from: int)
    requires
        0 <= from <= s.len(),
    ensures
        from <= word_end(s, from) <= s.len(),
        forall|j: int| from <= j < word_end(s, from) ==> !text::is_space(#[trigger] s[j]),
        word_end(s, from) < s.len() ==> text::is_space(s[word_end(s, from)]),
    decreases s.len() - from,
{
    if from < s.len() && !text::is_space(s[from]) {
        lemma_word_end(s, from + 1);
    }
}

/// What words count for.
pub open spec fn words_tally(v: Seq<Seq<char>>, code_line: bool) -> Tally
    decreases v.len(),
{
    if v.len() == 0 {
        nothing()
    } else {
        both(
            words_tally(v.drop_last(), code_line),
            core_tally(text::trim(v.last(), CharClass::Punctuation), code_line),
        )
    }
}

/// What a line counts for.
pub open spec fn line_tally(line: Seq<char>) -> Tally {
    words_tally(words(line), is_code_line(line))
}

/// What lines count for.
pub open spec fn lines_tally(v: Seq<Seq<char>>) -> Tally
    decreases v.len(),
{
    if v.len() == 0 {
        nothing()
    } else {
        both(lines_tally(v.drop_last()), line_tally(v.last()))
    }
}

/// What a text counts for.
pub open spec fn text_tally(s: Seq<char>) -> Tally {
    lines_tally(text::split(s, '\n'))
}

/// Whether the count says Korean: grammar decides, and where it does not, the
/// script. One Hangul character weighs as much as two and a half letters.
pub open spec fn says_korean(t: Tally) -> bool {
    if t.markers != t.functions {
        t.markers > t.functions
    } else {
        t.hangul + t.latin > 0 && 5 * t.hangul >= 2 * t.latin
    }
}

// ---------------------------------------------------------------------------
// Counting
// ---------------------------------------------------------------------------

fn count_hangul(v: &[char]) -> (n: usize)
    ensures
        n == hangul_count(v@),
        n <= v@.len(),
{
    let mut n: usize = 0;
    let mut i: usize = 0;
    assert(v@.take(0) =~= seq![]);
    while i < v.len()
        invariant
            i <= v@.len(),
            n <= i,
            n == hangul_count(v@.take(i as int)),
        decreases v.len() - i,
    {
        let c = v[i];
        assert(v@.take(i + 1).drop_last() =~= v@.take(i as int));
        if ('\u{ac00}' <= c && c <= '\u{d7a3}') || ('\u{1100}' <= c && c <= '\u{11ff}') || (
        '\u{3131}' <= c && c <= '\u{318e}') {
            n += 1;
        }
        i += 1;
    }
    assert(v@.take(i as int) =~= v@);
    n
}

fn ends_korean(v: &[char]) -> (r: bool)
    ensures
        r == has_korean_marker(v@),
{
    let mut i: usize = 0;
    while i < KO_MARKERS.len()
        invariant
            i <= KO_MARKERS@.len(),
            forall|j: int| 0 <= j < i ==> !text::ends_with(v@, (#[trigger] KO_MARKERS@[j])@),
        decreases KO_MARKERS.len() - i,
    {
        let m = chars_of(KO_MARKERS[i]);
        if m.len() <= v.len() && matches_at(v, &m, v.len() - m.len()) {
            assert(text::ends_with(v@, KO_MARKERS@[i as int]@));
            return true;
        }
        i += 1;
    }
    false
}

fn function_word(v: &[char]) -> (r: bool)
    ensures
        r == is_function_word(v@),
{
    let low = lowered(v);
    let mut i: usize = 0;
    while i < EN_FUNCTION_WORDS.len()
        invariant
            i <= EN_FUNCTION_WORDS@.len(),
            low@ == text::lowercase(v@),
            forall|j: int|
                0 <= j < i ==> text::lowercase(v@) != (#[trigger] EN_FUNCTION_WORDS@[j])@,
        decreases EN_FUNCTION_WORDS.len() - i,
    {
        let w = chars_of(EN_FUNCTION_WORDS[i]);
        if same(&low, &w) {
            assert(text::lowercase(v@) == EN_FUNCTION_WORDS@[i as int]@);
            return true;
        }
        i += 1;
    }
    false
}

fn all_caps(v: &[char]) -> (r: bool)
    ensures
        r == is_all_caps(v@),
{
    let mut i: usize = 0;
    while i < v.len()
        invariant
            i <= v@.len(),
            forall|j: int| 0 <= j < i ==> 'A' <= #[trigger] v@[j] <= 'Z',
        decreases v.len() - i,
    {
        if !('A' <= v[i] && v[i] <= 'Z') {
            return false;
        }
        i += 1;
    }
    v.len() >= 2
}

fn code_like(v: &[char]) -> (r: bool)
    ensures
        r == is_code_like(v@),
{
    let mut i: usize = 0;
    while i < v.len()
        invariant
            i <= v@.len(),
            forall|j: int| 0 <= j < i ==> !is_symbol(#[trigger] v@[j]),
        decreases v.len() - i,
    {
        let c = v[i];
        if c == '_' || c == '.' || c == ':' || c == '/' || c == '\\' || c == '=' || c == '(' || c
            == ')' || c == '{' || c == '}' || c == '[' || c == ']' || c == '<' || c == '>' || c
            == '@' || c == '#' || c == '$' || c == '%' || c == '^' || c == '&' || c == '*' || c
            == '|' || c == '~' || c == '+' {
            assert(is_symbol(v@[i as int]));
            return true;
        }
        i += 1;
    }
    false
}

fn english_word(v: &[char]) -> (r: bool)
    ensures
        r == is_word(v@),
{
    let mut i: usize = 0;
    while i < v.len()
        invariant
            i <= v@.len(),
            forall|j: int| 0 <= j < i ==> is_latin(#[trigger] v@[j]),
        decreases v.len() - i,
    {
        let c = v[i];
        if !(('a' <= c && c <= 'z') || ('A' <= c && c <= 'Z')) {
            return false;
        }
        i += 1;
    }
    v.len() >= 2
}

fn code_line(v: &[char]) -> (r: bool)
    ensures
        r == is_code_line(v@),
{
    let end = trim_end_at(v, 0, CharClass::Space);
    assert(v@.skip(0) =~= v@);
    assert(end > 0 ==> v@.subrange(0, end as int).last() == v@[end - 1]);
    end > 0 && (v[end - 1] == ';' || v[end - 1] == '{' || v[end - 1] == '}')
}

/// The words of a text.
fn words_of(v: &[char]) -> (r: Vec<Vec<char>>)
    ensures
        text::views(r@) == words(v@),
{
    let mut r: Vec<Vec<char>> = Vec::new();
    let mut rest = piece(v, 0, v.len());
    assert(rest@ =~= v@);
    assert(text::views(r@) + words(v@) =~= words(v@));
    loop
        invariant_except_break
            text::views(r@) + words(rest@) == words(v@),
        ensures
            text::views(r@) == words(v@),
        decreases rest@.len(),
    {
        let start = trim_start_at(&rest, CharClass::Space);
        let ghost t = rest@.skip(start as int);
        let total: usize = rest.len();
        if start == total {
            assert(t =~= seq![]);
            assert(text::views(r@) + words(rest@) =~= text::views(r@));
            break;
        }
        let mut end: usize = start;
        while end < total && !space(rest[end])
            invariant
                start <= end <= total,
                total == rest@.len(),
                t == rest@.skip(start as int),
                word_end(t, 0) == word_end(t, end - start),
            decreases total - end,
        {
            assert(t[end - start] == rest@[end as int]);
            end += 1;
        }
        assert(end < total ==> t[end - start] == rest@[end as int]);
        assert(word_end(t, 0) == end - start);
        let word = piece(&rest, start, end);
        assert(word@ =~= t.take(end - start));
        let next = piece(&rest, end, total);
        assert(next@ =~= t.skip(end - start));
        proof {
            assert(!text::is_space(t[0]));
            lemma_word_end(t, 1);
            assert(end > start);
            let before = text::views(r@);
            assert(words(rest@) == seq![word@] + words(next@));
            assert(before + (seq![word@] + words(next@)) =~= before.push(word@) + words(next@));
            assert(text::views(r@.push(word)) =~= before.push(word@));
        }
        r.push(word);
        rest = next;
    }
    r
}

/// A [`Tally`] that is being counted.
struct Count {
    hangul: usize,
    latin: usize,
    markers: usize,
    functions: usize,
}

impl Count {
    spec fn view(&self) -> Tally {
        Tally {
            hangul: self.hangul as nat,
            latin: self.latin as nat,
            markers: self.markers as nat,
            functions: self.functions as nat,
        }
    }

    fn none() -> (r: Self)
        ensures
            r@ == nothing(),
    {
        Count { hangul: 0, latin: 0, markers: 0, functions: 0 }
    }

    fn join(&mut self, other: Count)
        requires
            at_most(both(old(self)@, other@), usize::MAX as int),
        ensures
            final(self)@ == both(old(self)@, other@),
    {
        self.hangul += other.hangul;
        self.latin += other.latin;
        self.markers += other.markers;
        self.functions += other.functions;
    }
}

/// No count exceeds `n`.
spec fn at_most(t: Tally, n: int) -> bool {
    t.hangul <= n && t.latin <= n && t.markers <= n && t.functions <= n
}

/// How long texts are together.
spec fn total_len(v: Seq<Seq<char>>) -> nat
    decreases v.len(),
{
    if v.len() == 0 {
        0
    } else {
        total_len(v.drop_last()) + v.last().len()
    }
}

proof fn lemma_total_len_front(a: Seq<char>, v: Seq<Seq<char>>)
    ensures
        total_len(seq![a] + v) == a.len() + total_len(v),
    decreases v.len(),
{
    let w = seq![a] + v;
    if v.len() == 0 {
        assert(w.drop_last() =~= seq![]);
        assert(total_len(w.drop_last()) == 0);
    } else {
        assert(w.drop_last() =~= seq![a] + v.drop_last());
        lemma_total_len_front(a, v.drop_last());
    }
}

proof fn lemma_total_len_take(v: Seq<Seq<char>>, n: int)
    requires
        0 <= n <= v.len(),
    ensures
        total_len(v.take(n)) <= total_len(v),
    decreases v.len(),
{
    if n < v.len() {
        assert(v.drop_last().take(n) =~= v.take(n));
        lemma_total_len_take(v.drop_last(), n);
    } else {
        assert(v.take(n) =~= v);
    }
}

proof fn lemma_words_len(s: Seq<char>)
    ensures
        total_len(words(s)) <= s.len(),
    decreases s.len(),
{
    let t = text::trim_start(s, CharClass::Space);
    lemma_trim_start_len(s);
    if t.len() > 0 {
        lemma_first_is_no_space(s);
        lemma_word_end(t, 0);
        lemma_word_end(t, 1);
        let n = word_end(t, 0);
        lemma_words_len(t.skip(n));
        lemma_total_len_front(t.take(n), words(t.skip(n)));
    }
}

proof fn lemma_split_len(s: Seq<char>, c: char)
    ensures
        total_len(text::split(s, c)) <= s.len(),
    decreases s.len(),
{
    text::lemma_index_from(s, c, 0);
    match text::index_from(s, c, 0) {
        Some(i) => {
            lemma_split_len(s.skip(i + 1), c);
            lemma_total_len_front(s.take(i), text::split(s.skip(i + 1), c));
        },
        None => {
            lemma_total_len_front(s, seq![]);
            assert(seq![s] + seq![] =~= seq![s]);
        },
    }
}

proof fn lemma_trim_len(s: Seq<char>, class: CharClass)
    ensures
        text::trim(s, class).len() <= s.len(),
{
    lemma_trim_start_short(s, class);
    lemma_trim_end_short(text::trim_start(s, class), class);
}

proof fn lemma_trim_start_short(s: Seq<char>, class: CharClass)
    ensures
        text::trim_start(s, class).len() <= s.len(),
    decreases s.len(),
{
    if s.len() > 0 && text::class_has(class, s[0]) {
        lemma_trim_start_short(s.drop_first(), class);
    }
}

proof fn lemma_trim_end_short(s: Seq<char>, class: CharClass)
    ensures
        text::trim_end(s, class).len() <= s.len(),
    decreases s.len(),
{
    if s.len() > 0 && text::class_has(class, s.last()) {
        lemma_trim_end_short(s.drop_last(), class);
    }
}

proof fn lemma_hangul_len(s: Seq<char>)
    ensures
        hangul_count(s) <= s.len(),
    decreases s.len(),
{
    if s.len() > 0 {
        lemma_hangul_len(s.drop_last());
    }
}

proof fn lemma_words_bound(v: Seq<Seq<char>>, code: bool)
    ensures
        at_most(words_tally(v, code), total_len(v) as int),
    decreases v.len(),
{
    if v.len() > 0 {
        lemma_words_bound(v.drop_last(), code);
        let core = text::trim(v.last(), CharClass::Punctuation);
        lemma_trim_len(v.last(), CharClass::Punctuation);
        lemma_hangul_len(core);
    }
}

proof fn lemma_lines_bound(v: Seq<Seq<char>>)
    ensures
        at_most(lines_tally(v), total_len(v) as int),
    decreases v.len(),
{
    if v.len() > 0 {
        lemma_lines_bound(v.drop_last());
        lemma_words_len(v.last());
        lemma_words_bound(words(v.last()), is_code_line(v.last()));
    }
}

fn count_core(core: &[char], on_code_line: bool) -> (r: Count)
    ensures
        r@ == core_tally(core@, on_code_line),
{
    let n = count_hangul(core);
    if n > 0 {
        let m: usize = if ends_korean(core) {
            1
        } else {
            0
        };
        return Count { hangul: n, latin: 0, markers: m, functions: 0 };
    }
    if !on_code_line && !code_like(core) && !all_caps(core) && english_word(core) {
        let f: usize = if function_word(core) {
            1
        } else {
            0
        };
        return Count { hangul: 0, latin: core.len(), markers: 0, functions: f };
    }
    Count::none()
}

fn count_line(line: &[char]) -> (r: Count)
    ensures
        r@ == line_tally(line@),
{
    let on_code_line = code_line(line);
    let all = words_of(line);
    let ghost v = words(line@);
    let total: usize = line.len();
    let mut r = Count::none();
    let mut i: usize = 0;
    assert(v.take(0) =~= seq![]);
    while i < all.len()
        invariant
            i <= all@.len(),
            text::views(all@) == v,
            v == words(line@),
            total == line@.len(),
            r@ == words_tally(v.take(i as int), on_code_line),
        decreases all.len() - i,
    {
        let core = trimmed(&all[i], CharClass::Punctuation);
        proof {
            assert(v[i as int] == all@[i as int]@);
            assert(v.take(i + 1).drop_last() =~= v.take(i as int));
            assert(v.take(i + 1).last() == v[i as int]);
            lemma_words_bound(v.take(i + 1), on_code_line);
            lemma_total_len_take(v, i + 1);
            lemma_words_len(line@);
        }
        r.join(count_core(&core, on_code_line));
        i += 1;
    }
    assert(v.take(i as int) =~= v);
    r
}

/// Whether the prose of a text is Korean. A text without prose is not.
pub fn prose_is_korean(text: &str) -> (r: bool)
    ensures
        r == says_korean(text_tally(text@)),
{
    let s = chars_of(text);
    let total: usize = s.len();
    let lines = split_at_char(&s, '\n');
    let ghost v = text::split(s@, '\n');
    let mut t = Count::none();
    let mut i: usize = 0;
    assert(v.take(0) =~= seq![]);
    while i < lines.len()
        invariant
            i <= lines@.len(),
            text::views(lines@) == v,
            v == text::split(s@, '\n'),
            total == s@.len(),
            t@ == lines_tally(v.take(i as int)),
        decreases lines.len() - i,
    {
        proof {
            assert(v[i as int] == lines@[i as int]@);
            assert(v.take(i + 1).drop_last() =~= v.take(i as int));
            assert(v.take(i + 1).last() == v[i as int]);
            lemma_lines_bound(v.take(i + 1));
            lemma_total_len_take(v, i + 1);
            lemma_split_len(s@, '\n');
        }
        t.join(count_line(&lines[i]));
        i += 1;
    }
    assert(v.take(i as int) =~= v);
    if t.markers != t.functions {
        return t.markers > t.functions;
    }
    (t.hangul > 0 || t.latin > 0) && 5 * (t.hangul as u128) >= 2 * (t.latin as u128)
}

// ---------------------------------------------------------------------------
// Words to look up
// ---------------------------------------------------------------------------

/// Whether a character has the Unicode property `Alphabetic`.
pub uninterp spec fn is_alphabetic(c: char) -> bool;

/// `char::is_alphabetic`: a property of the character alone. Of the ASCII
/// characters, the letters have it and no others.
pub assume_specification[ char::is_alphabetic ](c: char) -> (r: bool)
    ensures
        r == is_alphabetic(c),
        is_latin(c) ==> r,
        c < '\u{80}' && !is_latin(c) ==> !r,
;

/// Whether a character ends a sentence.
pub open spec fn ends_sentence(c: char) -> bool {
    c == '.' || c == '!' || c == '?' || c == '\u{3002}' || c == '\u{ff01}' || c == '\u{ff1f}'
}

/// Whether a text is a single word to look up: short, with a letter in it, no
/// identifier and no sentence.
pub open spec fn looks_up(s: Seq<char>) -> bool {
    let t = text::trim(s, CharClass::Space);
    &&& t.len() <= LOOKUP_MAX_CHARS
    &&& exists|i: int| 0 <= i < t.len() && is_alphabetic(#[trigger] t[i])
    &&& words(t).len() == 1
    &&& !is_code_like(text::trim(words(t)[0], CharClass::Punctuation))
    &&& !ends_sentence(words(t)[0].last())
}

fn has_letter(v: &[char]) -> (r: bool)
    ensures
        r == exists|i: int| 0 <= i < v@.len() && is_alphabetic(#[trigger] v@[i]),
{
    let mut i: usize = 0;
    while i < v.len()
        invariant
            i <= v@.len(),
            forall|j: int| 0 <= j < i ==> !is_alphabetic(#[trigger] v@[j]),
        decreases v.len() - i,
    {
        if v[i].is_alphabetic() {
            assert(is_alphabetic(v@[i as int]));
            return true;
        }
        i += 1;
    }
    false
}

/// The words of a text are not empty and hold no white space.
pub proof fn words_are_words(s: Seq<char>, i: int)
    requires
        0 <= i < words(s).len(),
    ensures
        words(s)[i].len() > 0,
        forall|j: int| 0 <= j < words(s)[i].len() ==> !text::is_space(#[trigger] words(s)[i][j]),
    decreases s.len(),
{
    let t = text::trim_start(s, CharClass::Space);
    lemma_trim_start_len(s);
    lemma_first_is_no_space(s);
    lemma_word_end(t, 0);
    lemma_word_end(t, 1);
    let n = word_end(t, 0);
    if i > 0 {
        words_are_words(t.skip(n), i - 1);
        assert(words(s)[i] == words(t.skip(n))[i - 1]);
    } else {
        assert(words(s)[0] == t.take(n));
    }
}

/// Whether a text is a single word to look up rather than to translate.
pub fn is_lookup(text: &str) -> (r: bool)
    ensures
        r == looks_up(text@),
{
    let v = chars_of(text);
    let t = trimmed(&v, CharClass::Space);
    if t.len() > LOOKUP_MAX_CHARS || !has_letter(&t) {
        return false;
    }
    let all = words_of(&t);
    if all.len() != 1 {
        return false;
    }
    proof {
        words_are_words(t@, 0);
        assert(words(t@)[0] == all@[0]@);
    }
    let core = trimmed(&all[0], CharClass::Punctuation);
    if code_like(&core) {
        return false;
    }
    let n: usize = all[0].len();
    let last = all[0][n - 1];
    !(last == '.' || last == '!' || last == '?' || last == '\u{3002}' || last == '\u{ff01}' || last
        == '\u{ff1f}')
}

// ---------------------------------------------------------------------------
// What does not count
// ---------------------------------------------------------------------------

/// A statement of a program in front of a text says nothing of its language,
/// unless there is Hangul in it.
pub proof fn statements_do_not_count(line: Seq<char>, rest: Seq<char>)
    requires
        is_code_line(line),
        !line.contains('\n'),
        forall|i: int| 0 <= i < line.len() ==> !is_hangul(#[trigger] line[i]),
    ensures
        says_korean(text_tally(line + seq!['\n'] + rest)) == says_korean(text_tally(rest)),
{
    text::lemma_split_first(line, '\n', rest);
    let v = text::split(rest, '\n');
    lemma_lines_tally_front(line, v);
    lemma_words_stay(line);
    lemma_nothing_counts(words(line));
    assert(text_tally(line + seq!['\n'] + rest) == text_tally(rest));
}

proof fn lemma_lines_tally_front(line: Seq<char>, v: Seq<Seq<char>>)
    ensures
        lines_tally(seq![line] + v) == both(line_tally(line), lines_tally(v)),
    decreases v.len(),
{
    let w = seq![line] + v;
    if v.len() == 0 {
        assert(w.drop_last() =~= seq![]);
        assert(lines_tally(w.drop_last()) == nothing());
    } else {
        assert(w.drop_last() =~= seq![line] + v.drop_last());
        lemma_lines_tally_front(line, v.drop_last());
    }
}

/// The words of a text without Hangul have none.
proof fn lemma_words_stay(s: Seq<char>)
    requires
        forall|i: int| 0 <= i < s.len() ==> !is_hangul(#[trigger] s[i]),
    ensures
        forall|i: int, j: int|
            0 <= i < words(s).len() && 0 <= j < words(s)[i].len() ==> !is_hangul(
                #[trigger] words(s)[i][j],
            ),
    decreases s.len(),
{
    let t = text::trim_start(s, CharClass::Space);
    lemma_trim_start_len(s);
    lemma_trim_start_stays(s, CharClass::Space);
    if t.len() > 0 {
        lemma_first_is_no_space(s);
        lemma_word_end(t, 0);
        lemma_word_end(t, 1);
        let n = word_end(t, 0);
        lemma_words_stay(t.skip(n));
        assert forall|i: int, j: int| 0 <= i < words(s).len() && 0 <= j < words(s)[i].len() implies
            !is_hangul(#[trigger] words(s)[i][j]) by {
            if i == 0 {
                assert(words(s)[0][j] == t[j]);
            } else {
                assert(words(s)[i] == words(t.skip(n))[i - 1]);
                assert(!is_hangul(words(t.skip(n))[i - 1][j]));
            }
        }
    }
}

proof fn lemma_trim_start_stays(s: Seq<char>, class: CharClass)
    requires
        forall|i: int| 0 <= i < s.len() ==> !is_hangul(#[trigger] s[i]),
    ensures
        forall|i: int|
            0 <= i < text::trim_start(s, class).len() ==> !is_hangul(
                #[trigger] text::trim_start(s, class)[i],
            ),
    decreases s.len(),
{
    if s.len() > 0 && text::class_has(class, s[0]) {
        lemma_trim_start_stays(s.drop_first(), class);
        assert(text::trim_start(s, class) == text::trim_start(s.drop_first(), class));
    } else {
        assert(text::trim_start(s, class) == s);
    }
}

proof fn lemma_trim_end_stays(s: Seq<char>, class: CharClass)
    requires
        forall|i: int| 0 <= i < s.len() ==> !is_hangul(#[trigger] s[i]),
    ensures
        forall|i: int|
            0 <= i < text::trim_end(s, class).len() ==> !is_hangul(
                #[trigger] text::trim_end(s, class)[i],
            ),
    decreases s.len(),
{
    if s.len() > 0 && text::class_has(class, s.last()) {
        lemma_trim_end_stays(s.drop_last(), class);
        assert(text::trim_end(s, class) == text::trim_end(s.drop_last(), class));
    } else {
        assert(text::trim_end(s, class) == s);
    }
}

proof fn lemma_no_hangul(s: Seq<char>)
    requires
        forall|i: int| 0 <= i < s.len() ==> !is_hangul(#[trigger] s[i]),
    ensures
        hangul_count(s) == 0,
    decreases s.len(),
{
    if s.len() > 0 {
        lemma_no_hangul(s.drop_last());
    }
}

proof fn lemma_nothing_counts(v: Seq<Seq<char>>)
    requires
        forall|i: int, j: int|
            0 <= i < v.len() && 0 <= j < v[i].len() ==> !is_hangul(#[trigger] v[i][j]),
    ensures
        words_tally(v, true) == nothing(),
    decreases v.len(),
{
    if v.len() > 0 {
        assert forall|i: int, j: int| 0 <= i < v.drop_last().len() && 0 <= j
            < v.drop_last()[i].len() implies !is_hangul(#[trigger] v.drop_last()[i][j]) by {
            assert(!is_hangul(v[i][j]));
        }
        lemma_nothing_counts(v.drop_last());
        let last = v.last();
        assert forall|j: int| 0 <= j < last.len() implies !is_hangul(#[trigger] last[j]) by {
            assert(!is_hangul(v[v.len() - 1][j]));
        }
        lemma_trim_start_stays(last, CharClass::Punctuation);
        lemma_trim_end_stays(text::trim_start(last, CharClass::Punctuation), CharClass::Punctuation);
        lemma_no_hangul(text::trim(last, CharClass::Punctuation));
    }
}

/// A text without letters and Hangul is not Korean.
pub proof fn no_prose_is_not_korean(s: Seq<char>)
    requires
        text_tally(s).hangul == 0,
        text_tally(s).latin == 0,
    ensures
        !says_korean(text_tally(s)),
{
    lemma_markers_need_hangul(text::split(s, '\n'));
}

proof fn lemma_markers_need_hangul(v: Seq<Seq<char>>)
    ensures
        lines_tally(v).markers <= lines_tally(v).hangul,
    decreases v.len(),
{
    if v.len() > 0 {
        lemma_markers_need_hangul(v.drop_last());
        lemma_word_markers(words(v.last()), is_code_line(v.last()));
    }
}

proof fn lemma_word_markers(v: Seq<Seq<char>>, code: bool)
    ensures
        words_tally(v, code).markers <= words_tally(v, code).hangul,
    decreases v.len(),
{
    if v.len() > 0 {
        lemma_word_markers(v.drop_last(), code);
    }
}

// ---------------------------------------------------------------------------
// What counts
// ---------------------------------------------------------------------------

proof fn lemma_lines_tally_concat(v: Seq<Seq<char>>, w: Seq<Seq<char>>)
    ensures
        lines_tally(v + w) == both(lines_tally(v), lines_tally(w)),
    decreases w.len(),
{
    if w.len() == 0 {
        assert(v + w =~= v);
    } else {
        assert((v + w).drop_last() =~= v + w.drop_last());
        lemma_lines_tally_concat(v, w.drop_last());
    }
}

/// Every line counts, and for what it counts alone: what a text counts for is the
/// sum of what its two parts count for, wherever it is cut between two lines.
pub proof fn every_line_counts(a: Seq<char>, b: Seq<char>)
    ensures
        ({
            let t = text_tally(a + seq!['\n'] + b);
            &&& t.hangul == text_tally(a).hangul + text_tally(b).hangul
            &&& t.latin == text_tally(a).latin + text_tally(b).latin
            &&& t.markers == text_tally(a).markers + text_tally(b).markers
            &&& t.functions == text_tally(a).functions + text_tally(b).functions
        }),
{
    text::lemma_split_concat(a, '\n', b);
    lemma_lines_tally_concat(text::split(a, '\n'), text::split(b, '\n'));
}

/// Lines without prose, wherever they stand, leave the answer as it was.
pub proof fn lines_without_prose_do_not_count(a: Seq<char>, b: Seq<char>, c: Seq<char>)
    requires
        text_tally(b).hangul == 0,
        text_tally(b).latin == 0,
    ensures
        says_korean(text_tally(a + seq!['\n'] + b)) == says_korean(text_tally(a)),
        says_korean(text_tally(b + seq!['\n'] + c)) == says_korean(text_tally(c)),
        says_korean(text_tally(a + seq!['\n'] + b + seq!['\n'] + c)) == says_korean(
            text_tally(a + seq!['\n'] + c),
        ),
{
    every_line_counts(a, b);
    every_line_counts(b, c);
    every_line_counts(a + seq!['\n'] + b, c);
    every_line_counts(a, c);
    lemma_markers_need_hangul(text::split(b, '\n'));
    lemma_functions_need_latin(text::split(b, '\n'));
}

proof fn lemma_functions_need_latin(v: Seq<Seq<char>>)
    ensures
        lines_tally(v).functions <= lines_tally(v).latin,
    decreases v.len(),
{
    if v.len() > 0 {
        lemma_functions_need_latin(v.drop_last());
        lemma_word_functions(words(v.last()), is_code_line(v.last()));
    }
}

proof fn lemma_word_functions(v: Seq<Seq<char>>, code: bool)
    ensures
        words_tally(v, code).functions <= words_tally(v, code).latin,
    decreases v.len(),
{
    if v.len() > 0 {
        lemma_word_functions(v.drop_last(), code);
    }
}

/// The words of two texts with white space between them are those of the one and
/// those of the other.
pub proof fn words_go_on_behind_white_space(a: Seq<char>, c: char, b: Seq<char>)
    requires
        text::is_space(c),
    ensures
        words(a + seq![c] + b) == words(a) + words(b),
    decreases a.len(),
{
    let x = seq![c] + b;
    let s = a + seq![c] + b;
    assert(s =~= a + x);
    let t = text::trim_start(a, CharClass::Space);
    lemma_trim_start_len(a);
    text::lemma_trim_start_append(a, x, CharClass::Space);
    if t.len() == 0 {
        assert(x.drop_first() =~= b);
        assert(text::trim_start(x, CharClass::Space) == text::trim_start(b, CharClass::Space));
        assert(words(s) =~= words(a) + words(b));
    } else {
        let u = t + x;
        assert(text::trim_start(s, CharClass::Space) == u);
        lemma_first_is_no_space(a);
        lemma_word_end(t, 0);
        lemma_word_end(t, 1);
        lemma_word_end(u, 0);
        let n = word_end(t, 0);
        let m = word_end(u, 0);
        assert(m == n) by {
            if m < n {
                assert(text::is_space(u[m]) && u[m] == t[m]);
            } else if m > n {
                assert(!text::is_space(u[n]));
                if n < t.len() {
                    assert(u[n] == t[n]);
                } else {
                    assert(u[n] == x[0]);
                }
            }
        }
        assert(u.take(n) =~= t.take(n));
        let rest = t.skip(n);
        assert(u.skip(n) =~= rest + seq![c] + b);
        assert(n > 0);
        words_go_on_behind_white_space(rest, c, b);
        assert(words(s) =~= seq![t.take(n)] + words(u.skip(n)));
        assert(words(s) =~= words(a) + words(b));
    }
}

proof fn lemma_words_tally_concat(v: Seq<Seq<char>>, w: Seq<Seq<char>>, code: bool)
    ensures
        words_tally(v + w, code) == both(words_tally(v, code), words_tally(w, code)),
    decreases w.len(),
{
    if w.len() == 0 {
        assert(v + w =~= v);
    } else {
        assert((v + w).drop_last() =~= v + w.drop_last());
        lemma_words_tally_concat(v, w.drop_last(), code);
    }
}

/// Every word of a line counts, and for what it counts alone.
pub proof fn every_word_counts(a: Seq<char>, c: char, b: Seq<char>)
    requires
        text::is_space(c),
        !is_code_line(a),
        !is_code_line(b),
        !is_code_line(a + seq![c] + b),
    ensures
        ({
            let t = line_tally(a + seq![c] + b);
            &&& t.hangul == line_tally(a).hangul + line_tally(b).hangul
            &&& t.latin == line_tally(a).latin + line_tally(b).latin
            &&& t.markers == line_tally(a).markers + line_tally(b).markers
            &&& t.functions == line_tally(a).functions + line_tally(b).functions
        }),
{
    words_go_on_behind_white_space(a, c, b);
    lemma_words_tally_concat(words(a), words(b), false);
}

proof fn lemma_one_word(w: Seq<char>)
    requires
        w.len() > 0,
        forall|i: int| 0 <= i < w.len() ==> !text::is_space(#[trigger] w[i]),
    ensures
        words(w) == seq![w],
        words_tally(words(w), is_code_line(w)) == core_tally(
            text::trim(w, CharClass::Punctuation),
            is_code_line(w),
        ),
{
    assert(!text::is_space(w[0]));
    assert(text::trim_start(w, CharClass::Space) == w);
    lemma_word_end(w, 0);
    let n = word_end(w, 0);
    assert(n == w.len());
    assert(w.take(n) =~= w);
    let none = w.skip(n);
    assert(none =~= Seq::<char>::empty());
    assert(text::trim_start(none, CharClass::Space) == none);
    assert(words(none) =~= seq![]);
    assert(words(w) =~= seq![w]);
    assert(seq![w].drop_last() =~= seq![]);
    assert(words_tally(seq![w].drop_last(), is_code_line(w)) == nothing());
}

/// Where every character is Hangul, all of them count.
proof fn lemma_all_hangul(s: Seq<char>)
    requires
        forall|i: int| 0 <= i < s.len() ==> is_hangul(#[trigger] s[i]),
    ensures
        hangul_count(s) == s.len(),
    decreases s.len(),
{
    if s.len() > 0 {
        lemma_all_hangul(s.drop_last());
    }
}

/// A word of Hangul counts by its characters for Korean, and so does its ending,
/// once; a word of small letters counts by its letters for English, and once more
/// where only English sentences have it.
pub proof fn a_word_counts_for_its_language(w: Seq<char>)
    requires
        w.len() >= 2,
    ensures
        (forall|i: int| 0 <= i < w.len() ==> '\u{ac00}' <= #[trigger] w[i] <= '\u{d7a3}')
            ==> text_tally(w) == (Tally {
            hangul: w.len(),
            latin: 0,
            markers: if has_korean_marker(w) {
                1
            } else {
                0
            },
            functions: 0,
        }),
        (forall|i: int| 0 <= i < w.len() ==> 'a' <= #[trigger] w[i] <= 'z') ==> text_tally(w) == (
        Tally {
            hangul: 0,
            latin: w.len(),
            markers: 0,
            functions: if is_function_word(w) {
                1
            } else {
                0
            },
        }),
        (forall|i: int| 0 <= i < w.len() ==> 'A' <= #[trigger] w[i] <= 'Z') ==> text_tally(w)
            == nothing(),
{
    let korean = forall|i: int| 0 <= i < w.len() ==> '\u{ac00}' <= #[trigger] w[i] <= '\u{d7a3}';
    let english = forall|i: int| 0 <= i < w.len() ==> 'a' <= #[trigger] w[i] <= 'z';
    let capitals = forall|i: int| 0 <= i < w.len() ==> 'A' <= #[trigger] w[i] <= 'Z';
    if korean || english || capitals {
        assert(!w.contains('\n'));
        text::lemma_split_one(w, '\n');
        assert(seq![w].drop_last() =~= seq![]);
        assert(lines_tally(seq![w].drop_last()) == nothing());
        lemma_one_word(w);
        assert(!text::is_space(w.last()));
        assert(text::trim_end(w, CharClass::Space) == w);
        assert(!is_code_line(w));
        assert(!text::is_punctuation(w[0]) && !text::is_punctuation(w.last()));
        assert(text::trim(w, CharClass::Punctuation) == w);
        if korean {
            lemma_all_hangul(w);
        } else {
            lemma_no_hangul(w);
            assert forall|i: int| 0 <= i < w.len() implies !is_symbol(#[trigger] w[i]) by {}
            if english {
                assert(!('A' <= w[0] <= 'Z'));
            }
        }
    }
}

/// Grammar decides: a text with more Korean endings than English function words is
/// Korean, and one with fewer is not, whatever its letters. Where grammar is silent
/// two Hangul characters weigh as much as five letters.
pub proof fn grammar_decides_before_script(t: Tally, n: nat)
    ensures
        t.markers > t.functions ==> says_korean(t),
        t.markers < t.functions ==> !says_korean(t),
        t.markers == t.functions && t.latin == 0 ==> says_korean(t) == (t.hangul > 0),
        t.markers == t.functions && t.hangul == 0 ==> !says_korean(t),
        t.markers == t.functions && n > 0 && t.hangul == 2 * n && t.latin == 5 * n ==> says_korean(t),
        t.markers == t.functions && t.hangul == 2 * n && t.latin == 5 * n + 1 ==> !says_korean(t),
{
}

/// The particles and endings of Korean words, and nothing else, count as such.
pub proof fn korean_endings(s: Seq<char>)
    ensures
        has_korean_marker(s) == {
            ||| text::ends_with(s, "은"@)
            ||| text::ends_with(s, "는"@)
            ||| text::ends_with(s, "이"@)
            ||| text::ends_with(s, "가"@)
            ||| text::ends_with(s, "을"@)
            ||| text::ends_with(s, "를"@)
            ||| text::ends_with(s, "의"@)
            ||| text::ends_with(s, "에"@)
            ||| text::ends_with(s, "에서"@)
            ||| text::ends_with(s, "로"@)
            ||| text::ends_with(s, "으로"@)
            ||| text::ends_with(s, "와"@)
            ||| text::ends_with(s, "과"@)
            ||| text::ends_with(s, "도"@)
            ||| text::ends_with(s, "만"@)
            ||| text::ends_with(s, "까지"@)
            ||| text::ends_with(s, "부터"@)
            ||| text::ends_with(s, "다"@)
            ||| text::ends_with(s, "요"@)
            ||| text::ends_with(s, "니다"@)
            ||| text::ends_with(s, "함"@)
            ||| text::ends_with(s, "음"@)
            ||| text::ends_with(s, "됨"@)
            ||| text::ends_with(s, "임"@)
        },
{
    let m = KO_MARKERS@;
    assert(m[0] == "은" && m[1] == "는" && m[2] == "이" && m[3] == "가" && m[4] == "을" && m[5] == "를"
        && m[6] == "의" && m[7] == "에" && m[8] == "에서" && m[9] == "로" && m[10] == "으로" && m[11]
        == "와" && m[12] == "과" && m[13] == "도" && m[14] == "만" && m[15] == "까지" && m[16] == "부터"
        && m[17] == "다" && m[18] == "요" && m[19] == "니다" && m[20] == "함" && m[21] == "음" && m[22]
        == "됨" && m[23] == "임");
}

/// A word to look up is one word, short, with a letter in it: not two words, not a
/// sentence, not an identifier, whatever white space is around it.
pub proof fn a_lookup_is_one_short_word(s: Seq<char>, t: Seq<char>, c: char)
    requires
        text::is_space(c),
    ensures
        looks_up(s) ==> text::trim(s, CharClass::Space).len() <= 40,
        words(text::trim(s, CharClass::Space)).len() > 0 && words(
            text::trim(t, CharClass::Space),
        ).len() > 0 ==> !looks_up(
            text::trim(s, CharClass::Space) + seq![c] + text::trim(t, CharClass::Space),
        ),
        2 <= s.len() <= 40 && (forall|i: int| 0 <= i < s.len() ==> 'a' <= #[trigger] s[i] <= 'z')
            && is_alphabetic(s[0]) ==> looks_up(s) && !looks_up(s.push('.')) && !looks_up(
            s.push('?'),
        ) && !looks_up(s.push('_') + s),
{
    let a = text::trim(s, CharClass::Space);
    let b = text::trim(t, CharClass::Space);
    if words(a).len() > 0 && words(b).len() > 0 {
        let whole = a + seq![c] + b;
        words_go_on_behind_white_space(a, c, b);
        lemma_words_len(a);
        lemma_words_len(b);
        lemma_trimmed_ends(s);
        lemma_trimmed_ends(t);
        words_are_words(a, 0);
        words_are_words(b, 0);
        assert(a.len() > 0) by {
            if a.len() == 0 {
                assert(words(a) =~= seq![]);
            }
        }
        assert(b.len() > 0) by {
            if b.len() == 0 {
                assert(words(b) =~= seq![]);
            }
        }
        assert(whole[0] == a[0] && whole.last() == b.last());
        assert(text::trim_start(whole, CharClass::Space) == whole);
        assert(text::trim(whole, CharClass::Space) == whole);
        assert(words(whole).len() >= 2);
    }
    if 2 <= s.len() <= 40 && (forall|i: int| 0 <= i < s.len() ==> 'a' <= #[trigger] s[i] <= 'z') {
        lemma_plain_word(s);
        lemma_plain_word(s.push('.'));
        lemma_plain_word(s.push('?'));
        let u = s.push('_') + s;
        lemma_plain_word(u);
        assert(is_symbol(u[s.len() as int]));
        assert(s.push('.').last() == '.' && s.push('?').last() == '?');
        assert(text::trim(u, CharClass::Punctuation) == u);
        assert(text::trim(s, CharClass::Punctuation) == s);
    }
}

proof fn lemma_plain_word(s: Seq<char>)
    requires
        s.len() > 0,
        forall|i: int| 0 <= i < s.len() ==> !text::is_space(#[trigger] s[i]),
    ensures
        text::trim(s, CharClass::Space) == s,
        words(s) == seq![s],
{
    assert(!text::is_space(s[0]) && !text::is_space(s.last()));
    lemma_one_word(s);
}

proof fn lemma_trimmed_ends(s: Seq<char>)
    ensures
        text::trim(s, CharClass::Space).len() > 0 ==> !text::is_space(
            text::trim(s, CharClass::Space)[0],
        ) && !text::is_space(text::trim(s, CharClass::Space).last()),
{
    let _ = text::trimming_takes_off_the_ends(s, CharClass::Space);
}

} // verus!
