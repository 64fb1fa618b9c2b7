//! Text as sequences of characters: searching, trimming, splitting, and
//! decimal numbers.
//!
//! Everything here is stated over `Seq<char>`, the view of `str` and `String`.

use vstd::prelude::*;

verus! {

/// `String::push` appends one character.
pub assume_specification[ String::push ](s: &mut String, c: char)
    ensures
        final(s)@ == old(s)@.push(c),
;

/// The characters of `s`, in order.
pub fn chars_of(s: &str) -> (v: Vec<char>)
    ensures
        v@ == s@,
{
    let mut v: Vec<char> = Vec::new();
    for c in it: s.chars()
        invariant
            v@ == it.seq().take(it.index() as int),
            it.seq() == s@,
    {
        v.push(c);
        assert(v@ =~= it.seq().take(it.index() + 1));
    }
    assert(v@ =~= s@);
    v
}

/// The text made of the characters `v`.
pub fn string_of(v: &[char]) -> (s: String)
    ensures
        s@ == v@,
{
    let mut s = String::new();
    let mut i: usize = 0;
    while i < v.len()
        invariant
            i <= v.len(),
            s@ == v@.take(i as int),
        decreases v.len() - i,
    {
        s.push(v[i]);
        i += 1;
        assert(v@.take(i as int) =~= v@.take(i - 1).push(v@[i - 1]));
    }
    assert(v@.take(i as int) =~= v@);
    s
}

/// The characters `v[from..to]`.
pub fn piece(v: &[char], from: usize, to: usize) -> (r: Vec<char>)
    requires
        from <= to <= v@.len(),
    ensures
        r@ == v@.subrange(from as int, to as int),
{
    let mut r: Vec<char> = Vec::new();
    let mut i: usize = from;
    while i < to
        invariant
            from <= i <= to <= v@.len(),
            r@ == v@.subrange(from as int, i as int),
        decreases to - i,
    {
        r.push(v[i]);
        i += 1;
        assert(v@.subrange(from as int, i as int) =~= v@.subrange(from as int, i - 1).push(
            v@[i - 1],
        ));
    }
    r
}

/// Appends the characters `t` to `v`.
pub fn extend(v: &mut Vec<char>, t: &[char])
    ensures
        final(v)@ == old(v)@ + t@,
{
    let mut i: usize = 0;
    let ghost start = v@;
    while i < t.len()
        invariant
            i <= t.len(),
            v@ == start + t@.take(i as int),
        decreases t.len() - i,
    {
        v.push(t[i]);
        i += 1;
        assert(t@.take(i as int) =~= t@.take(i - 1).push(t@[i - 1]));
        assert(v@ =~= start + t@.take(i as int));
    }
    assert(t@.take(i as int) =~= t@);
}

/// Appends the text `s` to `v`.
pub fn push_text(v: &mut Vec<char>, s: &str)
    ensures
        final(v)@ == old(v)@ + s@,
{
    let t = chars_of(s);
    extend(v, &t);
}

/// Whether two runs of characters are equal.
pub fn same(a: &[char], b: &[char]) -> (r: bool)
    ensures
        r == (a@ == b@),
{
    if a.len() != b.len() {
        return false;
    }
    let mut i: usize = 0;
    while i < a.len()
        invariant
            a.len() == b.len(),
            i <= a.len(),
            forall|j: int| 0 <= j < i ==> a@[j] == b@[j],
        decreases a.len() - i,
    {
        if a[i] != b[i] {
            return false;
        }
        i += 1;
    }
    assert(a@ =~= b@);
    true
}

/// Whether two texts are equal.
pub fn str_same(a: &str, b: &str) -> (r: bool)
    ensures
        r == (a@ == b@),
{
    let x = chars_of(a);
    let y = chars_of(b);
    same(&x, &y)
}

/// A copy of `s`.
pub fn copy_str(s: &str) -> (r: String)
    ensures
        r@ == s@,
{
    s.to_owned()
}

/// Joins two texts.
pub fn concat(a: &str, b: &str) -> (r: String)
    ensures
        r@ == a@ + b@,
{
    let mut v = chars_of(a);
    let w = chars_of(b);
    extend(&mut v, &w);
    string_of(&v)
}

// ---------------------------------------------------------------------------
// Character classes
// ---------------------------------------------------------------------------

/// The characters with the Unicode property `White_Space`.
pub open spec fn is_space(c: char) -> bool {
    ||| '\u{9}' <= c <= '\u{d}'
    ||| c == '\u{20}'
    ||| c == '\u{85}'
    ||| c == '\u{a0}'
    ||| c == '\u{1680}'
    ||| '\u{2000}' <= c <= '\u{200a}'
    ||| c == '\u{2028}'
    ||| c == '\u{2029}'
    ||| c == '\u{202f}'
    ||| c == '\u{205f}'
    ||| c == '\u{3000}'
}

/// Sets of characters that texts are trimmed of.
#[derive(Clone, Copy)]
pub enum CharClass {
    /// Unicode white space.
    Space,
    /// `\n` and `\r`.
    Newline,
    /// What stands around words: quotes, brackets, dashes and the like.
    Punctuation,
    /// One given character.
    Only(char),
}

/// Whether `class` holds `c`.
pub open spec fn class_has(class: CharClass, c: char) -> bool {
    match class {
        CharClass::Space => is_space(c),
        CharClass::Newline => c == '\n' || c == '\r',
        CharClass::Punctuation => is_punctuation(c),
        CharClass::Only(d) => c == d,
    }
}

/// The characters that are taken off words: quotes, brackets, dashes and the
/// like.
pub open spec fn is_punctuation(c: char) -> bool {
    ||| c == ',' || c == '.' || c == ';' || c == ':' || c == '!' || c == '?'
    ||| c == '\'' || c == '"' || c == '`' || c == '*' || c == '-'
    ||| c == '(' || c == ')' || c == '[' || c == ']' || c == '{' || c == '}'
    ||| c == '<' || c == '>' || c == '\u{2014}'
    ||| c == '\u{201c}' || c == '\u{201d}' || c == '\u{2018}' || c == '\u{2019}'
}

/// Whether `c` is Unicode white space.
pub fn space(c: char) -> (r: bool)
    ensures
        r == is_space(c),
{
    ('\u{9}' <= c && c <= '\u{d}') || c == '\u{20}' || c == '\u{85}' || c == '\u{a0}' || c
        == '\u{1680}' || ('\u{2000}' <= c && c <= '\u{200a}') || c == '\u{2028}' || c == '\u{2029}'
        || c == '\u{202f}' || c == '\u{205f}' || c == '\u{3000}'
}

impl CharClass {
    /// Whether this class holds `c`.
    pub fn has(&self, c: char) -> (r: bool)
        ensures
            r == class_has(*self, c),
    {
        match *self {
            CharClass::Space => space(c),
            CharClass::Newline => c == '\n' || c == '\r',
            CharClass::Punctuation => c == ',' || c == '.' || c == ';' || c == ':' || c == '!' || c
                == '?' || c == '\'' || c == '"' || c == '`' || c == '*' || c == '-' || c == '(' || c
                == ')' || c == '[' || c == ']' || c == '{' || c == '}' || c == '<' || c == '>' || c
                == '\u{2014}' || c == '\u{201c}' || c == '\u{201d}' || c == '\u{2018}' || c
                == '\u{2019}',
            CharClass::Only(d) => c == d,
        }
    }
}

// ---------------------------------------------------------------------------
// Trimming
// ---------------------------------------------------------------------------

/// `s` without its longest prefix made of characters of `class`.
pub open spec fn trim_start(s: Seq<char>, class: CharClass) -> Seq<char>
    decreases s.len(),
{
    if s.len() > 0 && class_has(class, s[0]) {
        trim_start(s.drop_first(), class)
    } else {
        s
    }
}

/// `s` without its longest suffix made of characters of `class`.
pub open spec fn trim_end(s: Seq<char>, class: CharClass) -> Seq<char>
    decreases s.len(),
{
    if s.len() > 0 && class_has(class, s.last()) {
        trim_end(s.drop_last(), class)
    } else {
        s
    }
}

/// `s` trimmed of `class` at both ends.
pub open spec fn trim(s: Seq<char>, class: CharClass) -> Seq<char> {
    trim_end(trim_start(s, class), class)
}

/// Where the trimmed text starts.
pub fn trim_start_at(v: &[char], class: CharClass) -> (i: usize)
    ensures
        i <= v@.len(),
        v@.skip(i as int) == trim_start(v@, class),
        forall|j: int| 0 <= j < i ==> class_has(class, v@[j]),
        i < v@.len() ==> !class_has(class, v@[i as int]),
{
    let mut i: usize = 0;
    assert(v@.skip(0) =~= v@);
    while i < v.len() && class.has(v[i])
        invariant
            i <= v@.len(),
            trim_start(v@.skip(i as int), class) == trim_start(v@, class),
            forall|j: int| 0 <= j < i ==> class_has(class, v@[j]),
        decreases v.len() - i,
    {
        assert(v@.skip(i as int).drop_first() =~= v@.skip(i + 1));
        i += 1;
    }
    i
}

/// Where the text from `from` on ends once its end is trimmed.
pub fn trim_end_at(v: &[char], from: usize, class: CharClass) -> (end: usize)
    requires
        from <= v@.len(),
    ensures
        from <= end <= v@.len(),
        v@.subrange(from as int, end as int) == trim_end(v@.skip(from as int), class),
        end > from ==> !class_has(class, v@[end - 1]),
        forall|j: int| end <= j < v@.len() ==> class_has(class, v@[j]),
{
    let mut end: usize = v.len();
    assert(v@.subrange(from as int, end as int) =~= v@.skip(from as int));
    while end > from && class.has(v[end - 1])
        invariant
            from <= end <= v@.len(),
            trim_end(v@.subrange(from as int, end as int), class) == trim_end(
                v@.skip(from as int),
                class,
            ),
            forall|j: int| end <= j < v@.len() ==> class_has(class, v@[j]),
        decreases end,
    {
        assert(v@.subrange(from as int, end as int).drop_last() =~= v@.subrange(
            from as int,
            end - 1,
        ));
        end -= 1;
    }
    end
}

/// `v` trimmed at both ends.
pub fn trimmed(v: &[char], class: CharClass) -> (r: Vec<char>)
    ensures
        r@ == trim(v@, class),
{
    let i = trim_start_at(v, class);
    let end = trim_end_at(v, i, class);
    piece(v, i, end)
}

/// Trimming twice is trimming once, at the start.
pub proof fn lemma_trim_start_idempotent(s: Seq<char>, class: CharClass)
    ensures
        trim_start(trim_start(s, class), class) == trim_start(s, class),
    decreases s.len(),
{
    if s.len() > 0 && class_has(class, s[0]) {
        lemma_trim_start_idempotent(s.drop_first(), class);
    }
}

/// Trimming twice is trimming once.
pub proof fn lemma_trim_idempotent(s: Seq<char>, class: CharClass)
    ensures
        trim(trim(s, class), class) == trim(s, class),
{
    let a = trim_start(s, class);
    lemma_trim_start_head(s, class);
    lemma_trim_end_head(a, class);
    let b = trim_end(a, class);
    assert(trim_start(b, class) == b);
    lemma_trim_end_idempotent(a, class);
}

proof fn lemma_trim_start_head(s: Seq<char>, class: CharClass)
    ensures
        trim_start(s, class).len() > 0 ==> !class_has(class, trim_start(s, class)[0]),
    decreases s.len(),
{
    if s.len() > 0 && class_has(class, s[0]) {
        lemma_trim_start_head(s.drop_first(), class);
    }
}

proof fn lemma_trim_end_head(s: Seq<char>, class: CharClass)
    ensures
        trim_end(s, class).len() > 0 ==> trim_end(s, class)[0] == s[0],
    decreases s.len(),
{
    if s.len() > 0 && class_has(class, s.last()) {
        lemma_trim_end_head(s.drop_last(), class);
    }
}

proof fn lemma_trim_end_idempotent(s: Seq<char>, class: CharClass)
    ensures
        trim_end(trim_end(s, class), class) == trim_end(s, class),
    decreases s.len(),
{
    if s.len() > 0 && class_has(class, s.last()) {
        lemma_trim_end_idempotent(s.drop_last(), class);
    }
}

/// Trimming the start of a text and its continuation.
pub proof fn lemma_trim_start_append(s: Seq<char>, t: Seq<char>, class: CharClass)
    ensures
        trim_start(s, class).len() == 0 ==> trim_start(s + t, class) == trim_start(t, class),
        trim_start(s, class).len() > 0 ==> trim_start(s + t, class) == trim_start(s, class) + t,
    decreases s.len(),
{
    if s.len() > 0 {
        assert((s + t).drop_first() =~= s.drop_first() + t);
        if class_has(class, s[0]) {
            lemma_trim_start_append(s.drop_first(), t, class);
        }
    } else {
        assert(s + t =~= t);
    }
}

/// Trimming takes characters of the class off the ends, all of them and no others:
/// what is left starts and ends with another one, and stands in the text between
/// what was taken off.
pub proof fn trimming_takes_off_the_ends(s: Seq<char>, class: CharClass) -> (r: (
    Seq<char>,
    Seq<char>,
))
    ensures
        s == r.0 + trim(s, class) + r.1,
        forall|i: int| 0 <= i < r.0.len() ==> class_has(class, #[trigger] r.0[i]),
        forall|i: int| 0 <= i < r.1.len() ==> class_has(class, #[trigger] r.1[i]),
        trim(s, class).len() > 0 ==> !class_has(class, trim(s, class)[0]) && !class_has(
            class,
            trim(s, class).last(),
        ),
{
    let t = trim_start(s, class);
    let a = lemma_trim_start_off(s, class);
    let b = lemma_trim_end_off(t, class);
    lemma_trim_start_head(s, class);
    let m = trim(s, class);
    assert(s =~= a + m + b);
    if m.len() > 0 {
        assert(t[0] == m[0]);
    }
    (a, b)
}

proof fn lemma_trim_start_off(s: Seq<char>, class: CharClass) -> (a: Seq<char>)
    ensures
        s == a + trim_start(s, class),
        forall|i: int| 0 <= i < a.len() ==> class_has(class, #[trigger] a[i]),
    decreases s.len(),
{
    if s.len() > 0 && class_has(class, s[0]) {
        let b = lemma_trim_start_off(s.drop_first(), class);
        let a = seq![s[0]] + b;
        assert(s =~= seq![s[0]] + s.drop_first());
        assert(a + trim_start(s, class) =~= seq![s[0]] + (b + trim_start(s, class)));
        a
    } else {
        assert(s =~= Seq::<char>::empty() + s);
        Seq::empty()
    }
}

proof fn lemma_trim_end_off(s: Seq<char>, class: CharClass) -> (b: Seq<char>)
    ensures
        s == trim_end(s, class) + b,
        forall|i: int| 0 <= i < b.len() ==> class_has(class, #[trigger] b[i]),
        trim_end(s, class).len() > 0 ==> !class_has(class, trim_end(s, class).last()),
    decreases s.len(),
{
    if s.len() > 0 && class_has(class, s.last()) {
        let a = lemma_trim_end_off(s.drop_last(), class);
        let b = a.push(s.last());
        assert(s =~= s.drop_last().push(s.last()));
        assert(trim_end(s, class) + b =~= (trim_end(s, class) + a).push(s.last()));
        b
    } else {
        assert(s =~= s + Seq::<char>::empty());
        Seq::empty()
    }
}

// ---------------------------------------------------------------------------
// Searching
// ---------------------------------------------------------------------------

/// Whether `p` occurs in `s` at index `i`.
pub open spec fn occurs_at(s: Seq<char>, p: Seq<char>, i: int) -> bool {
    0 <= i && i + p.len() <= s.len() && s.subrange(i, i + p.len()) == p
}

/// The first index at or after `from` at which `p` occurs in `s`.
pub open spec fn find_from(s: Seq<char>, p: Seq<char>, from: int) -> Option<int>
    decreases s.len() - from + 1,
{
    if from < 0 || from + p.len() > s.len() {
        None
    } else if occurs_at(s, p, from) {
        Some(from)
    } else {
        find_from(s, p, from + 1)
    }
}

/// Whether `s` starts with `p`.
pub open spec fn starts_with(s: Seq<char>, p: Seq<char>) -> bool {
    occurs_at(s, p, 0)
}

/// Whether `s` ends with `p`.
pub open spec fn ends_with(s: Seq<char>, p: Seq<char>) -> bool {
    occurs_at(s, p, s.len() - p.len())
}

/// `find_from` gives the least occurrence, and `None` only where there is none.
pub proof fn lemma_find_from(s: Seq<char>, p: Seq<char>, from: int)
    requires
        from >= 0,
    ensures
        find_from(s, p, from) matches Some(i) ==> from <= i && occurs_at(s, p, i) && forall|j: int|
            from <= j < i ==> !#[trigger] occurs_at(s, p, j),
        find_from(s, p, from) is None ==> forall|j: int|
            from <= j ==> !#[trigger] occurs_at(s, p, j),
    decreases s.len() - from + 1,
{
    if from + p.len() <= s.len() && !occurs_at(s, p, from) {
        lemma_find_from(s, p, from + 1);
    }
}

/// A least occurrence is what `find_from` gives.
pub proof fn lemma_find_from_is(s: Seq<char>, p: Seq<char>, from: int, i: int)
    requires
        0 <= from <= i,
        occurs_at(s, p, i),
        forall|j: int| from <= j < i ==> !#[trigger] occurs_at(s, p, j),
    ensures
        find_from(s, p, from) == Some(i),
    decreases i - from,
{
    if from < i {
        assert(!occurs_at(s, p, from));
        lemma_find_from_is(s, p, from + 1, i);
    }
}

/// Nothing is found where nothing occurs.
pub proof fn lemma_find_from_none(s: Seq<char>, p: Seq<char>, from: int)
    requires
        0 <= from,
        forall|j: int| from <= j ==> !#[trigger] occurs_at(s, p, j),
    ensures
        find_from(s, p, from) is None,
{
    lemma_find_from(s, p, from);
}

/// Whether `p` stands in `v` at index `at`.
pub fn matches_at(v: &[char], p: &[char], at: usize) -> (r: bool)
    ensures
        r == occurs_at(v@, p@, at as int),
{
    if p.len() > v.len() || at > v.len() - p.len() {
        return false;
    }
    let mut i: usize = 0;
    while i < p.len()
        invariant
            i <= p.len(),
            at + p.len() <= v.len(),
            forall|j: int| 0 <= j < i ==> v@[at + j] == p@[j],
        decreases p.len() - i,
    {
        if v[at + i] != p[i] {
            assert(v@.subrange(at as int, at + p.len())[i as int] != p@[i as int]);
            return false;
        }
        i += 1;
    }
    assert(v@.subrange(at as int, at + p.len()) =~= p@);
    true
}

/// The first index at or after `from` at which `p` stands in `v`.
pub fn find_at(v: &[char], p: &[char], from: usize) -> (r: Option<usize>)
    ensures
        match r {
            Some(i) => find_from(v@, p@, from as int) == Some(i as int),
            None => find_from(v@, p@, from as int) is None,
        },
        r matches Some(i) ==> from <= i && i + p@.len() <= v@.len(),
{
    let mut i: usize = from;
    loop
        invariant
            from <= i,
            find_from(v@, p@, from as int) == find_from(v@, p@, i as int),
        decreases v@.len() - i,
    {
        if p.len() > v.len() || i > v.len() - p.len() {
            return None;
        }
        if matches_at(v, p, i) {
            return Some(i);
        }
        if i == v.len() {
            // `p` is empty and was found above.
            assert(v@.subrange(i as int, i as int) =~= p@);
            return None;
        }
        i += 1;
    }
}

/// The first index at or after `from` at which `c` stands in `s`.
pub open spec fn index_from(s: Seq<char>, c: char, from: int) -> Option<int>
    decreases s.len() - from,
{
    if from < 0 || from >= s.len() {
        None
    } else if s[from] == c {
        Some(from)
    } else {
        index_from(s, c, from + 1)
    }
}

/// `index_from` gives the least index, and `None` only where there is none.
pub proof fn lemma_index_from(s: Seq<char>, c: char, from: int)
    requires
        from >= 0,
    ensures
        index_from(s, c, from) matches Some(i) ==> from <= i < s.len() && s[i] == c && forall|j: int|
            from <= j < i ==> s[j] != c,
        index_from(s, c, from) is None ==> forall|j: int| from <= j < s.len() ==> s[j] != c,
    decreases s.len() - from,
{
    if from < s.len() && s[from] != c {
        lemma_index_from(s, c, from + 1);
    }
}

/// The least index is what `index_from` gives.
pub proof fn lemma_index_from_is(s: Seq<char>, c: char, from: int, i: int)
    requires
        0 <= from <= i < s.len(),
        s[i] == c,
        forall|j: int| from <= j < i ==> s[j] != c,
    ensures
        index_from(s, c, from) == Some(i),
    decreases i - from,
{
    if from < i {
        lemma_index_from_is(s, c, from + 1, i);
    }
}

/// The first index at or after `from` at which `c` stands in `v`.
pub fn index_at(v: &[char], c: char, from: usize) -> (r: Option<usize>)
    ensures
        match r {
            Some(i) => index_from(v@, c, from as int) == Some(i as int) && from <= i < v@.len(),
            None => index_from(v@, c, from as int) is None,
        },
{
    let mut i: usize = from;
    while i < v.len()
        invariant
            from <= i,
            i <= v.len() || i == from,
            index_from(v@, c, from as int) == index_from(v@, c, i as int),
        decreases v.len() - i,
    {
        if v[i] == c {
            return Some(i);
        }
        i += 1;
    }
    None
}

// ---------------------------------------------------------------------------
// Splitting
// ---------------------------------------------------------------------------

/// The pieces of `s` between the occurrences of `c`.
pub open spec fn split(s: Seq<char>, c: char) -> Seq<Seq<char>>
    decreases s.len(),
    via split_decreases
{
    match index_from(s, c, 0) {
        Some(i) => seq![s.take(i)] + split(s.skip(i + 1), c),
        None => seq![s],
    }
}

#[via_fn]
proof fn split_decreases(s: Seq<char>, c: char) {
    lemma_index_from(s, c, 0);
}

/// The views of a run of texts held as characters.
pub open spec fn views(v: Seq<Vec<char>>) -> Seq<Seq<char>> {
    v.map_values(|p: Vec<char>| p@)
}

/// The pieces of `v` between the occurrences of `c`.
pub fn split_at_char(v: &[char], c: char) -> (r: Vec<Vec<char>>)
    ensures
        views(r@) == split(v@, c),
{
    let mut r: Vec<Vec<char>> = Vec::new();
    let mut start: usize = 0;
    assert(v@.skip(0) =~= v@);
    assert(views(r@) + split(v@, c) =~= split(v@, c));
    let n: usize = v.len();
    loop
        invariant_except_break
            views(r@) + split(v@.skip(start as int), c) == split(v@, c),
        invariant
            n == v@.len(),
            start <= n,
        ensures
            views(r@) == split(v@, c),
        decreases v@.len() - start,
    {
        let ghost rest = v@.skip(start as int);
        proof {
            lemma_index_from_skip(v@, c, start as int);
        }
        match index_at(v, c, start) {
            Some(i) => {
                let ghost before = r@;
                r.push(piece(v, start, i));
                assert(rest.take(i - start) =~= v@.subrange(start as int, i as int));
                assert(rest.skip(i - start + 1) =~= v@.skip(i + 1));
                assert(views(r@) =~= views(before).push(rest.take(i - start)));
                assert(views(r@) + split(v@.skip(i + 1), c) =~= views(before) + split(rest, c));
                start = i + 1;
            },
            None => {
                let ghost before = r@;
                r.push(piece(v, start, n));
                assert(rest =~= v@.subrange(start as int, v@.len() as int));
                assert(views(r@) =~= views(before) + seq![rest]);
                break;
            },
        }
    }
    r
}

/// A text without the separator is one piece.
pub proof fn lemma_split_one(s: Seq<char>, c: char)
    requires
        !s.contains(c),
    ensures
        split(s, c) == seq![s],
{
    lemma_index_from(s, c, 0);
}

/// What stands before the first separator is the first piece.
pub proof fn lemma_split_first(a: Seq<char>, c: char, rest: Seq<char>)
    requires
        !a.contains(c),
    ensures
        split(a + seq![c] + rest, c) == seq![a] + split(rest, c),
{
    let s = a + seq![c] + rest;
    assert(s[a.len() as int] == c);
    assert forall|j: int| 0 <= j < a.len() implies s[j] != c by {
        assert(a.contains(a[j]));
    }
    lemma_index_from_is(s, c, 0, a.len() as int);
    assert(s.take(a.len() as int) =~= a);
    assert(s.skip(a.len() + 1int) =~= rest);
}

/// Splitting goes on behind a separator as if the text began there.
pub proof fn lemma_split_concat(a: Seq<char>, c: char, b: Seq<char>)
    ensures
        split(a + seq![c] + b, c) == split(a, c) + split(b, c),
    decreases a.len(),
{
    lemma_index_from(a, c, 0);
    let s = a + seq![c] + b;
    match index_from(a, c, 0) {
        Some(i) => {
            lemma_split_concat(a.skip(i + 1), c, b);
            assert forall|j: int| 0 <= j < i implies s[j] != c by {
                assert(s[j] == a[j]);
            }
            lemma_index_from_is(s, c, 0, i);
            assert(s.take(i) =~= a.take(i));
            assert(s.skip(i + 1) =~= a.skip(i + 1) + seq![c] + b);
            assert(split(s, c) =~= split(a, c) + split(b, c));
        },
        None => {
            lemma_split_first(a, c, b);
        },
    }
}

/// Texts with a separator between them.
pub open spec fn join(v: Seq<Seq<char>>, c: char) -> Seq<char>
    decreases v.len(),
{
    if v.len() == 0 {
        seq![]
    } else if v.len() == 1 {
        v[0]
    } else {
        join(v.drop_last(), c) + seq![c] + v.last()
    }
}

proof fn lemma_join_front(a: Seq<char>, v: Seq<Seq<char>>, c: char)
    requires
        v.len() > 0,
    ensures
        join(seq![a] + v, c) == a + seq![c] + join(v, c),
    decreases v.len(),
{
    let w = seq![a] + v;
    if v.len() == 1 {
        assert(w.drop_last() =~= seq![a]);
        assert(join(w.drop_last(), c) == a);
    } else {
        assert(w.drop_last() =~= seq![a] + v.drop_last());
        lemma_join_front(a, v.drop_last(), c);
        assert(join(w, c) =~= a + seq![c] + join(v, c));
    }
}

/// Splitting loses nothing: put together again with the separator the pieces make
/// the text, and none of them has the separator in it.
pub proof fn pieces_make_the_text(s: Seq<char>, c: char)
    ensures
        split(s, c).len() > 0,
        join(split(s, c), c) == s,
        forall|i: int| 0 <= i < split(s, c).len() ==> !(#[trigger] split(s, c)[i]).contains(c),
    decreases s.len(),
{
    lemma_index_from(s, c, 0);
    match index_from(s, c, 0) {
        Some(i) => {
            let rest = split(s.skip(i + 1), c);
            pieces_make_the_text(s.skip(i + 1), c);
            lemma_join_front(s.take(i), rest, c);
            assert(s.take(i) + seq![c] + s.skip(i + 1) =~= s);
            assert forall|k: int| 0 <= k < split(s, c).len() implies !(
            #[trigger] split(s, c)[k]).contains(c) by {
                if k > 0 {
                    assert(split(s, c)[k] == rest[k - 1]);
                }
            }
        },
        None => {},
    }
}

/// Searching from an index is searching the rest.
pub proof fn lemma_index_from_skip(s: Seq<char>, c: char, from: int)
    requires
        0 <= from <= s.len(),
    ensures
        index_from(s.skip(from), c, 0) == match index_from(s, c, from) {
            Some(i) => Some(i - from),
            None => None,
        },
{
    let rest = s.skip(from);
    lemma_index_from(s, c, from);
    lemma_index_from(rest, c, 0);
    match index_from(s, c, from) {
        Some(i) => {
            assert(forall|j: int| 0 <= j < i - from ==> rest[j] == s[from + j]);
            lemma_index_from_is(rest, c, 0, i - from);
        },
        None => {
            if index_from(rest, c, 0) is Some {
                let j = index_from(rest, c, 0)->0;
                assert(s[from + j] == c);
            }
        },
    }
}

// ---------------------------------------------------------------------------
// Order
// ---------------------------------------------------------------------------

/// Whether `a` comes before `b`, character by character.
pub open spec fn before(a: Seq<char>, b: Seq<char>) -> bool
    decreases a.len(),
{
    if b.len() == 0 {
        false
    } else if a.len() == 0 {
        true
    } else if a[0] != b[0] {
        a[0] < b[0]
    } else {
        before(a.drop_first(), b.drop_first())
    }
}

/// Of two different texts one comes before the other, and only one.
pub proof fn lemma_before_total(a: Seq<char>, b: Seq<char>)
    ensures
        a == b ==> !before(a, b),
        a != b ==> before(a, b) != before(b, a),
    decreases a.len(),
{
    if a.len() == 0 && b.len() == 0 {
        assert(a =~= b);
    } else if a.len() > 0 && b.len() > 0 && a[0] == b[0] {
        lemma_before_total(a.drop_first(), b.drop_first());
        if a.drop_first() == b.drop_first() {
            assert(a =~= seq![a[0]] + a.drop_first());
            assert(b =~= seq![b[0]] + b.drop_first());
        }
    }
}

/// The order is transitive.
pub proof fn lemma_before_transitive(a: Seq<char>, b: Seq<char>, c: Seq<char>)
    requires
        before(a, b),
        before(b, c),
    ensures
        before(a, c),
    decreases a.len(),
{
    if a.len() > 0 && a[0] == b[0] && b[0] == c[0] {
        lemma_before_transitive(a.drop_first(), b.drop_first(), c.drop_first());
    }
}

/// Whether `a` comes before `b`.
pub fn comes_before(a: &[char], b: &[char]) -> (r: bool)
    ensures
        r == before(a@, b@),
{
    let mut i: usize = 0;
    assert(a@.skip(0) =~= a@);
    assert(b@.skip(0) =~= b@);
    loop
        invariant
            i <= a@.len(),
            i <= b@.len(),
            before(a@.skip(i as int), b@.skip(i as int)) == before(a@, b@),
        decreases a@.len() - i,
    {
        if i == b.len() {
            return false;
        }
        if i == a.len() {
            return true;
        }
        if a[i] != b[i] {
            return a[i] < b[i];
        }
        assert(a@.skip(i as int).drop_first() =~= a@.skip(i + 1));
        assert(b@.skip(i as int).drop_first() =~= b@.skip(i + 1));
        i += 1;
    }
}

// ---------------------------------------------------------------------------
// ASCII case
// ---------------------------------------------------------------------------

/// `c` in ASCII lower case.
pub open spec fn lower(c: char) -> char {
    if 'A' <= c <= 'Z' {
        ((c as u32 + 32) as u32) as char
    } else {
        c
    }
}

/// `s` in ASCII lower case.
pub open spec fn lowercase(s: Seq<char>) -> Seq<char> {
    s.map_values(|c: char| lower(c))
}

/// `c` in ASCII lower case.
pub fn lower_char(c: char) -> (r: char)
    ensures
        r == lower(c),
{
    if 'A' <= c && c <= 'Z' {
        (c as u8 + 32) as char
    } else {
        c
    }
}

/// `v` in ASCII lower case.
pub fn lowered(v: &[char]) -> (r: Vec<char>)
    ensures
        r@ == lowercase(v@),
{
    let mut r: Vec<char> = Vec::new();
    let mut i: usize = 0;
    while i < v.len()
        invariant
            i <= v.len(),
            r@ == lowercase(v@).take(i as int),
        decreases v.len() - i,
    {
        r.push(lower_char(v[i]));
        i += 1;
        assert(lowercase(v@).take(i as int) =~= lowercase(v@).take(i - 1).push(lower(v@[i - 1])));
    }
    assert(lowercase(v@).take(i as int) =~= lowercase(v@));
    r
}

// ---------------------------------------------------------------------------
// Length in bytes
// ---------------------------------------------------------------------------

/// How many bytes UTF-8 takes for `s`.
pub open spec fn byte_len(s: Seq<char>) -> nat {
    vstd::utf8::encode_utf8(s).len()
}

/// How many bytes UTF-8 takes for `c`.
pub open spec fn char_bytes(c: char) -> nat {
    vstd::utf8::encode_scalar(c as u32).len()
}

/// How many bytes UTF-8 takes for `c`.
pub fn char_byte_len(c: char) -> (n: usize)
    ensures
        n == char_bytes(c),
        1 <= n <= 4,
{
    proof {
        vstd::utf8::char_is_scalar(c);
    }
    let u: u32 = c as u32;
    if u <= 0x7f {
        1
    } else if u <= 0x7ff {
        2
    } else if u <= 0xffff {
        3
    } else {
        4
    }
}

/// The first character's bytes and the rest's make up the whole.
pub proof fn lemma_byte_len(s: Seq<char>)
    requires
        s.len() > 0,
    ensures
        byte_len(s) == char_bytes(s[0]) + byte_len(s.drop_first()),
        1 <= char_bytes(s[0]) <= 4,
{
    vstd::utf8::char_is_scalar(s[0]);
}

/// The bytes of two texts put together.
pub proof fn lemma_byte_len_concat(s: Seq<char>, t: Seq<char>)
    ensures
        byte_len(s + t) == byte_len(s) + byte_len(t),
    decreases s.len(),
{
    if s.len() == 0 {
        assert(s + t =~= t);
    } else {
        lemma_byte_len(s);
        lemma_byte_len(s + t);
        assert((s + t).drop_first() =~= s.drop_first() + t);
        lemma_byte_len_concat(s.drop_first(), t);
    }
}

/// A text has no more characters than bytes, and a quarter as many at least.
pub proof fn lemma_byte_len_bounds(s: Seq<char>)
    ensures
        s.len() <= byte_len(s) <= 4 * s.len(),
    decreases s.len(),
{
    if s.len() > 0 {
        lemma_byte_len(s);
        lemma_byte_len_bounds(s.drop_first());
    }
}

} // verus!
