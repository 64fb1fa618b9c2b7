//! Model replies: reasoning between `<think>` and `</think>` is kept apart
//! from the answer.

use crate::text;
use crate::text::char_byte_len;
use crate::text::chars_of;
use crate::text::extend;
use crate::text::find_at;
use crate::text::matches_at;
use crate::text::piece;
use crate::text::string_of;
use crate::text::trim_end_at;
use crate::text::trim_start_at;
use crate::text::CharClass;
use regex::Regex;
use vstd::prelude::*;

verus! {

/// Matches one think block, the shortest that a given opening tag has.
pub const THINK_BLOCK: &'static str = "(?s)<think>.*?</think>";

/// Matches one think block and captures what stands between its tags.
pub const THINK_CAPTURE: &'static str = "(?s)<think>(.*?)</think>";

const OPEN_TAG: &'static str = "<think>";

const CLOSE_TAG: &'static str = "</think>";

/// The opening tag.
pub open spec fn open_tag() -> Seq<char> {
    "<think>"@
}

/// The closing tag.
pub open spec fn close_tag() -> Seq<char> {
    "</think>"@
}

/// The first complete think block of `s`: where its opening tag stands and
/// where its closing tag stands.
pub open spec fn first_block(s: Seq<char>) -> Option<(int, int)> {
    match text::find_from(s, open_tag(), 0) {
        Some(open) => match text::find_from(s, close_tag(), open + open_tag().len()) {
            Some(close) => Some((open, close)),
            None => None,
        },
        None => None,
    }
}

/// `s` with every think block cut out, from left to right.
pub open spec fn without_blocks(s: Seq<char>) -> Seq<char>
    decreases s.len(),
    via without_blocks_decreases
{
    match first_block(s) {
        Some((open, close)) => s.take(open) + without_blocks(
            s.skip(close + close_tag().len() as int),
        ),
        None => s,
    }
}

#[via_fn]
proof fn without_blocks_decreases(s: Seq<char>) {
    reveal_strlit("</think>");
    text::lemma_find_from(s, open_tag(), 0);
    if let Some(open) = text::find_from(s, open_tag(), 0) {
        text::lemma_find_from(s, close_tag(), open + open_tag().len());
    }
}

/// `Regex::replace_all` of the `regex` crate, with an empty replacement: every
/// match of the pattern is removed, going from left to right, each match being
/// the leftmost one and, of those, the shortest.
#[verifier::external_body]
fn replace_all(pattern: &str, text: &str, replacement: &str) -> (r: String)
    requires
        pattern@ == THINK_BLOCK@,
        replacement@.len() == 0,
    ensures
        r@ == without_blocks(text@),
{
    Regex::new(pattern).unwrap().replace_all(text, replacement).into_owned()
}

/// `Regex::captures` of the `regex` crate: what the first group captured in the
/// leftmost match of the pattern, which is what stands between the tags of the
/// first complete block.
#[verifier::external_body]
fn first_capture(pattern: &str, text: &str) -> (r: Option<String>)
    requires
        pattern@ == THINK_CAPTURE@,
    ensures
        match r {
            Some(inner) => first_block(text@) matches Some((open, close)) && inner@
                == text@.subrange(open + open_tag().len(), close),
            None => first_block(text@) is None,
        },
{
    Regex::new(pattern).unwrap().captures(text).and_then(|c| c.get(1)).map(|m| m.as_str().to_owned())
}

/// What stands between the tags of the first complete think block of `text`,
/// and `None` where there is no complete block.
pub fn extract_first_think_content(text: &str) -> (r: Option<String>)
    ensures
        match r {
            Some(inner) => first_block(text@) matches Some((open, close)) && inner@
                == text@.subrange(open + open_tag().len(), close),
            None => first_block(text@) is None,
        },
{
    first_capture(THINK_CAPTURE, text)
}

/// What `strip_think_blocks` makes of a text that has no block left: white
/// space goes at the end, line breaks go at the start, and indentation stays.
pub open spec fn tidied(s: Seq<char>) -> Seq<char> {
    text::trim_start(text::trim_end(s, CharClass::Space), CharClass::Newline)
}

/// Trims white space at the end and line breaks at the start.
pub fn tidy(text: &str) -> (r: String)
    ensures
        r@ == tidied(text@),
{
    let v = chars_of(text);
    let end = trim_end_at(&v, 0, CharClass::Space);
    let w = piece(&v, 0, end);
    assert(v@.skip(0) =~= v@);
    let i = trim_start_at(&w, CharClass::Newline);
    let kept = piece(&w, i, w.len());
    assert(kept@ =~= w@.skip(i as int));
    string_of(&kept)
}

/// Removes every think block from a reply, then white space at the end and
/// line breaks at the start; indentation of the first line stays.
pub fn strip_think_blocks(text: &str) -> (r: String)
    ensures
        r@ == tidied(without_blocks(text@)),
{
    let none = String::new();
    let kept = replace_all(THINK_BLOCK, text, none.as_str());
    tidy(kept.as_str())
}

// ---------------------------------------------------------------------------
// The streaming filter
// ---------------------------------------------------------------------------

/// Where a [`ThinkBlockFilter`] stands in the stream.
#[derive(Debug, Clone, Copy, PartialEq, Eq, Structural)]
pub enum ThinkState {
    /// The opening tag has not been seen; what might become it is held back.
    BeforeThink,
    /// Inside the block: nothing is shown.
    InsideThink,
    /// Past the block, or there was none.
    PassThrough,
}

/// What a [`ThinkBlockFilter`] holds.
#[verifier::ext_equal]
pub struct FilterView {
    pub state: ThinkState,
    /// Text held back: a possible tag, or the end of the block so far.
    pub pending: Seq<char>,
    /// Whether line breaks are still dropped after the block.
    pub trim: bool,
    /// The block's text so far, without what is pending.
    pub content: Seq<char>,
}

/// Incremental filter that takes the first `<think>...</think>` block out of a
/// stream of tokens. Tokens go in one at a time through [`Self::feed`], which
/// hands back the text to show. After the closing tag everything is shown.
pub struct ThinkBlockFilter {
    state: ThinkState,
    pending: Vec<char>,
    trim_leading_newlines: bool,
    think_content: Vec<char>,
}

impl View for ThinkBlockFilter {
    type V = FilterView;

    closed spec fn view(&self) -> FilterView {
        FilterView {
            state: self.state,
            pending: self.pending@,
            trim: self.trim_leading_newlines,
            content: self.think_content@,
        }
    }
}

/// Where the shortest end of `s` starts that takes seven bytes or more: one
/// byte less than a closing tag. The whole of `s` where it is shorter.
pub open spec fn tail_start(s: Seq<char>) -> int
    decreases s.len(),
{
    if s.len() > 0 && text::byte_len(s.drop_first()) >= 7 {
        1 + tail_start(s.drop_first())
    } else {
        0
    }
}

/// A token that arrives inside the block.
pub open spec fn fed_inside(f: FilterView, token: Seq<char>) -> (FilterView, Seq<char>) {
    let all = f.pending + token;
    match text::find_from(all, close_tag(), 0) {
        Some(pos) => {
            let out = text::trim_start(all.skip(pos + close_tag().len()), CharClass::Newline);
            (
                FilterView {
                    state: ThinkState::PassThrough,
                    pending: seq![],
                    trim: out.len() == 0,
                    content: f.content + all.take(pos),
                },
                out,
            )
        },
        None => {
            let at = tail_start(all);
            (
                FilterView {
                    state: ThinkState::InsideThink,
                    pending: all.skip(at),
                    trim: f.trim,
                    content: f.content + all.take(at),
                },
                seq![],
            )
        },
    }
}

/// The filter after `token`, and what is shown of it.
pub open spec fn fed(f: FilterView, token: Seq<char>) -> (FilterView, Seq<char>) {
    match f.state {
        ThinkState::BeforeThink => {
            let all = f.pending + token;
            if text::starts_with(all, open_tag()) {
                fed_inside(
                    FilterView { state: ThinkState::InsideThink, pending: seq![], ..f },
                    all.skip(open_tag().len() as int),
                )
            } else if text::starts_with(open_tag(), all) {
                (FilterView { pending: all, ..f }, seq![])
            } else {
                (FilterView { state: ThinkState::PassThrough, pending: seq![], ..f }, all)
            }
        },
        ThinkState::InsideThink => fed_inside(f, token),
        ThinkState::PassThrough => if f.trim {
            let out = text::trim_start(token, CharClass::Newline);
            (FilterView { trim: out.len() == 0, ..f }, out)
        } else {
            (f, token)
        },
    }
}

/// A filter that has been fed nothing.
pub open spec fn fresh_filter() -> FilterView {
    FilterView { state: ThinkState::BeforeThink, pending: seq![], trim: false, content: seq![] }
}

impl Default for ThinkBlockFilter {
    fn default() -> (f: Self)
        ensures
            f@ == fresh_filter(),
    {
        Self::new()
    }
}

impl ThinkBlockFilter {
    /// A filter that has been fed nothing.
    pub fn new() -> (f: Self)
        ensures
            f@ == fresh_filter(),
    {
        ThinkBlockFilter {
            state: ThinkState::BeforeThink,
            pending: Vec::new(),
            trim_leading_newlines: false,
            think_content: Vec::new(),
        }
    }

    /// Whether the stream is inside the block.
    pub fn is_thinking(&self) -> (r: bool)
        ensures
            r == (self@.state == ThinkState::InsideThink),
    {
        matches!(self.state, ThinkState::InsideThink)
    }

    /// Takes the block's text so far, leaving none. Once the closing tag has
    /// gone by, that is the whole text of the block.
    pub fn take_think_content(&mut self) -> (r: String)
        ensures
            r@ == old(self)@.content,
            final(self)@ == (FilterView { content: seq![], ..old(self)@ }),
    {
        let r = string_of(&self.think_content);
        self.think_content = Vec::new();
        r
    }

    /// Feeds a token; hands back the text to show, which may be empty.
    pub fn feed(&mut self, token: &str) -> (r: String)
        ensures
            (final(self)@, r@) == fed(old(self)@, token@),
    {
        match self.state {
            ThinkState::BeforeThink => self.feed_before(token),
            ThinkState::InsideThink => {
                let t = chars_of(token);
                self.feed_inside(&t)
            },
            ThinkState::PassThrough => self.feed_passthrough(token),
        }
    }

    fn feed_before(&mut self, token: &str) -> (r: String)
        requires
            old(self)@.state == ThinkState::BeforeThink,
        ensures
            (final(self)@, r@) == fed(old(self)@, token@),
    {
        let t = chars_of(token);
        let open = chars_of(OPEN_TAG);
        let mut all = self.pending.clone();
        assert(all@ =~= self.pending@);
        extend(&mut all, &t);
        if matches_at(&all, &open, 0) {
            self.pending = Vec::new();
            self.state = ThinkState::InsideThink;
            let rest = piece(&all, open.len(), all.len());
            assert(rest@ =~= all@.skip(open_tag().len() as int));
            self.feed_inside(&rest)
        } else if matches_at(&open, &all, 0) {
            self.pending = all;
            String::new()
        } else {
            self.pending = Vec::new();
            self.state = ThinkState::PassThrough;
            string_of(&all)
        }
    }

    fn feed_inside(&mut self, token: &Vec<char>) -> (r: String)
        requires
            old(self)@.state == ThinkState::InsideThink,
        ensures
            (final(self)@, r@) == fed_inside(old(self)@, token@),
    {
        let close = chars_of(CLOSE_TAG);
        let mut all = self.pending.clone();
        assert(all@ =~= self.pending@);
        extend(&mut all, token);
        match find_at(&all, &close, 0) {
            Some(pos) => {
                let before = piece(&all, 0, pos);
                assert(before@ =~= all@.take(pos as int));
                extend(&mut self.think_content, &before);
                let total: usize = all.len();
                let after = piece(&all, pos + close.len(), total);
                assert(after@ =~= all@.skip(pos + close@.len()));
                let i = trim_start_at(&after, CharClass::Newline);
                let shown = piece(&after, i, after.len());
                assert(shown@ =~= after@.skip(i as int));
                self.trim_leading_newlines = shown.len() == 0;
                self.pending = Vec::new();
                self.state = ThinkState::PassThrough;
                string_of(&shown)
            },
            None => {
                let at = tail_start_at(&all);
                let before = piece(&all, 0, at);
                assert(before@ =~= all@.take(at as int));
                extend(&mut self.think_content, &before);
                self.pending = piece(&all, at, all.len());
                assert(self.pending@ =~= all@.skip(at as int));
                String::new()
            },
        }
    }

    fn feed_passthrough(&mut self, token: &str) -> (r: String)
        requires
            old(self)@.state == ThinkState::PassThrough,
        ensures
            (final(self)@, r@) == fed(old(self)@, token@),
    {
        if self.trim_leading_newlines {
            let t = chars_of(token);
            let i = trim_start_at(&t, CharClass::Newline);
            let shown = piece(&t, i, t.len());
            assert(shown@ =~= t@.skip(i as int));
            self.trim_leading_newlines = shown.len() == 0;
            string_of(&shown)
        } else {
            token.to_owned()
        }
    }
}

/// Where the end of `v` starts that is held back.
fn tail_start_at(v: &[char]) -> (at: usize)
    ensures
        at == tail_start(v@),
        at <= v@.len(),
{
    let mut at: usize = v.len();
    let mut bytes: usize = 0;
    assert(v@.skip(at as int) =~= Seq::<char>::empty());
    while at > 0 && bytes < 7
        invariant
            at <= v@.len(),
            bytes == text::byte_len(v@.skip(at as int)),
            bytes < 7 + 4,
            at < v@.len() ==> text::byte_len(v@.skip(at + 1)) < 7,
        decreases at,
    {
        let ghost s = v@.skip(at - 1);
        proof {
            text::lemma_byte_len(s);
            assert(s.drop_first() =~= v@.skip(at as int));
        }
        at -= 1;
        bytes += char_byte_len(v[at]);
    }
    proof {
        lemma_tail_start(v@, at as int);
    }
    at
}

/// What singles `tail_start` out.
proof fn lemma_tail_start(s: Seq<char>, i: int)
    requires
        0 <= i <= s.len(),
        i < s.len() ==> text::byte_len(s.skip(i + 1)) < 7,
        i > 0 ==> text::byte_len(s.skip(i)) >= 7,
    ensures
        tail_start(s) == i,
    decreases i,
{
    if i > 0 {
        let t = s.drop_first();
        assert(t.skip(i - 1) =~= s.skip(i));
        if i < s.len() {
            assert(t.skip(i) =~= s.skip(i + 1));
        }
        lemma_byte_len_skip(t, i - 1);
        if i - 1 == 0 {
            assert(t.skip(0) =~= t);
        }
        lemma_tail_start(t, i - 1);
    } else if s.len() > 0 {
        assert(s.skip(1) =~= s.drop_first());
    }
}

/// What `tail_start` gives.
proof fn lemma_tail_start_gives(s: Seq<char>)
    ensures
        0 <= tail_start(s) <= s.len(),
        tail_start(s) < s.len() ==> text::byte_len(s.skip(tail_start(s) + 1)) < 7,
        tail_start(s) > 0 ==> text::byte_len(s.skip(tail_start(s))) >= 7,
        text::byte_len(s) >= 7 ==> text::byte_len(s.skip(tail_start(s))) >= 7,
    decreases s.len(),
{
    if s.len() > 0 && text::byte_len(s.drop_first()) >= 7 {
        let t = s.drop_first();
        lemma_tail_start_gives(t);
        let k = tail_start(t);
        assert(t.skip(k) =~= s.skip(k + 1));
        if k < t.len() {
            assert(t.skip(k + 1) =~= s.skip(k + 2));
        }
        if k == 0 {
            assert(t.skip(0) =~= t);
        }
    } else {
        assert(s.skip(0) =~= s);
        if s.len() > 0 {
            assert(s.skip(1) =~= s.drop_first());
        }
    }
}

/// An end of a text takes no more bytes than the text.
proof fn lemma_byte_len_skip(s: Seq<char>, i: int)
    requires
        0 <= i <= s.len(),
    ensures
        text::byte_len(s.skip(i)) <= text::byte_len(s),
        i > 0 ==> text::byte_len(s.skip(i)) < text::byte_len(s),
{
    assert(s =~= s.take(i) + s.skip(i));
    text::lemma_byte_len_concat(s.take(i), s.skip(i));
    if i > 0 {
        text::lemma_byte_len(s.take(i));
    }
}

// ---------------------------------------------------------------------------
// Laws
// ---------------------------------------------------------------------------

/// The state of a filter that has been fed `t`, in however many pieces.
pub open spec fn filter_after(t: Seq<char>) -> FilterView {
    if text::starts_with(t, open_tag()) {
        let body = t.skip(open_tag().len() as int);
        match text::find_from(body, close_tag(), 0) {
            Some(pos) => FilterView {
                state: ThinkState::PassThrough,
                pending: seq![],
                trim: text::trim_start(body.skip(pos + close_tag().len()), CharClass::Newline).len() == 0,
                content: body.take(pos),
            },
            None => FilterView {
                state: ThinkState::InsideThink,
                pending: body.skip(tail_start(body)),
                trim: false,
                content: body.take(tail_start(body)),
            },
        }
    } else if text::starts_with(open_tag(), t) {
        FilterView { state: ThinkState::BeforeThink, pending: t, trim: false, content: seq![] }
    } else {
        FilterView { state: ThinkState::PassThrough, pending: seq![], trim: false, content: seq![] }
    }
}

/// What is shown of a stream `t`: nothing of a block that it starts with, nor
/// of the line breaks right after it; nothing yet while `t` may still become an
/// opening tag; otherwise all of it.
pub open spec fn visible(t: Seq<char>) -> Seq<char> {
    if text::starts_with(t, open_tag()) {
        let body = t.skip(open_tag().len() as int);
        match text::find_from(body, close_tag(), 0) {
            Some(pos) => text::trim_start(body.skip(pos + close_tag().len()), CharClass::Newline),
            None => seq![],
        }
    } else if text::starts_with(open_tag(), t) {
        seq![]
    } else {
        t
    }
}

/// A run of tokens, put together.
pub open spec fn joined(tokens: Seq<Seq<char>>) -> Seq<char>
    decreases tokens.len(),
{
    if tokens.len() == 0 {
        seq![]
    } else {
        joined(tokens.drop_last()) + tokens.last()
    }
}

/// A fresh filter after a run of tokens, and everything it has shown.
pub open spec fn fed_all(tokens: Seq<Seq<char>>) -> (FilterView, Seq<char>)
    decreases tokens.len(),
{
    if tokens.len() == 0 {
        (fresh_filter(), seq![])
    } else {
        let (before, shown) = fed_all(tokens.drop_last());
        let (after, out) = fed(before, tokens.last());
        (after, shown + out)
    }
}

/// How a stream is cut into tokens does not matter: what a filter shows, and
/// the state it is left in, depend on the whole stream alone.
pub proof fn filter_ignores_token_boundaries(tokens: Seq<Seq<char>>)
    ensures
        fed_all(tokens) == (filter_after(joined(tokens)), visible(joined(tokens))),
    decreases tokens.len(),
{
    if tokens.len() == 0 {
        reveal_strlit("<think>");
        let t = Seq::<char>::empty();
        assert(open_tag().subrange(0, 0) =~= t);
        assert(fed_all(tokens).0 =~= filter_after(t));
    } else {
        filter_ignores_token_boundaries(tokens.drop_last());
        lemma_fed_next(joined(tokens.drop_last()), tokens.last());
    }
}

proof fn lemma_fed_next(t: Seq<char>, token: Seq<char>)
    ensures
        fed(filter_after(t), token).0 == filter_after(t + token),
        visible(t) + fed(filter_after(t), token).1 == visible(t + token),
{
    reveal_strlit("<think>");
    reveal_strlit("</think>");
    let all = t + token;
    let n = open_tag().len() as int;
    if text::starts_with(t, open_tag()) {
        assert(all.subrange(0, n) =~= t.subrange(0, n));
        let body = t.skip(n);
        assert(all.skip(n) =~= body + token);
        lemma_fed_inside_next(body, token);
        text::lemma_find_from(body, close_tag(), 0);
        match text::find_from(body, close_tag(), 0) {
            Some(pos) => {
                let rest = body.skip(pos + close_tag().len());
                lemma_close_stays(body, token, pos);
                text::lemma_trim_start_append(rest, token, CharClass::Newline);
                assert((body + token).skip(pos + close_tag().len()) =~= rest + token);
                assert((body + token).take(pos) =~= body.take(pos));
                assert(fed(filter_after(t), token).0 =~= filter_after(all));
                assert(visible(t) + fed(filter_after(t), token).1 =~= visible(all));
            },
            None => {
                assert(fed(filter_after(t), token).0 =~= filter_after(all));
                assert(visible(t) + fed(filter_after(t), token).1 =~= visible(all));
            },
        }
    } else if text::starts_with(open_tag(), t) {
        if text::starts_with(all, open_tag()) {
            let rest = all.skip(n);
            assert(Seq::<char>::empty() + rest =~= rest);
            lemma_tail_start_gives(rest);
            assert(fed(filter_after(t), token).0 =~= filter_after(all));
            assert(visible(t) + fed(filter_after(t), token).1 =~= visible(all));
        } else {
            assert(fed(filter_after(t), token).0 =~= filter_after(all));
            assert(visible(t) + fed(filter_after(t), token).1 =~= visible(all));
        }
    } else {
        if text::starts_with(all, open_tag()) {
            // `t` would be a start of the tag, or the tag a start of `t`.
            if t.len() <= n {
                assert(open_tag().subrange(0, t.len() as int) =~= t) by {
                    assert(all.subrange(0, n) == open_tag());
                    assert forall|i: int| 0 <= i < t.len() implies open_tag()[i] == t[i] by {
                        assert(all.subrange(0, n)[i] == all[i]);
                    }
                }
            } else {
                assert(t.subrange(0, n) =~= all.subrange(0, n));
            }
        }
        if text::starts_with(open_tag(), all) {
            assert(open_tag().subrange(0, t.len() as int) =~= t) by {
                assert forall|i: int| 0 <= i < t.len() implies open_tag()[i] == t[i] by {
                    assert(open_tag().subrange(0, all.len() as int)[i] == all[i]);
                }
            }
        }
        assert(fed(filter_after(t), token).0 =~= filter_after(all));
        assert(visible(t) + fed(filter_after(t), token).1 =~= visible(all));
    }
}

/// A closing tag that has been seen stays the first one.
proof fn lemma_close_stays(body: Seq<char>, token: Seq<char>, pos: int)
    requires
        text::find_from(body, close_tag(), 0) == Some(pos),
    ensures
        text::find_from(body + token, close_tag(), 0) == Some(pos),
{
    let all = body + token;
    let m = close_tag().len() as int;
    text::lemma_find_from(body, close_tag(), 0);
    assert(all.subrange(pos, pos + m) =~= body.subrange(pos, pos + m));
    assert forall|j: int| 0 <= j < pos implies !#[trigger] text::occurs_at(all, close_tag(), j) by {
        assert(!text::occurs_at(body, close_tag(), j));
        assert(all.subrange(j, j + m) =~= body.subrange(j, j + m));
    }
    text::lemma_find_from_is(all, close_tag(), 0, pos);
}

/// Inside the block, what is held back is enough to see a closing tag that a
/// later token completes.
proof fn lemma_fed_inside_next(body: Seq<char>, token: Seq<char>)
    ensures
        text::find_from(body, close_tag(), 0) is None ==> ({
            let k = tail_start(body);
            let all = body.skip(k) + token;
            match text::find_from(all, close_tag(), 0) {
                Some(pos) => {
                    &&& text::find_from(body + token, close_tag(), 0) == Some(pos + k)
                    &&& (body + token).take(pos + k) == body.take(k) + all.take(pos)
                    &&& (body + token).skip(pos + k + close_tag().len()) == all.skip(
                        pos + close_tag().len(),
                    )
                },
                None => {
                    &&& text::find_from(body + token, close_tag(), 0) is None
                    &&& tail_start(body + token) == k + tail_start(all)
                    &&& (body + token).take(k + tail_start(all)) == body.take(k) + all.take(
                        tail_start(all),
                    )
                    &&& (body + token).skip(k + tail_start(all)) == all.skip(tail_start(all))
                },
            }
        }),
{
    if text::find_from(body, close_tag(), 0) is None {
        reveal_strlit("</think>");
        let c = close_tag();
        let m = c.len() as int;
        let k = tail_start(body);
        let whole = body + token;
        lemma_tail_start_gives(body);
        text::lemma_find_from(body, c, 0);
        let all = body.skip(k) + token;
        assert(all =~= whole.skip(k));
        // Nothing of the tag stands before what is held back.
        assert forall|j: int| 0 <= j < k implies !#[trigger] text::occurs_at(whole, c, j) by {
            if text::occurs_at(whole, c, j) {
                assert(!text::occurs_at(body, c, j));
                if j + m <= body.len() {
                    assert(body.subrange(j, j + m) =~= whole.subrange(j, j + m));
                }
                let end = body.skip(j);
                assert(end.len() <= 7);
                assert forall|i: int| 0 <= i < end.len() implies end[i] == c[i] by {
                    assert(whole.subrange(j, j + m)[i] == whole[j + i]);
                }
                assert(end =~= c.take(end.len() as int));
                vstd::utf8::is_ascii_chars_encode_utf8(end);
                assert(text::byte_len(end) <= 7);
                assert(end.skip(k - j) =~= body.skip(k));
                lemma_byte_len_skip(end, k - j);
                assert(false);
            }
        }
        text::lemma_find_from(all, c, 0);
        match text::find_from(all, c, 0) {
            Some(pos) => {
                assert(whole.subrange(pos + k, pos + k + m) =~= all.subrange(pos, pos + m));
                assert forall|j: int| 0 <= j < pos + k implies !#[trigger] text::occurs_at(
                    whole,
                    c,
                    j,
                ) by {
                    if j >= k && text::occurs_at(whole, c, j) {
                        assert(all.subrange(j - k, j - k + m) =~= whole.subrange(j, j + m));
                        assert(text::occurs_at(all, c, j - k));
                    }
                }
                text::lemma_find_from_is(whole, c, 0, pos + k);
                assert(whole.take(pos + k) =~= body.take(k) + all.take(pos));
                assert(whole.skip(pos + k + m) =~= all.skip(pos + m));
            },
            None => {
                assert forall|j: int| 0 <= j implies !#[trigger] text::occurs_at(whole, c, j) by {
                    if j >= k && text::occurs_at(whole, c, j) {
                        assert(all.subrange(j - k, j - k + m) =~= whole.subrange(j, j + m));
                        assert(text::occurs_at(all, c, j - k));
                    }
                }
                text::lemma_find_from_none(whole, c, 0);
                lemma_tail_start_gives(all);
                let k2 = tail_start(all);
                assert(whole.skip(k + k2) =~= all.skip(k2));
                if k2 < all.len() {
                    assert(whole.skip(k + k2 + 1) =~= all.skip(k2 + 1));
                }
                if k > 0 {
                    text::lemma_byte_len_concat(body.skip(k), token);
                }
                lemma_tail_start(whole, k + k2);
                assert(whole.take(k + k2) =~= body.take(k) + all.take(k2));
            },
        }
    }
}

/// Feeding a stream through the filter in any pieces and taking the block's
/// text afterwards gives the text between the tags.
pub proof fn filter_keeps_the_block(tokens: Seq<Seq<char>>, inner: Seq<char>, rest: Seq<char>)
    requires
        joined(tokens) == open_tag() + inner + close_tag() + rest,
        forall|i: int| 0 <= i < inner.len() + close_tag().len() ==> !(#[trigger] text::occurs_at(
            inner + close_tag(),
            close_tag(),
            i,
        ) && i < inner.len()),
    ensures
        fed_all(tokens).0.content == inner,
        fed_all(tokens).1 == text::trim_start(rest, CharClass::Newline),
{
    filter_ignores_token_boundaries(tokens);
    let t = joined(tokens);
    let n = open_tag().len() as int;
    let m = close_tag().len() as int;
    assert(t.subrange(0, n) =~= open_tag());
    let body = t.skip(n);
    let first = inner + close_tag();
    assert(body =~= first + rest);
    assert(first.subrange(inner.len() as int, inner.len() + m) =~= close_tag());
    assert forall|j: int| 0 <= j < inner.len() implies !#[trigger] text::occurs_at(
        first,
        close_tag(),
        j,
    ) by {}
    text::lemma_find_from_is(first, close_tag(), 0, inner.len() as int);
    lemma_close_stays(first, rest, inner.len() as int);
    assert(body.take(inner.len() as int) =~= inner);
    assert(body.skip(inner.len() + m) =~= rest);
}

} // verus!
