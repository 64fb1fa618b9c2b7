//! Streamed replies: lines of server-sent events.

use crate::api::wire;
use crate::api::wire::read_stream_chunk;
use crate::api::wire::StreamChunk;
use crate::api::wire::Usage;
use crate::json;
use crate::json::Json;
use crate::text;
use crate::text::chars_of;
use crate::text::extend;
use crate::text::index_at;
use crate::text::matches_at;
use crate::text::piece;
use crate::text::same;
use crate::text::string_of;
use crate::text::trim_end_at;
use crate::text::CharClass;
use crate::utf8;
use crate::utf8::decode;
use vstd::prelude::*;

verus! {

/// An event of a streamed reply.
#[derive(Debug, PartialEq)]
pub enum SseEvent {
    /// A piece of the answer.
    Content(String),
    /// A piece of reasoning that the server keeps apart from the answer.
    Reasoning(String),
    /// Why generation stopped, such as "stop" or "length".
    Finish(String),
    /// Token counts.
    Usage(Usage),
    Done,
}

/// What an event says.
pub enum EventView {
    Content(Seq<char>),
    Reasoning(Seq<char>),
    Finish(Seq<char>),
    Usage(Usage),
    Done,
}

impl SseEvent {
    pub open spec fn view(&self) -> EventView {
        match self {
            SseEvent::Content(s) => EventView::Content(s@),
            SseEvent::Reasoning(s) => EventView::Reasoning(s@),
            SseEvent::Finish(s) => EventView::Finish(s@),
            SseEvent::Usage(u) => EventView::Usage(*u),
            SseEvent::Done => EventView::Done,
        }
    }
}

/// What a run of events says.
pub open spec fn events_view(events: Seq<SseEvent>) -> Seq<EventView> {
    events.map_values(|e: SseEvent| e@)
}

/// One event, where there is text for it.
pub open spec fn when_text(s: Option<Seq<char>>, e: spec_fn(Seq<char>) -> EventView) -> Seq<
    EventView,
> {
    match s {
        Some(t) => if t.len() > 0 {
            seq![e(t)]
        } else {
            seq![]
        },
        None => seq![],
    }
}

/// The events of a piece of a reply: of its first answer the reasoning, the
/// text and the reason to stop, in that order; then the token counts.
pub open spec fn chunk_events(
    choices: Seq<wire::StreamChoiceView>,
    usage: Option<Usage>,
) -> Seq<EventView> {
    let of_choice = if choices.len() > 0 {
        when_text(choices[0].reasoning, |t: Seq<char>| EventView::Reasoning(t)) + when_text(
            choices[0].content,
            |t: Seq<char>| EventView::Content(t),
        ) + match choices[0].finish_reason {
            Some(why) => seq![EventView::Finish(why)],
            None => seq![],
        }
    } else {
        seq![]
    };
    of_choice + match usage {
        Some(u) => seq![EventView::Usage(u)],
        None => seq![],
    }
}

/// The events of a document: none where it is no piece of a reply.
pub open spec fn document_events(j: json::JsonView) -> Seq<EventView> {
    match wire::stream_chunk(j) {
        Some((choices, usage)) => chunk_events(choices, usage),
        None => seq![],
    }
}

/// The events of what follows `data:` on a line.
pub open spec fn data_events(data: Seq<char>) -> Seq<EventView> {
    if data == "[DONE]"@ {
        seq![EventView::Done]
    } else {
        match json::parsed(data) {
            Ok(j) => document_events(j),
            Err(_) => seq![],
        }
    }
}

/// What follows `data:` on a line, without the one space that may stand there;
/// `None` of any other line. Carriage returns at the end do not count.
pub open spec fn line_data(line: Seq<char>) -> Option<Seq<char>> {
    let l = text::trim_end(line, CharClass::Only('\r'));
    if text::starts_with(l, "data:"@) {
        let data = l.skip("data:"@.len() as int);
        if data.len() > 0 && data[0] == ' ' {
            Some(data.skip(1))
        } else {
            Some(data)
        }
    } else {
        None
    }
}

/// The events of a line.
pub open spec fn line_events(line: Seq<char>) -> Seq<EventView> {
    match line_data(line) {
        Some(data) => data_events(data),
        None => seq![],
    }
}

/// The events of the complete lines of `s`, and what is left after the last of
/// them.
pub open spec fn lines_events(s: Seq<char>) -> (Seq<EventView>, Seq<char>)
    decreases s.len(),
    via lines_events_decreases
{
    match text::index_from(s, '\n', 0) {
        Some(i) => {
            let rest = lines_events(s.skip(i + 1));
            (line_events(s.take(i)) + rest.0, rest.1)
        },
        None => (seq![], s),
    }
}

#[via_fn]
proof fn lines_events_decreases(s: Seq<char>) {
    text::lemma_index_from(s, '\n', 0);
}

/// What an [`SseParser`] holds.
#[verifier::ext_equal]
pub struct SseView {
    /// An unfinished line.
    pub buffer: Seq<char>,
    /// The bytes so far of an unfinished character after it.
    pub tail: Seq<u8>,
}

/// The parser after `chunk`, and the events of the lines that it completes.
pub open spec fn fed(p: SseView, chunk: Seq<u8>) -> (SseView, Seq<EventView>) {
    let (chars, tail) = utf8::decoded(p.tail + chunk);
    let (events, buffer) = lines_events(p.buffer + chars);
    (SseView { buffer, tail }, events)
}

/// The parser at the end of the stream, and the events of a last line that has
/// no line break. Bytes of a character that never came are dropped.
pub open spec fn flushed(p: SseView) -> (SseView, Seq<EventView>) {
    if p.buffer.len() == 0 {
        (SseView { buffer: p.buffer, tail: seq![] }, seq![])
    } else {
        fed(SseView { buffer: p.buffer.push('\n'), tail: seq![] }, seq![])
    }
}

/// Reads the lines of a streamed reply out of chunks of bytes. A line, or a
/// character, may be spread over any number of chunks.
pub struct SseParser {
    buffer: Vec<char>,
    tail: Vec<u8>,
}

impl View for SseParser {
    type V = SseView;

    closed spec fn view(&self) -> SseView {
        SseView { buffer: self.buffer@, tail: self.tail@ }
    }
}

/// A parser that has been fed nothing.
pub open spec fn fresh_parser() -> SseView {
    SseView { buffer: seq![], tail: seq![] }
}

impl Default for SseParser {
    fn default() -> (p: Self)
        ensures
            p@ == fresh_parser(),
    {
        Self::new()
    }
}

impl SseParser {
    /// A parser that has been fed nothing.
    pub fn new() -> (p: Self)
        ensures
            p@ == fresh_parser(),
    {
        SseParser { buffer: Vec::new(), tail: Vec::new() }
    }

    /// Feeds a chunk; hands back the events of the lines that it completes.
    /// Malformed bytes are replaced and do not stop the stream.
    pub fn feed(&mut self, chunk: &[u8]) -> (r: Vec<SseEvent>)
        ensures
            (final(self)@, events_view(r@)) == fed(old(self)@, chunk@),
    {
        let mut data: Vec<u8> = Vec::new();
        push_bytes(&mut data, &self.tail);
        push_bytes(&mut data, chunk);
        assert(data@ =~= self.tail@ + chunk@);
        let (chars, left) = decode(&data);
        self.tail = left;
        let mut all: Vec<char> = Vec::new();
        extend(&mut all, &self.buffer);
        extend(&mut all, &chars);
        assert(all@ =~= self.buffer@ + chars@);
        let mut events: Vec<SseEvent> = Vec::new();
        let mut start: usize = 0;
        let total: usize = all.len();
        proof {
            assert(all@.skip(0) =~= all@);
            assert(events_view(events@) + lines_events(all@).0 =~= lines_events(all@).0);
        }
        loop
            invariant_except_break
                events_view(events@) + lines_events(all@.skip(start as int)).0 == lines_events(
                    all@,
                ).0,
                lines_events(all@.skip(start as int)).1 == lines_events(all@).1,
            invariant
                total == all@.len(),
                start <= total,
            ensures
                events_view(events@) == lines_events(all@).0,
                all@.skip(start as int) == lines_events(all@).1,
            decreases total - start,
        {
            let ghost rest = all@.skip(start as int);
            proof {
                text::lemma_index_from_skip(all@, '\n', start as int);
            }
            match index_at(&all, '\n', start) {
                Some(i) => {
                    let ghost before = events@;
                    let line = piece(&all, start, i);
                    assert(line@ =~= rest.take(i - start));
                    assert(rest.skip(i - start + 1) =~= all@.skip(i + 1));
                    let mut more = events_of_line(&line);
                    let ghost new = more@;
                    events.append(&mut more);
                    assert(events_view(events@) =~= events_view(before) + events_view(new));
                    assert(events_view(events@) + lines_events(all@.skip(i + 1)).0 =~= events_view(
                        before,
                    ) + lines_events(rest).0);
                    start = i + 1;
                },
                None => {
                    assert(events_view(events@) + Seq::<EventView>::empty() =~= events_view(
                        events@,
                    ));
                    break;
                },
            }
        }
        self.buffer = piece(&all, start, total);
        assert(self.buffer@ =~= all@.skip(start as int));
        events
    }

    /// Hands back the events of a last line that came without a line break.
    /// For the end of the stream.
    pub fn flush(&mut self) -> (r: Vec<SseEvent>)
        ensures
            (final(self)@, events_view(r@)) == flushed(old(self)@),
    {
        self.tail = Vec::new();
        if self.buffer.len() == 0 {
            let none: Vec<SseEvent> = Vec::new();
            assert(events_view(none@) =~= Seq::<EventView>::empty());
            return none;
        }
        self.buffer.push('\n');
        let empty: Vec<u8> = Vec::new();
        self.feed(&empty)
    }
}

fn push_bytes(v: &mut Vec<u8>, more: &[u8])
    ensures
        final(v)@ == old(v)@ + more@,
{
    let ghost start = v@;
    let mut i: usize = 0;
    while i < more.len()
        invariant
            i <= more@.len(),
            v@ == start + more@.take(i as int),
        decreases more.len() - i,
    {
        v.push(more[i]);
        i += 1;
        assert(more@.take(i as int) =~= more@.take(i - 1).push(more@[i - 1]));
        assert(v@ =~= start + more@.take(i as int));
    }
    assert(more@.take(i as int) =~= more@);
}

/// The events of a line.
fn events_of_line(line: &Vec<char>) -> (r: Vec<SseEvent>)
    ensures
        events_view(r@) == line_events(line@),
{
    let prefix = chars_of("data:");
    let end = trim_end_at(line, 0, CharClass::Only('\r'));
    let l = piece(line, 0, end);
    assert(line@.skip(0) =~= line@);
    if !matches_at(&l, &prefix, 0) {
        let none: Vec<SseEvent> = Vec::new();
        assert(events_view(none@) =~= Seq::<EventView>::empty());
        return none;
    }
    let total: usize = l.len();
    let mut from: usize = prefix.len();
    let ghost data = l@.skip(from as int);
    if from < total && l[from] == ' ' {
        assert(data[0] == ' ');
        from += 1;
        assert(l@.skip(from as int) =~= data.skip(1));
    }
    let payload = piece(&l, from, total);
    assert(payload@ =~= l@.skip(from as int));
    assert(line_data(line@) == Some(payload@));
    events_of_data(&payload)
}

/// The events of what follows `data:` on a line.
fn events_of_data(data: &Vec<char>) -> (r: Vec<SseEvent>)
    ensures
        events_view(r@) == data_events(data@),
{
    let done = chars_of("[DONE]");
    if same(data, &done) {
        let mut one: Vec<SseEvent> = Vec::new();
        one.push(SseEvent::Done);
        assert(events_view(one@) =~= seq![EventView::Done]);
        return one;
    }
    let text = string_of(data);
    match json::parse(text.as_str()) {
        Ok(j) => events_of_document(&j),
        Err(_) => {
            let none: Vec<SseEvent> = Vec::new();
            assert(events_view(none@) =~= Seq::<EventView>::empty());
            none
        },
    }
}

/// The events of a document that a `data:` line holds.
pub fn events_of_document(j: &Json) -> (r: Vec<SseEvent>)
    ensures
        events_view(r@) == document_events(j@),
{
    match read_stream_chunk(j) {
        Some(chunk) => events_of_chunk(&chunk),
        None => {
            let none: Vec<SseEvent> = Vec::new();
            assert(events_view(none@) =~= Seq::<EventView>::empty());
            none
        },
    }
}

/// The events of a piece of a reply.
pub fn events_of_chunk(chunk: &StreamChunk) -> (r: Vec<SseEvent>)
    ensures
        events_view(r@) == chunk_events(wire::stream_choices_view(chunk.choices@), chunk.usage),
{
    let mut events: Vec<SseEvent> = Vec::new();
    let ghost choices = wire::stream_choices_view(chunk.choices@);
    if chunk.choices.len() > 0 {
        let first = &chunk.choices[0];
        assert(choices[0] == first@);
        if let Some(thought) = &first.reasoning {
            if !thought.as_str().is_empty() {
                events.push(SseEvent::Reasoning(thought.clone()));
            }
        }
        let ghost one = when_text(choices[0].reasoning, |t: Seq<char>| EventView::Reasoning(t));
        assert(events_view(events@) =~= one);
        if let Some(content) = &first.content {
            if !content.as_str().is_empty() {
                events.push(SseEvent::Content(content.clone()));
            }
        }
        let ghost two = one + when_text(
            choices[0].content,
            |t: Seq<char>| EventView::Content(t),
        );
        assert(events_view(events@) =~= two);
        if let Some(why) = &first.finish_reason {
            events.push(SseEvent::Finish(why.clone()));
        }
        assert(events_view(events@) =~= two + match choices[0].finish_reason {
            Some(why) => seq![EventView::Finish(why)],
            None => seq![],
        });
    } else {
        assert(events_view(events@) =~= Seq::<EventView>::empty());
    }
    let ghost before = events_view(events@);
    if let Some(u) = chunk.usage {
        events.push(SseEvent::Usage(u));
    }
    assert(events_view(events@) =~= before + match chunk.usage {
        Some(u) => seq![EventView::Usage(u)],
        None => seq![],
    });
    events
}

// ---------------------------------------------------------------------------
// Laws
// ---------------------------------------------------------------------------

/// Lines are the same however the text is cut in two.
proof fn lemma_lines_append(s: Seq<char>, t: Seq<char>)
    ensures
        lines_events(s + t).0 == lines_events(s).0 + lines_events(lines_events(s).1 + t).0,
        lines_events(s + t).1 == lines_events(lines_events(s).1 + t).1,
    decreases s.len(),
{
    text::lemma_index_from(s, '\n', 0);
    match text::index_from(s, '\n', 0) {
        Some(i) => {
            assert((s + t)[i] == '\n');
            assert(forall|j: int| 0 <= j < i ==> (s + t)[j] == s[j]);
            text::lemma_index_from_is(s + t, '\n', 0, i);
            assert((s + t).skip(i + 1) =~= s.skip(i + 1) + t);
            assert((s + t).take(i) =~= s.take(i));
            lemma_lines_append(s.skip(i + 1), t);
            assert(lines_events(s + t).0 =~= lines_events(s).0 + lines_events(
                lines_events(s).1 + t,
            ).0);
        },
        None => {},
    }
}

/// How a stream is cut into chunks does not matter: feeding two chunks one
/// after the other gives the events, and leaves the state, that feeding them as
/// one does.
pub proof fn feeding_ignores_chunk_boundaries(p: SseView, a: Seq<u8>, b: Seq<u8>)
    ensures
        fed(fed(p, a).0, b).0 == fed(p, a + b).0,
        fed(p, a).1 + fed(fed(p, a).0, b).1 == fed(p, a + b).1,
{
    let (chars, tail) = utf8::decoded(p.tail + a);
    utf8::decoding_ignores_chunk_boundaries(p.tail + a, b);
    assert(p.tail + a + b =~= p.tail + (a + b));
    let more = utf8::decoded(tail + b).0;
    lemma_lines_append(p.buffer + chars, more);
    assert(p.buffer + chars + more =~= p.buffer + (chars + more));
}

proof fn lemma_one_line(line: Seq<char>)
    requires
        text::index_from(line, '\n', 0) is None,
    ensures
        lines_events(line.push('\n')) == (line_events(line), Seq::<char>::empty()),
{
    let s = line.push('\n');
    text::lemma_index_from(line, '\n', 0);
    assert(forall|j: int| 0 <= j < line.len() ==> s[j] == line[j]);
    text::lemma_index_from_is(s, '\n', 0, line.len() as int);
    assert(s.take(line.len() as int) =~= line);
    let rest = s.skip(line.len() + 1int);
    assert(rest =~= Seq::<char>::empty());
    assert(lines_events(rest) == (Seq::<EventView>::empty(), rest));
    assert(line_events(line) + Seq::<EventView>::empty() =~= line_events(line));
}

/// A last line without a line break gives the events that it gives with one.
pub proof fn flush_completes_the_last_line(p: SseView)
    requires
        p.tail.len() == 0,
        text::index_from(p.buffer, '\n', 0) is None,
    ensures
        p.buffer.len() > 0 ==> flushed(p).1 == line_events(p.buffer),
        p.buffer.len() > 0 ==> flushed(p).0.buffer.len() == 0,
        flushed(p).0.tail.len() == 0,
{
    let s = p.buffer.push('\n');
    let none = Seq::<u8>::empty();
    assert(none + none =~= none);
    assert(utf8::decoded(none).0 =~= Seq::<char>::empty());
    assert(s + Seq::<char>::empty() =~= s);
    lemma_one_line(p.buffer);
}

/// What is left in the buffer never holds a line break.
pub proof fn buffer_is_one_unfinished_line(p: SseView, chunk: Seq<u8>)
    ensures
        text::index_from(fed(p, chunk).0.buffer, '\n', 0) is None,
{
    lemma_rest_has_no_break(p.buffer + utf8::decoded(p.tail + chunk).0);
}

proof fn lemma_rest_has_no_break(s: Seq<char>)
    ensures
        text::index_from(lines_events(s).1, '\n', 0) is None,
    decreases s.len(),
{
    text::lemma_index_from(s, '\n', 0);
    if let Some(i) = text::index_from(s, '\n', 0) {
        lemma_rest_has_no_break(s.skip(i + 1));
    }
}

/// A line of well-formed text gives its events however it is cut into bytes:
/// no character of it is lost or replaced at a cut.
pub proof fn a_cut_loses_no_character(line: Seq<char>, a: Seq<u8>, b: Seq<u8>)
    requires
        text::index_from(line, '\n', 0) is None,
        a + b == vstd::utf8::encode_utf8(line.push('\n')),
    ensures
        fed(fresh_parser(), a).1 + fed(fed(fresh_parser(), a).0, b).1 == line_events(line),
        fed(fed(fresh_parser(), a).0, b).0 == fresh_parser(),
{
    let s = line.push('\n');
    feeding_ignores_chunk_boundaries(fresh_parser(), a, b);
    utf8::decoding_undoes_encoding(s);
    assert(Seq::<u8>::empty() + (a + b) =~= a + b);
    assert(Seq::<char>::empty() + s =~= s);
    lemma_one_line(line);
}

// ---------------------------------------------------------------------------
// What a stream says
// ---------------------------------------------------------------------------

/// The answer in a run of events: its pieces put together.
pub open spec fn answer_in(events: Seq<EventView>) -> Seq<char>
    decreases events.len(),
{
    if events.len() == 0 {
        seq![]
    } else {
        answer_in(events.drop_last()) + match events.last() {
            EventView::Content(t) => t,
            _ => seq![],
        }
    }
}

/// The reasoning in a run of events: its pieces put together.
pub open spec fn reasoning_in(events: Seq<EventView>) -> Seq<char>
    decreases events.len(),
{
    if events.len() == 0 {
        seq![]
    } else {
        reasoning_in(events.drop_last()) + match events.last() {
            EventView::Reasoning(t) => t,
            _ => seq![],
        }
    }
}

proof fn lemma_in_append(a: Seq<EventView>, b: Seq<EventView>)
    ensures
        answer_in(a + b) == answer_in(a) + answer_in(b),
        reasoning_in(a + b) == reasoning_in(a) + reasoning_in(b),
    decreases b.len(),
{
    if b.len() == 0 {
        assert(a + b =~= a);
        assert(answer_in(a) + answer_in(b) =~= answer_in(a));
        assert(reasoning_in(a) + reasoning_in(b) =~= reasoning_in(a));
    } else {
        assert((a + b).drop_last() =~= a + b.drop_last());
        lemma_in_append(a, b.drop_last());
        assert(answer_in(a + b) =~= answer_in(a) + answer_in(b));
        assert(reasoning_in(a + b) =~= reasoning_in(a) + reasoning_in(b));
    }
}

proof fn lemma_in_one(e: EventView)
    ensures
        answer_in(seq![e]) == match e {
            EventView::Content(t) => t,
            _ => seq![],
        },
        reasoning_in(seq![e]) == match e {
            EventView::Reasoning(t) => t,
            _ => seq![],
        },
{
    assert(seq![e].drop_last() =~= Seq::<EventView>::empty());
    assert(answer_in(seq![e].drop_last()) == Seq::<char>::empty());
    assert(reasoning_in(seq![e].drop_last()) == Seq::<char>::empty());
    assert(answer_in(seq![e]) =~= match e {
        EventView::Content(t) => t,
        _ => seq![],
    });
    assert(reasoning_in(seq![e]) =~= match e {
        EventView::Reasoning(t) => t,
        _ => seq![],
    });
}

/// What a text member says; nothing where it is missing or no text.
pub open spec fn text_at(j: json::JsonView, name: Seq<char>) -> Seq<char> {
    match json::member(j, name) {
        Some(json::JsonView::Str(t)) => t,
        _ => seq![],
    }
}

/// A line that holds `data`, with a space or without.
pub open spec fn data_line(data: Seq<char>, space: bool) -> Seq<char> {
    if space {
        "data: "@ + data
    } else {
        "data:"@ + data
    }
}

/// Whether `data` can stand on a line and is not changed by that.
pub open spec fn fits_a_line(data: Seq<char>, space: bool) -> bool {
    &&& text::index_from(data, '\n', 0) is None
    &&& data.len() > 0 ==> data.last() != '\r'
    &&& !space && data.len() > 0 ==> data[0] != ' '
}

proof fn lemma_data_line(data: Seq<char>, space: bool)
    requires
        fits_a_line(data, space),
    ensures
        line_data(data_line(data, space)) == Some(data),
        text::index_from(data_line(data, space), '\n', 0) is None,
{
    reveal_strlit("data: ");
    reveal_strlit("data:");
    let line = data_line(data, space);
    assert(line.last() != '\r');
    assert(text::trim_end(line, CharClass::Only('\r')) == line);
    assert(line.subrange(0, 5) =~= "data:"@);
    let rest = line.skip(5);
    if space {
        assert(rest[0] == ' ');
        assert(rest.skip(1) =~= data);
    } else {
        assert(rest =~= data);
    }
    text::lemma_index_from(data, '\n', 0);
    text::lemma_index_from(line, '\n', 0);
    if let Some(i) = text::index_from(line, '\n', 0) {
        let n = line.len() - data.len();
        assert(i >= n ==> line[i] == data[i - n]);
    }
}

/// A piece of a reply is shown whole: the answer that its events make is the
/// `content` of its first answer's `delta`, to the last character, whatever
/// characters these are; and so it is with the reasoning, under either of its
/// names. Why generation stopped and the token counts come through as well, last.
pub proof fn pieces_are_shown_whole(
    data: Seq<char>,
    space: bool,
    j: json::JsonView,
    items: Seq<json::JsonView>,
    delta: json::JsonView,
)
    requires
        fits_a_line(data, space),
        json::parsed(data) == Ok::<json::JsonView, Seq<char>>(j),
        data != "[DONE]"@,
        wire::stream_chunk(j) is Some,
        j is Object,
        json::member(j, "choices"@) == Some(json::JsonView::Array(items)),
        items.len() > 0,
        items[0] is Object,
        json::member(items[0], "delta"@) == Some(delta),
        delta is Object,
    ensures
        answer_in(line_events(data_line(data, space))) == text_at(delta, "content"@),
        reasoning_in(line_events(data_line(data, space))) == text_at(delta, "reasoning_content"@)
            + text_at(delta, "reasoning"@),
        json::member(items[0], "finish_reason"@) matches Some(json::JsonView::Str(why))
            ==> line_events(data_line(data, space)).contains(EventView::Finish(why)),
        line_events(data_line(data, space)).len() > 0 && json::member(j, "usage"@) is None
            && json::member(items[0], "finish_reason"@) is None ==> line_events(
            data_line(data, space),
        ).last() == (if text_at(delta, "content"@).len() > 0 {
            EventView::Content(text_at(delta, "content"@))
        } else {
            EventView::Reasoning(reasoning_in(line_events(data_line(data, space))))
        }),
{
    lemma_data_line(data, space);
    wire::lemma_stream_choices_at(items, 0);
    let (choices, usage) = wire::stream_chunk(j)->0;
    let c = choices[0];
    assert(wire::stream_choice(items[0]) == Some(c));
    let a = when_text(c.reasoning, |t: Seq<char>| EventView::Reasoning(t));
    let b = when_text(c.content, |t: Seq<char>| EventView::Content(t));
    let f = match c.finish_reason {
        Some(why) => seq![EventView::Finish(why)],
        None => seq![],
    };
    let u = match usage {
        Some(n) => seq![EventView::Usage(n)],
        None => seq![],
    };
    let events = line_events(data_line(data, space));
    assert(events == a + b + f + u);
    lemma_in_append(a + b + f, u);
    lemma_in_append(a + b, f);
    lemma_in_append(a, b);
    if let Some(t) = c.reasoning {
        lemma_in_one(EventView::Reasoning(t));
    }
    if let Some(t) = c.content {
        lemma_in_one(EventView::Content(t));
    }
    if let Some(t) = c.finish_reason {
        lemma_in_one(EventView::Finish(t));
        assert((a + b + f + u)[(a.len() + b.len()) as int] == EventView::Finish(t));
    }
    if let Some(n) = usage {
        lemma_in_one(EventView::Usage(n));
    }
    assert(answer_in(events) =~= text_at(delta, "content"@));
    assert(reasoning_in(events) =~= text_at(delta, "reasoning_content"@) + text_at(
        delta,
        "reasoning"@,
    ));
}

/// Whether a document says `t` as the next piece of the answer, and nothing else.
pub open spec fn says_only(j: json::JsonView, t: Seq<char>) -> bool {
    &&& j is Object
    &&& json::member(j, "usage"@) is None
    &&& json::member(j, "choices"@) matches Some(json::JsonView::Array(items)) && items.len() == 1
        && items[0] is Object && json::member(items[0], "finish_reason"@) is None && (json::member(
        items[0],
        "delta"@,
    ) matches Some(delta) && delta is Object && json::member(delta, "content"@) == Some(
        json::JsonView::Str(t),
    ) && json::member(delta, "reasoning"@) is None && json::member(delta, "reasoning_content"@)
        is None)
}

/// A line that brings one piece of the answer gives that piece and nothing else,
/// be it a line break, a space or a word.
pub proof fn a_piece_is_one_event(data: Seq<char>, space: bool, j: json::JsonView, t: Seq<char>)
    requires
        fits_a_line(data, space),
        json::parsed(data) == Ok::<json::JsonView, Seq<char>>(j),
        data != "[DONE]"@,
        says_only(j, t),
    ensures
        t.len() > 0 ==> line_events(data_line(data, space)) == seq![EventView::Content(t)],
        t.len() == 0 ==> line_events(data_line(data, space)).len() == 0,
{
    lemma_data_line(data, space);
    let items = json::member(j, "choices"@)->0->Array_0;
    assert(items.drop_last() =~= Seq::<json::JsonView>::empty());
    assert(wire::stream_choices(items.drop_last()) == Some(Seq::<wire::StreamChoiceView>::empty()));
    assert(wire::stream_choice(items.last()) is Some);
    let (choices, usage) = wire::stream_chunk(j)->0;
    assert(choices[0].content == Some(t));
    assert(line_events(data_line(data, space)) =~= if t.len() > 0 {
        seq![EventView::Content(t)]
    } else {
        seq![]
    });
}

/// Texts put together.
pub open spec fn put_together(v: Seq<Seq<char>>) -> Seq<char>
    decreases v.len(),
{
    if v.len() == 0 {
        seq![]
    } else {
        put_together(v.drop_last()) + v.last()
    }
}

/// The lines of a stream, each with the blank line after it that ends an event.
pub open spec fn stream_of(lines: Seq<Seq<char>>) -> Seq<char>
    decreases lines.len(),
{
    if lines.len() == 0 {
        seq![]
    } else {
        stream_of(lines.drop_last()) + lines.last() + seq!['\n', '\n']
    }
}

/// The whole answer comes through: the bytes of a stream whose lines each bring one
/// piece give, put together, the pieces put together, with no character lost,
/// added or moved.
pub proof fn the_answer_comes_through(
    datas: Seq<Seq<char>>,
    docs: Seq<json::JsonView>,
    pieces: Seq<Seq<char>>,
)
    requires
        datas.len() == docs.len() == pieces.len(),
        forall|i: int|
            0 <= i < datas.len() ==> fits_a_line(#[trigger] datas[i], true) && datas[i]
                != "[DONE]"@ && json::parsed(datas[i]) == Ok::<json::JsonView, Seq<char>>(docs[i])
                && says_only(docs[i], pieces[i]),
    ensures
        answer_in(
            fed(
                fresh_parser(),
                vstd::utf8::encode_utf8(
                    stream_of(Seq::new(datas.len(), |i: int| data_line(datas[i], true))),
                ),
            ).1,
        ) == put_together(pieces),
        fed(
            fresh_parser(),
            vstd::utf8::encode_utf8(
                stream_of(Seq::new(datas.len(), |i: int| data_line(datas[i], true))),
            ),
        ).0 == fresh_parser(),
{
    let lines = Seq::new(datas.len(), |i: int| data_line(datas[i], true));
    let s = stream_of(lines);
    utf8::decoding_undoes_encoding(s);
    assert(Seq::<u8>::empty() + vstd::utf8::encode_utf8(s) =~= vstd::utf8::encode_utf8(s));
    assert(Seq::<char>::empty() + s =~= s);
    lemma_stream(datas, docs, pieces);
}

proof fn lemma_stream(
    datas: Seq<Seq<char>>,
    docs: Seq<json::JsonView>,
    pieces: Seq<Seq<char>>,
)
    requires
        datas.len() == docs.len() == pieces.len(),
        forall|i: int|
            0 <= i < datas.len() ==> fits_a_line(#[trigger] datas[i], true) && datas[i]
                != "[DONE]"@ && json::parsed(datas[i]) == Ok::<json::JsonView, Seq<char>>(docs[i])
                && says_only(docs[i], pieces[i]),
    ensures
        ({
            let s = stream_of(Seq::new(datas.len(), |i: int| data_line(datas[i], true)));
            answer_in(lines_events(s).0) == put_together(pieces) && lines_events(s).1.len() == 0
        }),
    decreases datas.len(),
{
    let lines = Seq::new(datas.len(), |i: int| data_line(datas[i], true));
    if datas.len() > 0 {
        let n = datas.len() - 1;
        let front = lines.drop_last();
        assert(front =~= Seq::new(
            datas.drop_last().len(),
            |i: int| data_line(datas.drop_last()[i], true),
        ));
        assert forall|i: int| 0 <= i < datas.drop_last().len() implies fits_a_line(
            #[trigger] datas.drop_last()[i],
            true,
        ) && datas.drop_last()[i] != "[DONE]"@ && json::parsed(datas.drop_last()[i]) == Ok::<
            json::JsonView,
            Seq<char>,
        >(docs.drop_last()[i]) && says_only(docs.drop_last()[i], pieces.drop_last()[i]) by {
            assert(fits_a_line(datas[i], true));
        }
        lemma_stream(datas.drop_last(), docs.drop_last(), pieces.drop_last());
        assert(fits_a_line(datas[n], true));
        a_piece_is_one_event(datas[n], true, docs[n], pieces[n]);
        lemma_data_line(datas[n], true);
        let line = lines.last();
        let head = stream_of(front);
        let once = line.push('\n');
        let empty = Seq::<char>::empty();
        assert(stream_of(lines) =~= head + (once + empty.push('\n')));
        lemma_lines_append(head, once + empty.push('\n'));
        assert(lines_events(head).1 =~= empty);
        assert(empty + (once + empty.push('\n')) =~= once + empty.push('\n'));
        lemma_one_line(line);
        lemma_lines_append(once, empty.push('\n'));
        assert(empty + empty.push('\n') =~= empty.push('\n'));
        lemma_one_line(empty);
        reveal_strlit("data:");
        assert(text::trim_end(empty, CharClass::Only('\r')) == empty);
        assert(line_data(empty) is None);
        assert(line_events(line) + line_events(empty) =~= line_events(line));
        let e = line_events(line);
        lemma_in_append(lines_events(head).0, e);
        lemma_in_one(EventView::Content(pieces[n]));
        assert(answer_in(e) =~= pieces[n]);
        assert(lines_events(stream_of(lines)).0 =~= lines_events(head).0 + e);
    }
}

/// A line that says nothing under `data:` gives no event, and one that says that the
/// stream is over gives that event alone.
pub proof fn other_lines_are_silent(line: Seq<char>, space: bool)
    ensures
        !text::starts_with(line, "data:"@) ==> line_events(line).len() == 0,
        line_events(data_line("[DONE]"@, space)) == seq![EventView::Done],
        line.len() > 0 && line.last() != '\r' ==> line_events(line.push('\r')) == line_events(line),
{
    reveal_strlit("[DONE]");
    reveal_strlit("data:");
    text::lemma_index_from("[DONE]"@, '\n', 0);
    lemma_data_line("[DONE]"@, space);
    let l = text::trim_end(line, CharClass::Only('\r'));
    lemma_trim_is_prefix(line, CharClass::Only('\r'));
    if text::starts_with(l, "data:"@) {
        assert(line.subrange(0, 5) =~= l.subrange(0, 5));
    }
    assert(line.push('\r').drop_last() =~= line);
}

proof fn lemma_trim_is_prefix(s: Seq<char>, class: CharClass)
    ensures
        text::trim_end(s, class).is_prefix_of(s),
    decreases s.len(),
{
    if s.len() > 0 && text::class_has(class, s.last()) {
        lemma_trim_is_prefix(s.drop_last(), class);
        let t = text::trim_end(s, class);
        assert(t =~= s.subrange(0, t.len() as int));
    } else {
        assert(s =~= s.subrange(0, s.len() as int));
    }
}

} // verus!
