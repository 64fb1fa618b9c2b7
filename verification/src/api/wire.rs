//! What a chat-completions server answers, read out of JSON.
//!
//! A record is read from an object by the names of its fields, and from an
//! array that holds exactly its fields in their order. Fields that are not
//! known are ignored. An optional field may be missing or `null`.

use crate::json;
use crate::json::Json;
use vstd::prelude::*;

verus! {

/// Token counts that the server reports for a request.
#[derive(Debug, Clone, Copy, PartialEq, Eq, Structural)]
pub struct Usage {
    pub prompt_tokens: u32,
    pub completion_tokens: u32,
    pub total_tokens: u32,
}

/// Whether `j` has the shape of a record of `n` fields.
pub open spec fn is_record(j: json::JsonView, n: int) -> bool {
    match j {
        json::JsonView::Object(_) => true,
        json::JsonView::Array(items) => items.len() == n,
        _ => false,
    }
}

/// The field of a record that is called `name` and stands at `pos`.
pub open spec fn field(j: json::JsonView, name: Seq<char>, pos: int) -> Option<json::JsonView> {
    match j {
        json::JsonView::Array(items) => Some(items[pos]),
        _ => json::member(j, name),
    }
}

/// An optional string: the outer `None` rejects it.
pub open spec fn optional_text(j: Option<json::JsonView>) -> Option<Option<Seq<char>>> {
    match j {
        None => Some(None),
        Some(json::JsonView::Null) => Some(None),
        Some(json::JsonView::Str(s)) => Some(Some(s)),
        _ => None,
    }
}

/// A count of up to 32 bits.
pub open spec fn count(j: Option<json::JsonView>) -> Option<u32> {
    match j {
        Some(json::JsonView::Number(n)) => match json::number_u64(n) {
            Some(v) => if v <= u32::MAX {
                Some(v as u32)
            } else {
                None
            },
            None => None,
        },
        _ => None,
    }
}

/// A record of token counts.
pub open spec fn usage(j: json::JsonView) -> Option<Usage> {
    let prompt = count(field(j, "prompt_tokens"@, 0));
    let completion = count(field(j, "completion_tokens"@, 1));
    let total = count(field(j, "total_tokens"@, 2));
    if is_record(j, 3) && prompt is Some && completion is Some && total is Some {
        Some(
            Usage {
                prompt_tokens: prompt->0,
                completion_tokens: completion->0,
                total_tokens: total->0,
            },
        )
    } else {
        None
    }
}

/// Optional token counts: the outer `None` rejects them.
pub open spec fn optional_usage(j: Option<json::JsonView>) -> Option<Option<Usage>> {
    match j {
        None => Some(None),
        Some(json::JsonView::Null) => Some(None),
        Some(u) => match usage(u) {
            Some(v) => Some(Some(v)),
            None => None,
        },
    }
}

pub(crate) fn is_record_of(j: &Json, n: usize) -> (r: bool)
    ensures
        r == is_record(j@, n as int),
{
    match j {
        Json::Object(_) => true,
        Json::Array(items) => {
            proof {
                json::lemma_items_view(items@);
            }
            items.len() == n
        },
        _ => false,
    }
}

pub(crate) fn field_of<'a>(j: &'a Json, name: &str, pos: usize, n: usize) -> (r: Option<&'a Json>)
    requires
        is_record(j@, n as int),
        pos < n,
    ensures
        match r {
            Some(f) => field(j@, name@, pos as int) == Some(f@),
            None => field(j@, name@, pos as int) is None,
        },
{
    match j {
        Json::Array(items) => {
            proof {
                json::lemma_items_view(items@);
            }
            Some(&items[pos])
        },
        _ => j.get(name),
    }
}

/// The view of an optional text.
pub open spec fn text_view(s: Option<String>) -> Option<Seq<char>> {
    match s {
        Some(t) => Some(t@),
        None => None,
    }
}

pub(crate) fn optional_text_of(j: Option<&Json>) -> (r: Option<Option<String>>)
    ensures
        optional_text(
            match j {
                Some(v) => Some(v@),
                None => None,
            },
        ) == match r {
            Some(t) => Some(text_view(t)),
            None => None,
        },
{
    match j {
        None => Some(None),
        Some(v) => match v {
            Json::Null => Some(None),
            Json::Str(s) => Some(Some(s.clone())),
            _ => None,
        },
    }
}

fn count_of(j: Option<&Json>) -> (r: Option<u32>)
    ensures
        r == count(
            match j {
                Some(v) => Some(v@),
                None => None,
            },
        ),
{
    match j {
        Some(v) => match v.as_u64() {
            Some(n) => if n <= u32::MAX as u64 {
                Some(n as u32)
            } else {
                None
            },
            None => None,
        },
        None => None,
    }
}

/// Reads token counts.
pub fn read_usage(j: &Json) -> (r: Option<Usage>)
    ensures
        r == usage(j@),
{
    if !is_record_of(j, 3) {
        return None;
    }
    let prompt = count_of(field_of(j, "prompt_tokens", 0, 3));
    let completion = count_of(field_of(j, "completion_tokens", 1, 3));
    let total = count_of(field_of(j, "total_tokens", 2, 3));
    match (prompt, completion, total) {
        (Some(prompt_tokens), Some(completion_tokens), Some(total_tokens)) => Some(
            Usage { prompt_tokens, completion_tokens, total_tokens },
        ),
        _ => None,
    }
}

fn optional_usage_of(j: Option<&Json>) -> (r: Option<Option<Usage>>)
    ensures
        r == optional_usage(
            match j {
                Some(v) => Some(v@),
                None => None,
            },
        ),
{
    match j {
        None => Some(None),
        Some(v) => match v {
            Json::Null => Some(None),
            _ => match read_usage(v) {
                Some(u) => Some(Some(u)),
                None => None,
            },
        },
    }
}

// ---------------------------------------------------------------------------
// A whole reply
// ---------------------------------------------------------------------------

/// The text of an answer.
pub struct ResponseMessage {
    pub content: String,
}

/// One of the answers in a reply.
pub struct Choice {
    pub message: ResponseMessage,
    /// `"stop"` in the normal case, `"length"` where the answer was cut off.
    pub finish_reason: Option<String>,
}

/// A reply.
pub struct ChatResponse {
    pub choices: Vec<Choice>,
    pub usage: Option<Usage>,
}

/// What one of the answers says.
pub struct ChoiceView {
    pub content: Seq<char>,
    pub finish_reason: Option<Seq<char>>,
}

impl Choice {
    pub open spec fn view(&self) -> ChoiceView {
        ChoiceView { content: self.message.content@, finish_reason: text_view(self.finish_reason) }
    }
}

/// What a run of answers says.
pub open spec fn choices_view(choices: Seq<Choice>) -> Seq<ChoiceView> {
    choices.map_values(|c: Choice| c@)
}

/// One answer of a reply.
pub open spec fn choice(j: json::JsonView) -> Option<ChoiceView> {
    let message = field(j, "message"@, 0);
    let finish = optional_text(field(j, "finish_reason"@, 1));
    if is_record(j, 2) && message is Some && is_record(message->0, 1) && finish is Some {
        match field(message->0, "content"@, 0) {
            Some(json::JsonView::Str(s)) => Some(
                ChoiceView { content: s, finish_reason: finish->0 },
            ),
            _ => None,
        }
    } else {
        None
    }
}

/// The answers of a reply: all of them, or none where one is malformed.
pub open spec fn choices(items: Seq<json::JsonView>) -> Option<Seq<ChoiceView>>
    decreases items.len(),
{
    if items.len() == 0 {
        Some(seq![])
    } else {
        match (choices(items.drop_last()), choice(items.last())) {
            (Some(before), Some(last)) => Some(before.push(last)),
            _ => None,
        }
    }
}

/// A reply.
pub open spec fn chat_response(j: json::JsonView) -> Option<(Seq<ChoiceView>, Option<Usage>)> {
    let counts = optional_usage(field(j, "usage"@, 1));
    if is_record(j, 2) && counts is Some {
        match field(j, "choices"@, 0) {
            Some(json::JsonView::Array(items)) => match choices(items) {
                Some(all) => Some((all, counts->0)),
                None => None,
            },
            _ => None,
        }
    } else {
        None
    }
}

fn read_choice(j: &Json) -> (r: Option<Choice>)
    ensures
        match r {
            Some(c) => choice(j@) == Some(c@),
            None => choice(j@) is None,
        },
{
    if !is_record_of(j, 2) {
        return None;
    }
    let message = match field_of(j, "message", 0, 2) {
        Some(m) => m,
        None => {
            return None;
        },
    };
    if !is_record_of(message, 1) {
        return None;
    }
    let finish_reason = match optional_text_of(field_of(j, "finish_reason", 1, 2)) {
        Some(f) => f,
        None => {
            return None;
        },
    };
    match field_of(message, "content", 0, 1) {
        Some(c) => match c.as_str() {
            Some(s) => {
                let message = ResponseMessage { content: s.clone() };
                Some(Choice { message, finish_reason })
            },
            None => None,
        },
        None => None,
    }
}

fn read_choices(items: &Vec<Json>) -> (r: Option<Vec<Choice>>)
    ensures
        match r {
            Some(all) => choices(json::items_view(items@)) == Some(choices_view(all@)),
            None => choices(json::items_view(items@)) is None,
        },
{
    let mut all: Vec<Choice> = Vec::new();
    let mut i: usize = 0;
    let ghost views = json::items_view(items@);
    proof {
        json::lemma_items_view(items@);
        assert(views.take(0) =~= Seq::<json::JsonView>::empty());
        assert(choices_view(all@) =~= Seq::<ChoiceView>::empty());
    }
    while i < items.len()
        invariant
            i <= items@.len(),
            views == json::items_view(items@),
            views.len() == items@.len(),
            forall|k: int| 0 <= k < items@.len() ==> #[trigger] views[k] == items@[k]@,
            choices(views.take(i as int)) == Some(choices_view(all@)),
        decreases items.len() - i,
    {
        let ghost before = all@;
        assert(views.take(i + 1).drop_last() =~= views.take(i as int));
        match read_choice(&items[i]) {
            Some(c) => {
                all.push(c);
                assert(choices_view(all@) =~= choices_view(before).push(c@));
            },
            None => {
                proof {
                    lemma_choices_all(views, i as int);
                }
                return None;
            },
        }
        i += 1;
    }
    assert(views.take(i as int) =~= views);
    Some(all)
}

/// One malformed answer is enough.
proof fn lemma_choices_all(items: Seq<json::JsonView>, i: int)
    requires
        0 <= i < items.len(),
        choice(items[i]) is None,
    ensures
        choices(items) is None,
    decreases items.len(),
{
    if i < items.len() - 1 {
        lemma_choices_all(items.drop_last(), i);
    }
}

/// Reads a reply; `None` where the document is no reply.
pub fn read_chat_response(j: &Json) -> (r: Option<ChatResponse>)
    ensures
        match r {
            Some(c) => chat_response(j@) == Some((choices_view(c.choices@), c.usage)),
            None => chat_response(j@) is None,
        },
{
    if !is_record_of(j, 2) {
        return None;
    }
    let usage = match optional_usage_of(field_of(j, "usage", 1, 2)) {
        Some(u) => u,
        None => {
            return None;
        },
    };
    match field_of(j, "choices", 0, 2) {
        Some(c) => match c {
            Json::Array(items) => match read_choices(items) {
                Some(choices) => Some(ChatResponse { choices, usage }),
                None => None,
            },
            _ => None,
        },
        None => None,
    }
}

// ---------------------------------------------------------------------------
// A piece of a streamed reply
// ---------------------------------------------------------------------------

/// One of the answers in a piece of a streamed reply.
pub struct StreamChoice {
    pub content: Option<String>,
    /// Reasoning that the server keeps apart from the answer.
    pub reasoning: Option<String>,
    /// Set on the last piece.
    pub finish_reason: Option<String>,
}

/// A piece of a streamed reply.
pub struct StreamChunk {
    pub choices: Vec<StreamChoice>,
    pub usage: Option<Usage>,
}

/// What one of the answers in a piece says.
pub struct StreamChoiceView {
    pub content: Option<Seq<char>>,
    pub reasoning: Option<Seq<char>>,
    pub finish_reason: Option<Seq<char>>,
}

impl StreamChoice {
    pub open spec fn view(&self) -> StreamChoiceView {
        StreamChoiceView {
            content: text_view(self.content),
            reasoning: text_view(self.reasoning),
            finish_reason: text_view(self.finish_reason),
        }
    }
}

/// What a run of answers in a piece says.
pub open spec fn stream_choices_view(choices: Seq<StreamChoice>) -> Seq<StreamChoiceView> {
    choices.map_values(|c: StreamChoice| c@)
}

/// The reasoning of a delta: it goes by either of two names, not by both.
pub open spec fn reasoning(j: json::JsonView) -> Option<Option<Seq<char>>> {
    match (field(j, "reasoning_content"@, 1), json::member(j, "reasoning"@)) {
        (Some(_), Some(_)) => None,
        (None, other) => optional_text(other),
        (own, None) => optional_text(own),
    }
}

/// One answer in a piece.
pub open spec fn stream_choice(j: json::JsonView) -> Option<StreamChoiceView> {
    let delta = field(j, "delta"@, 0);
    let finish = optional_text(field(j, "finish_reason"@, 1));
    if is_record(j, 2) && delta is Some && is_record(delta->0, 2) && finish is Some {
        match (optional_text(field(delta->0, "content"@, 0)), reasoning(delta->0)) {
            (Some(content), Some(thought)) => Some(
                StreamChoiceView { content, reasoning: thought, finish_reason: finish->0 },
            ),
            _ => None,
        }
    } else {
        None
    }
}

/// The answers of a piece: all of them, or none where one is malformed.
pub open spec fn stream_choices(items: Seq<json::JsonView>) -> Option<Seq<StreamChoiceView>>
    decreases items.len(),
{
    if items.len() == 0 {
        Some(seq![])
    } else {
        match (stream_choices(items.drop_last()), stream_choice(items.last())) {
            (Some(before), Some(last)) => Some(before.push(last)),
            _ => None,
        }
    }
}

/// A piece of a streamed reply. One that only brings token counts may leave
/// the answers out.
pub open spec fn stream_chunk(j: json::JsonView) -> Option<
    (Seq<StreamChoiceView>, Option<Usage>),
> {
    let counts = optional_usage(field(j, "usage"@, 1));
    if is_record(j, 2) && counts is Some {
        match field(j, "choices"@, 0) {
            None => Some((seq![], counts->0)),
            Some(json::JsonView::Array(items)) => match stream_choices(items) {
                Some(all) => Some((all, counts->0)),
                None => None,
            },
            _ => None,
        }
    } else {
        None
    }
}

fn reasoning_of(j: &Json) -> (r: Option<Option<String>>)
    requires
        is_record(j@, 2),
    ensures
        reasoning(j@) == match r {
            Some(t) => Some(text_view(t)),
            None => None,
        },
{
    let own = field_of(j, "reasoning_content", 1, 2);
    let other = j.get("reasoning");
    if own.is_some() && other.is_some() {
        None
    } else if own.is_some() {
        optional_text_of(own)
    } else {
        optional_text_of(other)
    }
}

fn read_stream_choice(j: &Json) -> (r: Option<StreamChoice>)
    ensures
        match r {
            Some(c) => stream_choice(j@) == Some(c@),
            None => stream_choice(j@) is None,
        },
{
    if !is_record_of(j, 2) {
        return None;
    }
    let delta = match field_of(j, "delta", 0, 2) {
        Some(d) => d,
        None => {
            return None;
        },
    };
    if !is_record_of(delta, 2) {
        return None;
    }
    let finish = optional_text_of(field_of(j, "finish_reason", 1, 2));
    let content = optional_text_of(field_of(delta, "content", 0, 2));
    let thought = reasoning_of(delta);
    match (finish, content, thought) {
        (Some(finish_reason), Some(content), Some(reasoning)) => Some(
            StreamChoice { content, reasoning, finish_reason },
        ),
        _ => None,
    }
}

fn read_stream_choices(items: &Vec<Json>) -> (r: Option<Vec<StreamChoice>>)
    ensures
        match r {
            Some(all) => stream_choices(json::items_view(items@)) == Some(
                stream_choices_view(all@),
            ),
            None => stream_choices(json::items_view(items@)) is None,
        },
{
    let mut all: Vec<StreamChoice> = Vec::new();
    let mut i: usize = 0;
    let ghost views = json::items_view(items@);
    proof {
        json::lemma_items_view(items@);
        assert(views.take(0) =~= Seq::<json::JsonView>::empty());
        assert(stream_choices_view(all@) =~= Seq::<StreamChoiceView>::empty());
    }
    while i < items.len()
        invariant
            i <= items@.len(),
            views == json::items_view(items@),
            views.len() == items@.len(),
            forall|k: int| 0 <= k < items@.len() ==> #[trigger] views[k] == items@[k]@,
            stream_choices(views.take(i as int)) == Some(stream_choices_view(all@)),
        decreases items.len() - i,
    {
        let ghost before = all@;
        assert(views.take(i + 1).drop_last() =~= views.take(i as int));
        match read_stream_choice(&items[i]) {
            Some(c) => {
                all.push(c);
                assert(stream_choices_view(all@) =~= stream_choices_view(before).push(c@));
            },
            None => {
                proof {
                    lemma_stream_choices_all(views, i as int);
                }
                return None;
            },
        }
        i += 1;
    }
    assert(views.take(i as int) =~= views);
    Some(all)
}

proof fn lemma_stream_choices_all(items: Seq<json::JsonView>, i: int)
    requires
        0 <= i < items.len(),
        stream_choice(items[i]) is None,
    ensures
        stream_choices(items) is None,
    decreases items.len(),
{
    if i < items.len() - 1 {
        lemma_stream_choices_all(items.drop_last(), i);
    }
}

/// The answers of a piece are those of its items, one by one.
pub proof fn lemma_stream_choices_at(items: Seq<json::JsonView>, i: int)
    requires
        stream_choices(items) is Some,
        0 <= i < items.len(),
    ensures
        stream_choices(items)->0.len() == items.len(),
        stream_choice(items[i]) == Some(stream_choices(items)->0[i]),
    decreases items.len(),
{
    lemma_stream_choices_len(items);
    let front = items.drop_last();
    if i < items.len() - 1 {
        lemma_stream_choices_at(front, i);
        assert(front[i] == items[i]);
    } else {
        lemma_stream_choices_len(front);
    }
}

proof fn lemma_stream_choices_len(items: Seq<json::JsonView>)
    ensures
        stream_choices(items) matches Some(all) ==> all.len() == items.len(),
    decreases items.len(),
{
    if items.len() > 0 {
        lemma_stream_choices_len(items.drop_last());
    }
}

/// Reads a piece of a streamed reply; `None` where the document is none.
pub fn read_stream_chunk(j: &Json) -> (r: Option<StreamChunk>)
    ensures
        match r {
            Some(c) => stream_chunk(j@) == Some((stream_choices_view(c.choices@), c.usage)),
            None => stream_chunk(j@) is None,
        },
{
    if !is_record_of(j, 2) {
        return None;
    }
    let usage = match optional_usage_of(field_of(j, "usage", 1, 2)) {
        Some(u) => u,
        None => {
            return None;
        },
    };
    match field_of(j, "choices", 0, 2) {
        Some(c) => match c {
            Json::Array(items) => match read_stream_choices(items) {
                Some(choices) => Some(StreamChunk { choices, usage }),
                None => None,
            },
            _ => None,
        },
        None => {
            let choices: Vec<StreamChoice> = Vec::new();
            assert(stream_choices_view(choices@) =~= Seq::<StreamChoiceView>::empty());
            Some(StreamChunk { choices, usage })
        },
    }
}

} // verus!
