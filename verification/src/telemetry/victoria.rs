//! Log records for a VictoriaLogs server: one JSON object a line.

use crate::config;
use crate::json;
use crate::json::Json;
use crate::json::JsonView;
use crate::numbers;
use crate::numbers::dec_of;
use crate::text;
use crate::text::chars_of;
use crate::text::extend;
use crate::text::push_text;
use crate::text::str_same;
use crate::text::string_of;
use crate::text::trim_end_at;
use crate::text::trimmed;
use crate::text::CharClass;
use crate::utf8;
use vstd::prelude::*;

verus! {

/// How many records wait to be sent at most.
pub const CHANNEL_CAP: usize = 8192;

/// How long the server may take to answer, in seconds.
pub const SEND_TIMEOUT_SECS: u64 = 3;

/// Where records go, and what they are filed by.
pub const INGEST_PATH: &'static str = "/insert/jsonline?_stream_fields=app,host,session&_msg_field=msg&_time_field=time";

/// The media type of what is sent.
pub const CONTENT_TYPE: &'static str = "application/stream+json";

/// What the program is called in its records.
pub const APP: &'static str = "clip-llm";

/// How records are sent to the server.
#[derive(Debug, Clone, PartialEq)]
pub struct VictoriaConfig {
    /// The server's address.
    pub url: String,
    /// How many records are sent together at most.
    pub batch_max: usize,
    /// How long a record waits for others, in nanoseconds.
    pub flush_ns: u64,
}

/// What a [`VictoriaConfig`] says.
#[verifier::ext_equal]
pub struct ConfigView {
    pub url: Seq<char>,
    pub batch_max: usize,
    pub flush_ns: u64,
}

impl VictoriaConfig {
    /// What it says.
    pub open spec fn view(&self) -> ConfigView {
        ConfigView { url: self.url@, batch_max: self.batch_max, flush_ns: self.flush_ns }
    }

    /// Where records are sent to.
    pub fn ingest_url(&self) -> (r: String)
        ensures
            r@ == text::trim_end(self.url@, CharClass::Only('/')) + INGEST_PATH@,
    {
        let v = chars_of(self.url.as_str());
        let end = trim_end_at(&v, 0, CharClass::Only('/'));
        assert(v@.skip(0) =~= v@);
        let mut r = text::piece(&v, 0, end);
        push_text(&mut r, INGEST_PATH);
        string_of(&r)
    }
}

// ---------------------------------------------------------------------------
// Records
// ---------------------------------------------------------------------------

/// The name that a field has in a record.
pub open spec fn field_name(s: Seq<char>) -> Seq<char> {
    if s == "message"@ {
        "msg"@
    } else {
        s
    }
}

/// A field of a span or an event.
#[derive(Debug)]
pub struct LogField {
    pub name: String,
    pub value: Json,
}

/// A span that an event stands in.
#[derive(Debug)]
pub struct LogSpan {
    pub name: String,
    pub fields: Vec<LogField>,
}

/// An event.
#[derive(Debug)]
pub struct LogEvent {
    /// When it was, in nanoseconds since 1970.
    pub time: u64,
    pub level: String,
    pub target: String,
    pub file: Option<String>,
    pub line: Option<u32>,
    /// The spans that it stands in, the outermost first.
    pub spans: Vec<LogSpan>,
    pub fields: Vec<LogField>,
}

/// What is the same in all records of a run.
#[derive(Debug)]
pub struct VictoriaLayer {
    pub version: String,
    pub host: String,
    pub session: String,
}

/// `m` with fields; a later one takes the place of an earlier one.
pub open spec fn with_fields(m: Map<Seq<char>, JsonView>, v: Seq<LogField>) -> Map<
    Seq<char>,
    JsonView,
>
    decreases v.len(),
{
    if v.len() == 0 {
        m
    } else {
        with_fields(m, v.drop_last()).insert(field_name(v.last().name@), v.last().value@)
    }
}

/// `m` with the fields of spans, and the name of the innermost.
pub open spec fn with_spans(m: Map<Seq<char>, JsonView>, v: Seq<LogSpan>) -> Map<
    Seq<char>,
    JsonView,
>
    decreases v.len(),
{
    if v.len() == 0 {
        m
    } else {
        with_fields(with_spans(m, v.drop_last()), v.last().fields@).insert(
            "span"@,
            JsonView::Str(v.last().name@),
        )
    }
}

/// `m` with a text, where there is one.
pub open spec fn with_text(
    m: Map<Seq<char>, JsonView>,
    key: Seq<char>,
    s: Option<Seq<char>>,
) -> Map<Seq<char>, JsonView> {
    match s {
        Some(t) => m.insert(key, JsonView::Str(t)),
        None => m,
    }
}

/// `m` with a number, where there is one.
pub open spec fn with_number(
    m: Map<Seq<char>, JsonView>,
    key: Seq<char>,
    n: Option<u32>,
) -> Map<Seq<char>, JsonView> {
    match n {
        Some(v) => m.insert(key, JsonView::Number(json::number_of(v as u64))),
        None => m,
    }
}

/// The record of an event: what the spans say goes over what is the same in
/// all records, an inner span's over an outer one's, and what the event says
/// goes over both.
pub open spec fn record(layer: VictoriaLayer, e: LogEvent) -> Map<Seq<char>, JsonView> {
    let m = Map::empty().insert("time"@, JsonView::Number(json::number_of(e.time)));
    let m = m.insert("level"@, JsonView::Str(e.level@));
    let m = m.insert("target"@, JsonView::Str(e.target@));
    let m = with_text(m, "file"@, config::text_view(e.file));
    let m = with_number(m, "line"@, e.line);
    let m = m.insert("app"@, JsonView::Str(APP@));
    let m = m.insert("version"@, JsonView::Str(layer.version@));
    let m = m.insert("host"@, JsonView::Str(layer.host@));
    let m = m.insert("session"@, JsonView::Str(layer.session@));
    with_fields(with_spans(m, e.spans@), e.fields@)
}

proof fn lemma_push(v: Seq<(String, Json)>, entry: (String, Json))
    ensures
        json::members_view(v.push(entry)) == json::members_view(v).insert(entry.0@, entry.1@),
{
    assert(v.push(entry).drop_last() =~= v);
}

fn put(members: &mut Vec<(String, Json)>, name: &str, value: Json)
    ensures
        json::members_view(final(members)@) == json::members_view(old(members)@).insert(
            name@,
            value@,
        ),
{
    let entry = (name.to_owned(), value);
    proof {
        lemma_push(members@, entry);
    }
    members.push(entry);
}

fn put_field(members: &mut Vec<(String, Json)>, name: &str, value: Json)
    ensures
        json::members_view(final(members)@) == json::members_view(old(members)@).insert(
            field_name(name@),
            value@,
        ),
{
    if str_same(name, "message") {
        put(members, "msg", value);
    } else {
        put(members, name, value);
    }
}

fn put_fields(members: &mut Vec<(String, Json)>, fields: Vec<LogField>)
    ensures
        json::members_view(final(members)@) == with_fields(
            json::members_view(old(members)@),
            fields@,
        ),
{
    let ghost start = json::members_view(members@);
    let ghost all = fields@;
    let mut rest = fields;
    let total: usize = rest.len();
    let mut i: usize = 0;
    assert(all.take(0) =~= seq![]);
    assert(rest@ =~= all.skip(0));
    while i < total
        invariant
            i <= total,
            total == all.len(),
            rest@ == all.skip(i as int),
            json::members_view(members@) == with_fields(start, all.take(i as int)),
        decreases total - i,
    {
        let f = rest.remove(0);
        assert(rest@ =~= all.skip(i + 1));
        assert(f == all[i as int]);
        assert(all.take(i + 1).drop_last() =~= all.take(i as int));
        put_field(members, f.name.as_str(), f.value);
        i += 1;
    }
    assert(all.take(i as int) =~= all);
}

fn put_spans(members: &mut Vec<(String, Json)>, spans: Vec<LogSpan>)
    ensures
        json::members_view(final(members)@) == with_spans(
            json::members_view(old(members)@),
            spans@,
        ),
{
    let ghost start = json::members_view(members@);
    let ghost all = spans@;
    let mut rest = spans;
    let total: usize = rest.len();
    let mut i: usize = 0;
    assert(all.take(0) =~= seq![]);
    assert(rest@ =~= all.skip(0));
    while i < total
        invariant
            i <= total,
            total == all.len(),
            rest@ == all.skip(i as int),
            json::members_view(members@) == with_spans(start, all.take(i as int)),
        decreases total - i,
    {
        let s = rest.remove(0);
        assert(rest@ =~= all.skip(i + 1));
        assert(s == all[i as int]);
        assert(all.take(i + 1).drop_last() =~= all.take(i as int));
        put_fields(members, s.fields);
        put(members, "span", Json::str(s.name.as_str()));
        i += 1;
    }
    assert(all.take(i as int) =~= all);
}

impl VictoriaLayer {
    /// What is the same in all records of a run.
    pub fn new(version: String, host: String, session: String) -> (r: Self)
        ensures
            r.version@ == version@,
            r.host@ == host@,
            r.session@ == session@,
    {
        VictoriaLayer { version, host, session }
    }

    /// The line that is sent for an event.
    pub fn line(&self, event: LogEvent) -> (r: String)
        ensures
            r@ == json::compact(JsonView::Object(record(*self, event))),
    {
        let mut m: Vec<(String, Json)> = Vec::new();
        assert(json::members_view(m@) =~= Map::empty());
        put(&mut m, "time", Json::number(event.time));
        put(&mut m, "level", Json::str(event.level.as_str()));
        put(&mut m, "target", Json::str(event.target.as_str()));
        if let Some(f) = &event.file {
            put(&mut m, "file", Json::str(f.as_str()));
        }
        if let Some(n) = event.line {
            put(&mut m, "line", Json::number(n as u64));
        }
        put(&mut m, "app", Json::str(APP));
        put(&mut m, "version", Json::str(self.version.as_str()));
        put(&mut m, "host", Json::str(self.host.as_str()));
        put(&mut m, "session", Json::str(self.session.as_str()));
        put_spans(&mut m, event.spans);
        put_fields(&mut m, event.fields);
        let j = Json::Object(m);
        assert(j@ == JsonView::Object(json::members_view(m@)));
        j.to_compact()
    }
}

/// A field of an event is what its record says under the field's name, where no
/// later field has that name.
pub proof fn events_speak_for_themselves(layer: VictoriaLayer, e: LogEvent, i: int)
    requires
        0 <= i < e.fields@.len(),
        forall|j: int|
            i < j < e.fields@.len() ==> field_name((#[trigger] e.fields@[j]).name@) != field_name(
                e.fields@[i].name@,
            ),
    ensures
        record(layer, e).dom().contains(field_name(e.fields@[i].name@)),
        record(layer, e)[field_name(e.fields@[i].name@)] == e.fields@[i].value@,
{
    let m = Map::empty().insert("time"@, JsonView::Number(json::number_of(e.time)));
    let m = m.insert("level"@, JsonView::Str(e.level@));
    let m = m.insert("target"@, JsonView::Str(e.target@));
    let m = with_text(m, "file"@, config::text_view(e.file));
    let m = with_number(m, "line"@, e.line);
    let m = m.insert("app"@, JsonView::Str(APP@));
    let m = m.insert("version"@, JsonView::Str(layer.version@));
    let m = m.insert("host"@, JsonView::Str(layer.host@));
    let m = m.insert("session"@, JsonView::Str(layer.session@));
    lemma_field(with_spans(m, e.spans@), e.fields@, i);
}

proof fn lemma_field(m: Map<Seq<char>, JsonView>, v: Seq<LogField>, i: int)
    requires
        0 <= i < v.len(),
        forall|j: int|
            i < j < v.len() ==> field_name((#[trigger] v[j]).name@) != field_name(v[i].name@),
    ensures
        with_fields(m, v).dom().contains(field_name(v[i].name@)),
        with_fields(m, v)[field_name(v[i].name@)] == v[i].value@,
    decreases v.len(),
{
    if i < v.len() - 1 {
        lemma_field(m, v.drop_last(), i);
        assert(v[v.len() - 1] == v.last());
    }
}

// ---------------------------------------------------------------------------
// Sending
// ---------------------------------------------------------------------------

/// Records that are sent together. Moments are nanoseconds on a monotonic
/// clock.
#[derive(Debug)]
pub struct Batch {
    body: Vec<char>,
    count: usize,
    deadline: u64,
    batch_max: usize,
}

/// What a [`Batch`] holds.
#[verifier::ext_equal]
pub struct BatchView {
    /// The records, each with the end of its line.
    pub body: Seq<char>,
    /// How many there are.
    pub count: usize,
    /// When it is sent at the latest.
    pub deadline: u64,
    /// How many there can be.
    pub batch_max: usize,
}

impl View for Batch {
    type V = BatchView;

    closed spec fn view(&self) -> BatchView {
        BatchView {
            body: self.body@,
            count: self.count,
            deadline: self.deadline,
            batch_max: self.batch_max,
        }
    }
}

impl Batch {
    /// A batch with a first record.
    pub fn begin(config: &VictoriaConfig, first: &str, now: u64) -> (r: Self)
        ensures
            r@ == (BatchView {
                body: first@.push('\n'),
                count: 1,
                deadline: if now + config.flush_ns <= u64::MAX {
                    (now + config.flush_ns) as u64
                } else {
                    u64::MAX
                },
                batch_max: config.batch_max,
            }),
    {
        let mut body = chars_of(first);
        body.push('\n');
        Batch {
            body,
            count: 1,
            deadline: now.saturating_add(config.flush_ns),
            batch_max: config.batch_max,
        }
    }

    /// How long to wait for another record; `None` where the batch is to be
    /// sent.
    pub fn wait(&self, now: u64) -> (r: Option<u64>)
        ensures
            r == if self@.count < self@.batch_max && now < self@.deadline {
                Some((self@.deadline - now) as u64)
            } else {
                None
            },
    {
        if self.count < self.batch_max && now < self.deadline {
            Some(self.deadline - now)
        } else {
            None
        }
    }

    /// Adds a record to a batch that has room for it.
    pub fn add(&mut self, line: &str)
        requires
            old(self)@.count < old(self)@.batch_max,
        ensures
            final(self)@ == (BatchView {
                body: (old(self)@.body + line@).push('\n'),
                count: (old(self)@.count + 1) as usize,
                ..old(self)@
            }),
    {
        push_text(&mut self.body, line);
        self.body.push('\n');
        self.count += 1;
    }

    /// How many records there are.
    pub fn count(&self) -> (r: usize)
        ensures
            r == self@.count,
    {
        self.count
    }

    /// What is sent.
    pub fn body(&self) -> (r: String)
        ensures
            r@ == self@.body,
    {
        string_of(&self.body)
    }
}

/// How many records were sent and how many were not.
#[derive(Debug, Clone, Copy, PartialEq, Eq, Structural)]
pub struct Counts {
    pub shipped: u64,
    pub dropped: u64,
    /// How many of those that were not sent were spoken of.
    pub reported: u64,
}

impl Counts {
    /// None yet.
    pub fn new() -> (r: Self)
        ensures
            r == (Counts { shipped: 0, dropped: 0, reported: 0 }),
    {
        Counts { shipped: 0, dropped: 0, reported: 0 }
    }

    /// How many records were sent, and how many were not.
    pub fn counts(&self) -> (r: (u64, u64))
        ensures
            r == (self.shipped, self.dropped),
    {
        (self.shipped, self.dropped)
    }

    /// Notes that a record found no room.
    pub fn drop_one(&mut self)
        requires
            old(self).dropped < u64::MAX,
        ensures
            *final(self) == (Counts { dropped: (old(self).dropped + 1) as u64, ..*old(self) }),
    {
        self.dropped += 1;
    }

    /// Notes how a batch of `n` records was answered: with a status, or not at
    /// all. Tells what there is to say of it.
    pub fn answered(&mut self, n: u64, status: Result<u16, &str>) -> (r: Option<String>)
        requires
            old(self).shipped + n <= u64::MAX,
        ensures
            match status {
                Ok(code) => if 200 <= code <= 299 {
                    r is None && *final(self) == (Counts {
                        shipped: (old(self).shipped + n) as u64,
                        ..*old(self)
                    })
                } else {
                    config::text_view(r) == Some(
                        "victoria-logs: ingest rejected (HTTP "@ + numbers::dec(code as nat) + ")"@,
                    ) && *final(self) == *old(self)
                },
                Err(why) => config::text_view(r) == Some("victoria-logs: ingest failed: "@ + why@)
                    && *final(self) == *old(self),
            },
    {
        match status {
            Ok(code) => {
                if 200 <= code && code <= 299 {
                    self.shipped += n;
                    return None;
                }
                let mut v = chars_of("victoria-logs: ingest rejected (HTTP ");
                let d = dec_of(code as u128);
                extend(&mut v, &d);
                push_text(&mut v, ")");
                Some(string_of(&v))
            },
            Err(why) => {
                let mut v = chars_of("victoria-logs: ingest failed: ");
                push_text(&mut v, why);
                Some(string_of(&v))
            },
        }
    }

    /// What there is to say of records that were not sent since this was last
    /// asked.
    pub fn report(&mut self) -> (r: Option<String>)
        requires
            old(self).reported <= old(self).dropped,
        ensures
            *final(self) == (Counts { reported: old(self).dropped, ..*old(self) }),
            config::text_view(r) == if old(self).dropped == old(self).reported {
                None
            } else {
                Some(
                    "victoria-logs: dropped "@ + numbers::dec(
                        (old(self).dropped - old(self).reported) as nat,
                    ) + " record(s) (buffer full)"@,
                )
            },
    {
        if self.dropped == self.reported {
            return None;
        }
        let mut v = chars_of("victoria-logs: dropped ");
        let d = dec_of((self.dropped - self.reported) as u128);
        extend(&mut v, &d);
        push_text(&mut v, " record(s) (buffer full)");
        self.reported = self.dropped;
        Some(string_of(&v))
    }
}

// ---------------------------------------------------------------------------
// Where records come from
// ---------------------------------------------------------------------------

/// What bytes say, with a mark for what is no UTF-8.
pub open spec fn lossy(b: Seq<u8>) -> Seq<char> {
    let (chars, rest) = utf8::decoded(b);
    if rest.len() > 0 {
        chars.push(utf8::replacement())
    } else {
        chars
    }
}

/// The name of the machine: what the environment says, where it says anything,
/// or else what the system's own command says.
pub open spec fn host_name(
    first: Option<Seq<char>>,
    second: Option<Seq<char>>,
    command: Option<Seq<u8>>,
) -> Seq<char> {
    let named = match first {
        Some(h) => Some(h),
        None => second,
    };
    match config::non_empty(named) {
        Some(h) => h,
        None => match command {
            Some(out) => {
                let t = text::trim(lossy(out), CharClass::Space);
                if t.len() > 0 {
                    t
                } else {
                    "unknown"@
                }
            },
            None => "unknown"@,
        },
    }
}

/// The name that the environment gives the machine; `None` where the system's
/// own command is to be asked.
pub fn host_of_env(hostname: Option<String>, computername: Option<String>) -> (r: Option<String>)
    ensures
        config::text_view(r) == config::non_empty(
            match config::text_view(hostname) {
                Some(h) => Some(h),
                None => config::text_view(computername),
            },
        ),
{
    let named = match hostname {
        Some(h) => Some(h),
        None => computername,
    };
    match named {
        Some(h) => if chars_of(h.as_str()).len() == 0 {
            None
        } else {
            Some(h)
        },
        None => None,
    }
}

/// The name of the machine. `command` is what the system's own command wrote,
/// where it worked.
pub fn detect_host(
    hostname: Option<String>,
    computername: Option<String>,
    command: Option<Vec<u8>>,
) -> (r: String)
    ensures
        r@ == host_name(
            config::text_view(hostname),
            config::text_view(computername),
            match command {
                Some(out) => Some(out@),
                None => None,
            },
        ),
{
    if let Some(h) = host_of_env(hostname, computername) {
        return h;
    }
    match command {
        Some(out) => {
            let (chars, rest) = utf8::decode(&out);
            let mut v = chars;
            if rest.len() > 0 {
                v.push('\u{fffd}');
            }
            let t = trimmed(&v, CharClass::Space);
            if t.len() > 0 {
                return string_of(&t);
            }
            "unknown".to_owned()
        },
        None => "unknown".to_owned(),
    }
}

/// The digit of sixteen for `d`.
pub open spec fn hex_digit(d: int) -> char {
    if d < 10 {
        (48 + d) as char
    } else {
        (87 + d) as char
    }
}

/// The `width` lowest digits of `n` to the base sixteen.
pub open spec fn hex(n: int, width: int) -> Seq<char>
    decreases width,
{
    if width <= 0 {
        seq![]
    } else {
        hex(n / 16, width - 1).push(hex_digit(n % 16))
    }
}

fn hex_of(n: u32, width: usize) -> (r: Vec<char>)
    ensures
        r@ == hex(n as int, width as int),
    decreases width,
{
    if width == 0 {
        return Vec::new();
    }
    let mut r = hex_of(n / 16, width - 1);
    let d: u8 = (n % 16) as u8;
    let c: char = if d < 10 {
        (48 + d) as char
    } else {
        (87 + d) as char
    };
    assert(c == hex_digit((n % 16) as int));
    r.push(c);
    r
}

/// The number that stands for a run of the program: the halves of its starting
/// time, in nanoseconds since 1970, and its process number mixed together.
pub open spec fn session_number(nanos: u64, pid: u32) -> u32 {
    ((nanos % 0x1_0000_0000) as u32) ^ (((nanos / 0x1_0000_0000) as u32) ^ pid)
}

/// The name of a run of the program, in eight digits.
pub fn gen_session(nanos: u64, pid: u32) -> (r: String)
    ensures
        r@ == hex(session_number(nanos, pid) as int, 8),
{
    let low: u32 = (nanos % 0x1_0000_0000) as u32;
    let high: u32 = (nanos / 0x1_0000_0000) as u32;
    let v = hex_of(low ^ (high ^ pid), 8);
    string_of(&v)
}

} // verus!
