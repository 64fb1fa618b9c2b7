//! JSON documents.
//!
//! Reading and writing JSON text is the work of the `serde_json` crate. Its
//! values are opaque here, so a document is held as a [`Json`], which mirrors
//! them one for one.

use crate::text;
use crate::text::chars_of;
use crate::text::push_text;
use crate::text::same;
use crate::text::string_of;
use vstd::prelude::*;

verus! {

/// A value of the `serde_json` crate.
#[verifier::external_type_specification]
#[verifier::external_body]
pub struct ExValue(serde_json::Value);

/// A number of the `serde_json` crate.
#[verifier::external_type_specification]
#[verifier::external_body]
pub struct ExNumber(serde_json::Number);

/// A JSON document.
#[derive(Debug, PartialEq)]
pub enum Json {
    Null,
    Bool(bool),
    Number(serde_json::Number),
    Str(String),
    Array(Vec<Json>),
    /// Members in some order. Of two with the same name, the later one counts.
    Object(Vec<(String, Json)>),
}

/// What a JSON document says: the order of an object's members is no part of
/// that.
#[verifier::ext_equal]
pub enum JsonView {
    Null,
    Bool(bool),
    Number(serde_json::Number),
    Str(Seq<char>),
    Array(Seq<JsonView>),
    Object(Map<Seq<char>, JsonView>),
}

impl Json {
    /// What the document says.
    pub open spec fn view(&self) -> JsonView
        decreases self,
    {
        match self {
            Json::Null => JsonView::Null,
            Json::Bool(b) => JsonView::Bool(*b),
            Json::Number(n) => JsonView::Number(*n),
            Json::Str(s) => JsonView::Str(s@),
            Json::Array(items) => JsonView::Array(items_view(items@)),
            Json::Object(members) => JsonView::Object(members_view(members@)),
        }
    }
}

/// What a JSON document says, with the order of its objects' members.
#[verifier::ext_equal]
pub enum Ordered {
    Null,
    Bool(bool),
    Number(serde_json::Number),
    Str(Seq<char>),
    Array(Seq<Ordered>),
    Object(Seq<(Seq<char>, Ordered)>),
}

impl Json {
    /// What the document says, with the order of its objects' members.
    pub open spec fn ordered(&self) -> Ordered
        decreases self,
    {
        match self {
            Json::Null => Ordered::Null,
            Json::Bool(b) => Ordered::Bool(*b),
            Json::Number(n) => Ordered::Number(*n),
            Json::Str(s) => Ordered::Str(s@),
            Json::Array(items) => Ordered::Array(items_ordered(items@)),
            Json::Object(members) => Ordered::Object(members_ordered(members@)),
        }
    }
}

/// What the items of an array say, with the order of members.
pub open spec fn items_ordered(items: Seq<Json>) -> Seq<Ordered>
    decreases items,
{
    if items.len() == 0 {
        seq![]
    } else {
        items_ordered(items.drop_last()).push(items.last().ordered())
    }
}

/// What the members of an object say, in order.
pub open spec fn members_ordered(members: Seq<(String, Json)>) -> Seq<(Seq<char>, Ordered)>
    decreases members,
{
    if members.len() == 0 {
        seq![]
    } else {
        members_ordered(members.drop_last()).push(
            (members.last().0@, members.last().1.ordered()),
        )
    }
}

/// What a document says, whatever the order of members.
pub open spec fn said(o: Ordered) -> JsonView
    decreases o,
{
    match o {
        Ordered::Null => JsonView::Null,
        Ordered::Bool(b) => JsonView::Bool(b),
        Ordered::Number(n) => JsonView::Number(n),
        Ordered::Str(s) => JsonView::Str(s),
        Ordered::Array(items) => JsonView::Array(items_said(items)),
        Ordered::Object(members) => JsonView::Object(members_said(members)),
    }
}

/// What the items of an array say, whatever the order of members.
pub open spec fn items_said(items: Seq<Ordered>) -> Seq<JsonView>
    decreases items,
{
    if items.len() == 0 {
        seq![]
    } else {
        items_said(items.drop_last()).push(said(items.last()))
    }
}

/// What the members of an object say, whatever their order.
pub open spec fn members_said(members: Seq<(Seq<char>, Ordered)>) -> Map<Seq<char>, JsonView>
    decreases members,
{
    if members.len() == 0 {
        Map::empty()
    } else {
        members_said(members.drop_last()).insert(members.last().0, said(members.last().1))
    }
}

/// The text of a document on one line, its members in order. Scalars and names
/// are written as `serde_json` writes them.
pub open spec fn line_text(o: Ordered) -> Seq<char>
    decreases o,
{
    match o {
        Ordered::Array(items) => "["@ + items_text(items) + "]"@,
        Ordered::Object(members) => "{"@ + members_text(members) + "}"@,
        _ => compact(said(o)),
    }
}

/// What is between two neighbours: nothing before the first.
pub open spec fn comma(before: nat) -> Seq<char> {
    if before == 0 {
        seq![]
    } else {
        ","@
    }
}

/// The items of an array, with commas between them.
pub open spec fn items_text(items: Seq<Ordered>) -> Seq<char>
    decreases items,
{
    if items.len() == 0 {
        seq![]
    } else {
        items_text(items.drop_last()) + comma((items.len() - 1) as nat) + line_text(items.last())
    }
}

/// The members of an object, with commas between them.
pub open spec fn members_text(members: Seq<(Seq<char>, Ordered)>) -> Seq<char>
    decreases members,
{
    if members.len() == 0 {
        seq![]
    } else {
        members_text(members.drop_last()) + comma((members.len() - 1) as nat) + compact(
            JsonView::Str(members.last().0),
        ) + ":"@ + line_text(members.last().1)
    }
}

/// What the items of an array say.
pub open spec fn items_view(items: Seq<Json>) -> Seq<JsonView>
    decreases items,
{
    if items.len() == 0 {
        seq![]
    } else {
        items_view(items.drop_last()).push(items.last().view())
    }
}

/// What the members of an object say.
pub open spec fn members_view(members: Seq<(String, Json)>) -> Map<Seq<char>, JsonView>
    decreases members,
{
    if members.len() == 0 {
        Map::empty()
    } else {
        members_view(members.drop_last()).insert(members.last().0@, members.last().1.view())
    }
}

/// The member `name` of an object; `None` where there is none, and of anything
/// that is not an object.
pub open spec fn member(j: JsonView, name: Seq<char>) -> Option<JsonView> {
    match j {
        JsonView::Object(m) => if m.dom().contains(name) {
            Some(m[name])
        } else {
            None
        },
        _ => None,
    }
}

/// What the outside value `v` says.
pub uninterp spec fn contents(v: serde_json::Value) -> JsonView;

/// What the JSON text `text` says, or what is wrong with it.
pub uninterp spec fn parsed(text: Seq<char>) -> Result<JsonView, Seq<char>>;

/// The indented text of a document.
pub uninterp spec fn pretty(j: JsonView) -> Seq<char>;

/// The text of a document on one line.
pub uninterp spec fn compact(j: JsonView) -> Seq<char>;

/// The number that the decimal text `t` writes.
pub uninterp spec fn decimal_number(t: Seq<char>) -> serde_json::Number;

/// The number as a whole number of up to 64 bits, where it is one.
pub uninterp spec fn number_u64(n: serde_json::Number) -> Option<u64>;

/// The number that stands for `n`.
pub uninterp spec fn number_of(n: u64) -> serde_json::Number;

/// `serde_json::from_str`, reading any JSON value: its result, and the text of
/// its error, depend on the text alone.
#[verifier::external_body]
fn from_str(text: &str) -> (r: Result<serde_json::Value, String>)
    ensures
        match r {
            Ok(v) => parsed(text@) == Ok::<JsonView, Seq<char>>(contents(v)),
            Err(why) => parsed(text@) == Err::<JsonView, Seq<char>>(why@),
        },
{
    serde_json::from_str::<serde_json::Value>(text).map_err(|e| e.to_string())
}

/// A `serde_json::Value` taken apart, variant by variant, into a [`Json`] that
/// says the same.
#[verifier::external_body]
fn json_of(v: &serde_json::Value) -> (r: Json)
    ensures
        r@ == contents(*v),
{
    match v {
        serde_json::Value::Null => Json::Null,
        serde_json::Value::Bool(b) => Json::Bool(*b),
        serde_json::Value::Number(n) => Json::Number(n.clone()),
        serde_json::Value::String(s) => Json::Str(s.clone()),
        serde_json::Value::Array(a) => Json::Array(a.iter().map(json_of).collect()),
        serde_json::Value::Object(m) => {
            Json::Object(m.iter().map(|(k, v)| (k.clone(), json_of(v))).collect())
        },
    }
}

/// A `serde_json::Value` put together, variant by variant, that says the same
/// as `j`. Of two members with the same name `serde_json::Map` keeps the later
/// one.
#[verifier::external_body]
fn value_of(j: &Json) -> (r: serde_json::Value)
    ensures
        contents(r) == j@,
{
    match j {
        Json::Null => serde_json::Value::Null,
        Json::Bool(b) => serde_json::Value::Bool(*b),
        Json::Number(n) => serde_json::Value::Number(n.clone()),
        Json::Str(s) => serde_json::Value::String(s.clone()),
        Json::Array(a) => serde_json::Value::Array(a.iter().map(value_of).collect()),
        Json::Object(m) => {
            serde_json::Value::Object(m.iter().map(|(k, v)| (k.clone(), value_of(v))).collect())
        },
    }
}

/// `serde_json::to_string_pretty` of a value, which never fails: the text
/// depends on what the value says alone.
#[verifier::external_body]
fn to_string_pretty(v: &serde_json::Value) -> (r: String)
    ensures
        r@ == pretty(contents(*v)),
{
    serde_json::to_string_pretty(v).unwrap_or_default()
}

/// `serde_json::to_string` of a value, which never fails: the text depends on
/// what the value says alone.
#[verifier::external_body]
fn to_string(v: &serde_json::Value) -> (r: String)
    ensures
        r@ == compact(contents(*v)),
{
    serde_json::to_string(v).unwrap_or_default()
}

/// Whether `t` is a digit, a point, and digits.
pub open spec fn is_decimal_text(t: Seq<char>) -> bool {
    &&& t.len() >= 3
    &&& '0' <= t[0] <= '9'
    &&& t[1] == '.'
    &&& forall|i: int| 2 <= i < t.len() ==> '0' <= #[trigger] t[i] <= '9'
}

/// `serde_json::Number::from_str`, which reads such a text: the number depends
/// on the text alone.
#[verifier::external_body]
pub(crate) fn decimal(t: &str) -> (r: serde_json::Number)
    requires
        is_decimal_text(t@),
        t@.len() < 20,
    ensures
        r == decimal_number(t@),
{
    t.parse::<serde_json::Number>().unwrap()
}

/// A copy of a number is the number.
pub assume_specification[ <serde_json::Number as Clone>::clone ](n: &serde_json::Number) -> (r:
    serde_json::Number)
    ensures
        r == *n,
;

/// `Number::as_u64`: the number, where it is a whole one of up to 64 bits.
pub assume_specification[ serde_json::Number::as_u64 ](n: &serde_json::Number) -> (r: Option<u64>)
    ensures
        r == number_u64(*n),
;

/// `Number::from` of a `u64`, which [`number_u64`] gives back.
#[verifier::external_body]
fn number_from(n: u64) -> (r: serde_json::Number)
    ensures
        r == number_of(n),
        number_u64(r) == Some(n),
{
    serde_json::Number::from(n)
}

/// Reads a JSON text.
pub fn parse(text: &str) -> (r: Result<Json, String>)
    ensures
        match r {
            Ok(j) => parsed(text@) == Ok::<JsonView, Seq<char>>(j@),
            Err(why) => parsed(text@) == Err::<JsonView, Seq<char>>(why@),
        },
{
    match from_str(text) {
        Ok(v) => Ok(json_of(&v)),
        Err(why) => Err(why),
    }
}

impl Json {
    /// A string.
    pub fn str(s: &str) -> (r: Json)
        ensures
            r@ == JsonView::Str(s@),
    {
        Json::Str(s.to_owned())
    }

    /// A whole number.
    pub fn number(n: u64) -> (r: Json)
        ensures
            r@ == JsonView::Number(number_of(n)),
            number_u64(number_of(n)) == Some(n),
    {
        Json::Number(number_from(n))
    }

    /// The indented text of the document.
    pub fn to_pretty(&self) -> (r: String)
        ensures
            r@ == pretty(self@),
    {
        to_string_pretty(&value_of(self))
    }

    /// The text of the document on one line.
    pub fn to_compact(&self) -> (r: String)
        ensures
            r@ == compact(self@),
    {
        to_string(&value_of(self))
    }

    /// The text of the document on one line, its members in order.
    pub fn to_line(&self) -> (r: String)
        ensures
            r@ == line_text(self.ordered()),
    {
        let mut v: Vec<char> = Vec::new();
        push_line(&mut v, self);
        assert(v@ =~= line_text(self.ordered()));
        string_of(&v)
    }

    /// The member `name` of an object; `None` of anything else.
    pub fn get(&self, name: &str) -> (r: Option<&Json>)
        ensures
            match r {
                Some(j) => member(self@, name@) == Some(j@),
                None => member(self@, name@) is None,
            },
    {
        match self {
            Json::Object(members) => match find_member(members, name) {
                Some(i) => Some(&members[i].1),
                None => None,
            },
            _ => None,
        }
    }

    /// The text of a string; `None` of anything else.
    pub fn as_str(&self) -> (r: Option<&String>)
        ensures
            match r {
                Some(s) => self@ == JsonView::Str(s@),
                None => !(self@ is Str),
            },
    {
        match self {
            Json::Str(s) => Some(s),
            _ => None,
        }
    }

    /// The number where it is a whole one of up to 64 bits.
    pub fn as_u64(&self) -> (r: Option<u64>)
        ensures
            match r {
                Some(n) => self@ matches JsonView::Number(m) && number_u64(m) == Some(n),
                None => self@ matches JsonView::Number(m) ==> number_u64(m) is None,
            },
    {
        match self {
            Json::Number(n) => n.as_u64(),
            _ => None,
        }
    }
}

fn push_line(v: &mut Vec<char>, j: &Json)
    ensures
        final(v)@ == old(v)@ + line_text(j.ordered()),
    decreases j,
{
    let ghost start = v@;
    match j {
        Json::Array(items) => {
            push_text(v, "[");
            let mut i: usize = 0;
            assert(items@.take(0) =~= Seq::<Json>::empty());
            assert(v@ =~= start + ("["@ + items_text(items_ordered(items@.take(0)))));
            while i < items.len()
                invariant
                    i <= items@.len(),
                    j == Json::Array(*items),
                    v@ == start + ("["@ + items_text(items_ordered(items@.take(i as int)))),
                decreases items@.len() - i,
            {
                let ghost done = items_ordered(items@.take(i as int));
                proof {
                    lemma_items_ordered(items@.take(i as int));
                    let next = items@.take(i + 1);
                    assert(next.drop_last() =~= items@.take(i as int));
                    assert(items_ordered(next).drop_last() =~= done);
                    assert(decreases_to!(items@ => items@[i as int]));
                    assert(decreases_to!(items => items@));
                    assert(decreases_to!(j => j->Array_0));
                }
                if i > 0 {
                    push_text(v, ",");
                }
                assert(v@ =~= start + ("["@ + items_text(done) + comma(i as nat)));
                push_line(v, &items[i]);
                assert(v@ =~= start + ("["@ + items_text(items_ordered(items@.take(i + 1)))));
                i += 1;
            }
            assert(items@.take(i as int) =~= items@);
            push_text(v, "]");
            assert(v@ =~= start + line_text(j.ordered()));
        },
        Json::Object(members) => {
            push_text(v, "{");
            let mut i: usize = 0;
            assert(members@.take(0) =~= Seq::<(String, Json)>::empty());
            assert(v@ =~= start + ("{"@ + members_text(members_ordered(members@.take(0)))));
            while i < members.len()
                invariant
                    i <= members@.len(),
                    j == Json::Object(*members),
                    v@ == start + ("{"@ + members_text(members_ordered(members@.take(i as int)))),
                decreases members@.len() - i,
            {
                let ghost done = members_ordered(members@.take(i as int));
                proof {
                    lemma_members_ordered(members@.take(i as int));
                    let next = members@.take(i + 1);
                    assert(next.drop_last() =~= members@.take(i as int));
                    assert(members_ordered(next).drop_last() =~= done);
                    assert(decreases_to!(members@[i as int] => members@[i as int].1));
                    assert(decreases_to!(members@ => members@[i as int]));
                    assert(decreases_to!(members => members@));
                    assert(decreases_to!(j => j->Object_0));
                }
                if i > 0 {
                    push_text(v, ",");
                }
                assert(v@ =~= start + ("{"@ + members_text(done) + comma(i as nat)));
                let name = Json::str(members[i].0.as_str()).to_compact();
                push_text(v, name.as_str());
                push_text(v, ":");
                push_line(v, &members[i].1);
                assert(v@ =~= start + ("{"@ + members_text(
                    members_ordered(members@.take(i + 1)),
                )));
                i += 1;
            }
            assert(members@.take(i as int) =~= members@);
            push_text(v, "}");
            assert(v@ =~= start + line_text(j.ordered()));
        },
        _ => {
            let t = j.to_compact();
            push_text(v, t.as_str());
        },
    }
}

/// What the items of an array say, one by one.
pub proof fn lemma_items_ordered(items: Seq<Json>)
    ensures
        items_ordered(items).len() == items.len(),
        forall|i: int|
            0 <= i < items.len() ==> #[trigger] items_ordered(items)[i] == items[i].ordered(),
    decreases items.len(),
{
    if items.len() > 0 {
        lemma_items_ordered(items.drop_last());
    }
}

/// As many members are named as there are.
proof fn lemma_members_ordered(members: Seq<(String, Json)>)
    ensures
        members_ordered(members).len() == members.len(),
    decreases members.len(),
{
    if members.len() > 0 {
        lemma_members_ordered(members.drop_last());
    }
}

/// Order is all that the two ways to look at a document differ in.
pub proof fn lemma_said(j: Json)
    ensures
        said(j.ordered()) == j@,
    decreases j,
{
    match j {
        Json::Array(items) => {
            lemma_items_said(items@);
        },
        Json::Object(members) => {
            lemma_members_said(members@);
        },
        _ => {},
    }
}

proof fn lemma_items_said(items: Seq<Json>)
    ensures
        items_said(items_ordered(items)) == items_view(items),
    decreases items,
{
    if items.len() > 0 {
        lemma_items_said(items.drop_last());
        lemma_said(items.last());
        assert(items_ordered(items).drop_last() =~= items_ordered(items.drop_last()));
    }
}

proof fn lemma_members_said(members: Seq<(String, Json)>)
    ensures
        members_said(members_ordered(members)) == members_view(members),
    decreases members,
{
    if members.len() > 0 {
        lemma_members_said(members.drop_last());
        lemma_said(members.last().1);
        assert(members_ordered(members).drop_last() =~= members_ordered(members.drop_last()));
    }
}

/// The index of the last member called `name`.
pub fn find_member(members: &Vec<(String, Json)>, name: &str) -> (r: Option<usize>)
    ensures
        match r {
            Some(i) => i < members@.len() && members@[i as int].0@ == name@ && members_view(
                members@,
            ).dom().contains(name@) && members_view(members@)[name@] == members@[i as int].1@
                && forall|j: int| i < j < members@.len() ==> members@[j].0@ != name@,
            None => !members_view(members@).dom().contains(name@) && forall|j: int|
                0 <= j < members@.len() ==> members@[j].0@ != name@,
        },
{
    let wanted = chars_of(name);
    let mut i: usize = members.len();
    assert(members@.take(i as int) =~= members@);
    while i > 0
        invariant
            i <= members@.len(),
            wanted@ == name@,
            forall|j: int| i <= j < members@.len() ==> members@[j].0@ != name@,
            members_view(members@).dom().contains(name@) == members_view(
                members@.take(i as int),
            ).dom().contains(name@),
            members_view(members@).dom().contains(name@) ==> members_view(members@)[name@]
                == members_view(members@.take(i as int))[name@],
        decreases i,
    {
        assert(members@.take(i as int).drop_last() =~= members@.take(i - 1));
        assert(members@.take(i as int).last() == members@[i - 1]);
        i -= 1;
        let here = chars_of(members[i].0.as_str());
        if same(&here, &wanted) {
            return Some(i);
        }
    }
    assert(members@.take(0) =~= Seq::<(String, Json)>::empty());
    None
}

/// What the items of an array say, one by one.
pub proof fn lemma_items_view(items: Seq<Json>)
    ensures
        items_view(items).len() == items.len(),
        forall|i: int| 0 <= i < items.len() ==> #[trigger] items_view(items)[i] == items[i]@,
    decreases items.len(),
{
    if items.len() > 0 {
        lemma_items_view(items.drop_last());
    }
}

/// The names that an object has are those of its members.
pub proof fn lemma_members_dom(members: Seq<(String, Json)>, name: Seq<char>)
    ensures
        members_view(members).dom().contains(name) <==> exists|i: int|
            0 <= i < members.len() && #[trigger] members[i].0@ == name,
    decreases members.len(),
{
    if members.len() > 0 {
        let short = members.drop_last();
        lemma_members_dom(short, name);
        if members.last().0@ == name {
            assert(members[members.len() - 1].0@ == name);
        }
        if exists|i: int| 0 <= i < short.len() && #[trigger] short[i].0@ == name {
            let i = choose|i: int| 0 <= i < short.len() && #[trigger] short[i].0@ == name;
            assert(members[i].0@ == name);
        }
        if exists|i: int| 0 <= i < members.len() && #[trigger] members[i].0@ == name {
            let i = choose|i: int| 0 <= i < members.len() && #[trigger] members[i].0@ == name;
            if i < short.len() {
                assert(short[i].0@ == name);
            }
        }
    }
}

/// What the members say once the one at `i` has another value.
pub proof fn lemma_members_update(members: Seq<(String, Json)>, i: int, value: Json)
    requires
        0 <= i < members.len(),
        forall|j: int| i < j < members.len() ==> members[j].0@ != members[i].0@,
    ensures
        members_view(members.update(i, (members[i].0, value))) == members_view(members).insert(
            members[i].0@,
            value@,
        ),
    decreases members.len(),
{
    let after = members.update(i, (members[i].0, value));
    let n = members.len() as int;
    if i == n - 1 {
        assert(after.drop_last() =~= members.drop_last());
        assert(members_view(after) =~= members_view(members).insert(members[i].0@, value@));
    } else {
        let short = members.drop_last();
        assert(short[i] == members[i]);
        assert(after.drop_last() =~= short.update(i, (short[i].0, value)));
        lemma_members_update(short, i, value);
        assert(after.last() == members.last());
        assert(members_view(after) =~= members_view(members).insert(members[i].0@, value@));
    }
}

/// Sets the member `name`, in its place or at the end.
pub fn set_member(members: &mut Vec<(String, Json)>, name: &str, value: Json)
    ensures
        members_view(final(members)@) == members_view(old(members)@).insert(name@, value@),
{
    match find_member(members, name) {
        Some(i) => {
            let ghost before = members@;
            let key = members[i].0.clone();
            proof {
                lemma_members_update(before, i as int, value);
            }
            members.set(i, (key, value));
        },
        None => {
            let ghost before = members@;
            members.push((name.to_owned(), value));
            assert(members@.drop_last() =~= before);
        },
    }
}

} // verus!
