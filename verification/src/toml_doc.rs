//! TOML documents that are edited in place.
//!
//! Reading, holding and writing them is the work of the `toml_edit` crate, which
//! keeps comments, order and spacing. Two things are said of a document here:
//! what its sections hold, and how it is laid out, which is the order of its
//! sections and keys and the way each is set.

use vstd::prelude::*;

verus! {

/// A document of the `toml_edit` crate.
#[verifier::external_type_specification]
#[verifier::external_body]
pub struct ExDocumentMut(toml_edit::DocumentMut);

/// An item of a document of the `toml_edit` crate.
#[verifier::external_type_specification]
#[verifier::external_body]
pub struct ExItem(toml_edit::Item);

/// A value of the `toml_edit` crate.
#[verifier::external_type_specification]
#[verifier::external_body]
pub struct ExTomlValue(toml_edit::Value);

/// A table of the `toml_edit` crate.
#[verifier::external_type_specification]
#[verifier::external_body]
pub struct ExTable(toml_edit::Table);

/// What stands around a value in a document of the `toml_edit` crate.
#[verifier::external_type_specification]
#[verifier::external_body]
pub struct ExDecor(toml_edit::Decor);

/// A key of the `toml_edit` crate.
#[verifier::external_type_specification]
#[verifier::external_body]
pub struct ExKey(toml_edit::Key);

/// A value to be written.
#[derive(Debug)]
pub enum TomlValue {
    Text(String),
    Int(i64),
    Bool(bool),
    Texts(Vec<String>),
}

/// What a value says.
#[verifier::ext_equal]
pub enum ValueView {
    Text(Seq<char>),
    Int(int),
    Bool(bool),
    Texts(Seq<Seq<char>>),
    /// Anything else.
    Other(toml_edit::Value),
}

/// What a section holds under a key.
#[verifier::ext_equal]
pub enum EntryView {
    /// A value, and the spacing and the comment around it; none where it has
    /// none of its own.
    Value(ValueView, Option<toml_edit::Decor>),
    /// A table.
    Table(Map<Seq<char>, EntryView>),
    /// Anything else.
    Other(toml_edit::Item),
}

/// What a document holds under a name.
#[verifier::ext_equal]
pub enum ItemView {
    /// A section.
    Table(Map<Seq<char>, EntryView>),
    /// Sections that share the name.
    Tables(Seq<Map<Seq<char>, EntryView>>),
    /// Anything else.
    Other(toml_edit::Item),
}

/// A line of a section.
#[verifier::ext_equal]
pub struct Line {
    pub key: Seq<char>,
    /// How the key is set: its spelling, and the blank space and the comments
    /// before it; none where nothing of that is its own.
    pub set: Option<toml_edit::Key>,
    /// What stands under it, where its spelling is its own.
    pub own: Option<toml_edit::Item>,
}

/// How something is laid out that a document holds under a name.
#[verifier::ext_equal]
pub enum Body {
    /// A section: its header, as a table without keys, with the comments before
    /// it and its place in the text, where any of that is its own; and its lines.
    Section { head: Option<toml_edit::Table>, lines: Seq<Line> },
    /// Sections that share the name, all of them plain.
    Plain,
    /// Anything else.
    Whole(toml_edit::Item),
}

/// What stands in a document under a name, and how it is laid out.
#[verifier::ext_equal]
pub struct Place {
    pub name: Seq<char>,
    /// How the name is set, as of a [`Line`].
    pub set: Option<toml_edit::Key>,
    pub body: Body,
}

impl TomlValue {
    /// What it says.
    pub open spec fn view(&self) -> ValueView {
        match self {
            TomlValue::Text(s) => ValueView::Text(s@),
            TomlValue::Int(n) => ValueView::Int(*n as int),
            TomlValue::Bool(b) => ValueView::Bool(*b),
            TomlValue::Texts(v) => ValueView::Texts(v@.map_values(|s: String| s@)),
        }
    }
}

/// What a document holds, name by name.
pub uninterp spec fn items(doc: toml_edit::DocumentMut) -> Map<Seq<char>, ItemView>;

/// What a table holds, key by key.
pub uninterp spec fn entries(t: toml_edit::Table) -> Map<Seq<char>, EntryView>;

/// What a value says.
pub uninterp spec fn said(v: toml_edit::Value) -> ValueView;

/// The spacing and the comment around a value; none where it has none of its own.
pub uninterp spec fn around(v: toml_edit::Value) -> Option<toml_edit::Decor>;

/// A value as an item, where its spelling is its own.
pub uninterp spec fn own(v: toml_edit::Value) -> Option<toml_edit::Item>;

/// How a document is laid out: what it holds, in order.
pub uninterp spec fn layout(doc: toml_edit::DocumentMut) -> Seq<Place>;

/// How the document in a TOML text is laid out; `None` where it is no TOML.
pub uninterp spec fn layout_of_text(text: Seq<char>) -> Option<Seq<Place>>;

/// What stands before a key: the blank space on its line, and the lines before
/// that.
pub uninterp spec fn lead(k: toml_edit::Key) -> Seq<char>;

/// Whether a document is set as TOML wants it: each item where its kind of item
/// may stand, and nothing but blank space and comments between them.
pub uninterp spec fn is_tidy(doc: toml_edit::DocumentMut) -> bool;

/// Whether a table is one with a header of its own, without a place in a document
/// yet, and so are those in it, with nothing said of how their items are set.
pub uninterp spec fn is_plain(t: toml_edit::Table) -> bool;

/// What a TOML text holds, name by name; `None` where it is no TOML.
pub uninterp spec fn items_of_text(text: Seq<char>) -> Option<Map<Seq<char>, ItemView>>;

/// The text of a document.
pub uninterp spec fn text_of(doc: toml_edit::DocumentMut) -> Seq<char>;

/// The section called `name`; without keys where there is none.
pub open spec fn table(m: Map<Seq<char>, ItemView>, name: Seq<char>) -> Map<Seq<char>, EntryView> {
    if is_section(m, name) {
        m[name]->Table_0
    } else {
        Map::empty()
    }
}

/// Whether there is a section called `name`.
pub open spec fn is_section(m: Map<Seq<char>, ItemView>, name: Seq<char>) -> bool {
    m.dom().contains(name) && m[name] is Table
}

/// Whether the section `name` holds a plain value under `key`.
pub open spec fn holds_value(m: Map<Seq<char>, ItemView>, name: Seq<char>, key: Seq<char>) -> bool {
    is_section(m, name) && table(m, name).dom().contains(key) && table(m, name)[key] is Value
}

/// The sections that share the name `name`; none where there are none.
pub open spec fn tables(m: Map<Seq<char>, ItemView>, name: Seq<char>) -> Seq<
    Map<Seq<char>, EntryView>,
> {
    if m.dom().contains(name) && m[name] is Tables {
        m[name]->Tables_0
    } else {
        Seq::empty()
    }
}

/// The table that a table holds under `key`; without keys where there is none.
pub open spec fn inner(t: Map<Seq<char>, EntryView>, key: Seq<char>) -> Map<Seq<char>, EntryView> {
    if t.dom().contains(key) && t[key] is Table {
        t[key]->Table_0
    } else {
        Map::empty()
    }
}

/// Whether a text, a number, a truth value or an array of texts stands under `key`.
pub open spec fn holds_plain(t: Map<Seq<char>, EntryView>, key: Seq<char>) -> bool {
    t.dom().contains(key) && t[key] is Value && t[key]->Value_0 !is Other
}

/// Whether `b` holds what `a` says in texts, numbers, truth values and arrays of
/// texts, and no key that `a` lacks.
pub open spec fn keeps(a: Map<Seq<char>, EntryView>, b: Map<Seq<char>, EntryView>) -> bool {
    &&& forall|k: Seq<char>| #[trigger]
        holds_plain(a, k) ==> holds_plain(b, k) && b[k]->Value_0 == a[k]->Value_0
    &&& forall|k: Seq<char>| #[trigger] b.dom().contains(k) ==> a.dom().contains(k)
}

/// Whether a document that holds `n` says the same as one that holds `m`: its
/// sections do, and so do those that share a name, one by one, with the tables
/// in them.
pub open spec fn reads_as(m: Map<Seq<char>, ItemView>, n: Map<Seq<char>, ItemView>) -> bool {
    &&& forall|name: Seq<char>| keeps(#[trigger] table(m, name), table(n, name))
    &&& forall|name: Seq<char>| #[trigger] tables(m, name).len() == tables(n, name).len()
    &&& forall|name: Seq<char>, i: int|
        0 <= i < tables(m, name).len() ==> keeps(#[trigger] tables(m, name)[i], tables(n, name)[i])
    &&& forall|name: Seq<char>, i: int, key: Seq<char>|
        0 <= i < tables(m, name).len() ==> keeps(
            #[trigger] inner(tables(m, name)[i], key),
            inner(tables(n, name)[i], key),
        )
}

/// Whether a text can be read, and says the same as a document that holds `m`.
pub open spec fn text_says(text: Seq<char>, m: Map<Seq<char>, ItemView>) -> bool {
    match items_of_text(text) {
        Some(n) => reads_as(m, n),
        None => false,
    }
}

/// `m` with `entry` in the section `name` under `key`.
pub open spec fn with_entry(
    m: Map<Seq<char>, ItemView>,
    name: Seq<char>,
    key: Seq<char>,
    entry: EntryView,
) -> Map<Seq<char>, ItemView> {
    m.insert(name, ItemView::Table(table(m, name).insert(key, entry)))
}

// ---------------------------------------------------------------------------
// How a document is laid out
// ---------------------------------------------------------------------------

/// Where `name` first stands, from `from` on.
pub open spec fn place_from(l: Seq<Place>, name: Seq<char>, from: int) -> Option<int>
    decreases l.len() - from,
{
    if from < 0 || from >= l.len() {
        None
    } else if l[from].name == name {
        Some(from)
    } else {
        place_from(l, name, from + 1)
    }
}

/// Where `name` stands.
pub open spec fn place(l: Seq<Place>, name: Seq<char>) -> Option<int> {
    place_from(l, name, 0)
}

/// Where `key` first stands in a section, from `from` on.
pub open spec fn line_from(v: Seq<Line>, key: Seq<char>, from: int) -> Option<int>
    decreases v.len() - from,
{
    if from < 0 || from >= v.len() {
        None
    } else if v[from].key == key {
        Some(from)
    } else {
        line_from(v, key, from + 1)
    }
}

/// `l` with something new under `name`: in the place of what stood there, or at
/// the end.
pub open spec fn with_body(l: Seq<Place>, name: Seq<char>, set: bool, body: Body) -> Seq<Place> {
    match place(l, name) {
        Some(i) => l.update(
            i,
            Place {
                name,
                set: if set {
                    l[i].set
                } else {
                    None
                },
                body,
            },
        ),
        None => l.push(Place { name, set: None, body }),
    }
}

/// `l` without `name`; the others stay in their order.
pub open spec fn without_place(l: Seq<Place>, name: Seq<char>) -> Seq<Place> {
    match place(l, name) {
        Some(i) => l.remove(i),
        None => l,
    }
}

/// `l` with other lines in the section `name`.
pub open spec fn with_lines(l: Seq<Place>, name: Seq<char>, lines: Seq<Line>) -> Seq<Place> {
    match place(l, name) {
        Some(i) => match l[i].body {
            Body::Section { head, .. } => l.update(
                i,
                Place { body: Body::Section { head, lines }, ..l[i] },
            ),
            _ => l,
        },
        None => l,
    }
}

/// The lines of the section `name`.
pub open spec fn lines(l: Seq<Place>, name: Seq<char>) -> Seq<Line> {
    match place(l, name) {
        Some(i) => match l[i].body {
            Body::Section { lines, .. } => lines,
            _ => Seq::empty(),
        },
        None => Seq::empty(),
    }
}

/// Lines with something else under `key`, which stays as it is set.
pub open spec fn respelled(
    v: Seq<Line>,
    key: Seq<char>,
    own: Option<toml_edit::Item>,
) -> Seq<Line> {
    match line_from(v, key, 0) {
        Some(j) => v.update(j, Line { own, ..v[j] }),
        None => v,
    }
}

/// Lines with a new one for `key`: in the place of that which was there, or at
/// the end.
pub open spec fn with_line(
    v: Seq<Line>,
    key: Seq<char>,
    own: Option<toml_edit::Item>,
) -> Seq<Line> {
    let line = Line { key, set: None, own };
    match line_from(v, key, 0) {
        Some(j) => v.update(j, line),
        None => v.push(line),
    }
}

/// Lines without that for `key`; the others stay in their order.
pub open spec fn without_line(v: Seq<Line>, key: Seq<char>) -> Seq<Line> {
    match line_from(v, key, 0) {
        Some(j) => v.remove(j),
        None => v,
    }
}

/// Whether plain sections share the name `name`.
pub open spec fn are_plain(l: Seq<Place>, name: Seq<char>) -> bool {
    place(l, name) matches Some(i) && l[i].body == Body::Plain
}

/// How the name `name` is set, where it stands in the document.
pub open spec fn set_of(l: Seq<Place>, name: Seq<char>) -> Option<Option<toml_edit::Key>> {
    match place(l, name) {
        Some(i) => Some(l[i].set),
        None => None,
    }
}

/// Whether there are only spaces and tabs: no line break, and so no comment.
pub open spec fn is_blank(s: Seq<char>) -> bool {
    forall|i: int| 0 <= i < s.len() ==> #[trigger] s[i] == ' ' || s[i] == '\t'
}

/// Whether a name stands in the document with nothing before it but spaces and
/// tabs.
pub open spec fn is_clear(l: Seq<Place>, name: Seq<char>) -> bool {
    set_of(l, name) matches Some(set) && (set matches Some(key) ==> is_blank(lead(key)))
}

/// An empty section without anything of its own.
pub open spec fn new_section() -> Body {
    Body::Section { head: None, lines: Seq::empty() }
}

// ---------------------------------------------------------------------------
// The calls
// ---------------------------------------------------------------------------

/// `DocumentMut::from_str`: what a document read from a text holds, how it is laid
/// out, and whether it can be read, depends on the text alone; and what was read
/// is tidy.
#[verifier::external_body]
pub(crate) fn parse(text: &str) -> (r: Option<toml_edit::DocumentMut>)
    ensures
        match r {
            Some(doc) => items_of_text(text@) == Some(items(doc)) && layout_of_text(text@) == Some(
                layout(doc),
            ) && is_tidy(doc),
            None => items_of_text(text@) is None && layout_of_text(text@) is None,
        },
{
    text.parse::<toml_edit::DocumentMut>().ok()
}

/// `DocumentMut::to_string`: the text of a tidy document can be read, and says
/// what the document holds. A section whose keys are all gone may be missing from
/// it, and what the values of other kinds, such as dates, read as is not stated.
#[verifier::external_body]
pub(crate) fn write(doc: &toml_edit::DocumentMut) -> (r: String)
    ensures
        r@ == text_of(*doc),
        is_tidy(*doc) ==> text_says(r@, items(*doc)),
{
    doc.to_string()
}

/// `Value::from`, of a text, a number, a truth value or an array of texts: it says
/// that, and has no spacing and no spelling of its own.
#[verifier::external_body]
pub(crate) fn value(v: &TomlValue) -> (r: toml_edit::Value)
    ensures
        said(r) == v@,
        around(r) is None,
        own(r) is None,
{
    match v {
        TomlValue::Text(s) => toml_edit::Value::from(s.as_str()),
        TomlValue::Int(n) => toml_edit::Value::from(*n),
        TomlValue::Bool(b) => toml_edit::Value::from(*b),
        TomlValue::Texts(v) => v.iter().map(String::as_str).collect(),
    }
}

/// `Item::is_table` of what `Table::get` finds.
#[verifier::external_body]
pub(crate) fn has_section(doc: &toml_edit::DocumentMut, name: &str) -> (r: bool)
    ensures
        r == is_section(items(*doc), name@),
{
    doc.get(name).is_some_and(toml_edit::Item::is_table)
}

/// `toml_edit::table` put in the place of what the name stands for, which stays as
/// it is set, or at the end, by way of `Table::entry`. A tidy document without the
/// name stays tidy, and so does one in which nothing but spaces and tabs stands
/// before the name, [`lead`] being the prefix of `Key::leaf_decor`. The header takes
/// over what stood before the name, and a header may not have a line break in it,
/// so nothing is said of other cases.
#[verifier::external_body]
pub(crate) fn put_section(doc: &mut toml_edit::DocumentMut, name: &str)
    ensures
        items(*final(doc)) == items(*old(doc)).insert(name@, ItemView::Table(Map::empty())),
        layout(*final(doc)) == with_body(layout(*old(doc)), name@, true, new_section()),
        is_tidy(*old(doc)) && (!items(*old(doc)).dom().contains(name@) || (set_of(
            layout(*old(doc)),
            name@,
        ) matches Some(set) && (set matches Some(key) ==> is_blank(lead(key))))) ==> is_tidy(
            *final(doc),
        ),
{
    *doc.entry(name).or_insert(toml_edit::Item::None) = toml_edit::table();
}

/// `Table::remove` of the document's own table: the rest stays in its order. A
/// tidy document stays tidy.
#[verifier::external_body]
pub(crate) fn remove_item(doc: &mut toml_edit::DocumentMut, name: &str)
    ensures
        items(*final(doc)) == items(*old(doc)).remove(name@),
        layout(*final(doc)) == without_place(layout(*old(doc)), name@),
        is_tidy(*old(doc)) ==> is_tidy(*final(doc)),
{
    doc.remove(name);
}

/// `Table::is_empty` of a section.
#[verifier::external_body]
pub(crate) fn section_is_empty(doc: &toml_edit::DocumentMut, name: &str) -> (r: bool)
    requires
        is_section(items(*doc), name@),
    ensures
        r == (table(items(*doc), name@) =~= Map::empty()),
{
    doc[name].as_table().is_some_and(toml_edit::Table::is_empty)
}

/// `Item::is_value` of what `Table::get` finds in a section.
#[verifier::external_body]
pub(crate) fn has_value(doc: &toml_edit::DocumentMut, name: &str, key: &str) -> (r: bool)
    requires
        is_section(items(*doc), name@),
    ensures
        r == holds_value(items(*doc), name@, key@),
{
    doc[name].get(key).is_some_and(toml_edit::Item::is_value)
}

/// A value set over another one through `Item::as_value_mut`, with the other's
/// `Value::decor`; the key and the line stay where and as they are. A tidy
/// document stays tidy, where the value is of a kind that is known.
#[verifier::external_body]
pub(crate) fn replace_value(
    doc: &mut toml_edit::DocumentMut,
    name: &str,
    key: &str,
    value: toml_edit::Value,
)
    requires
        holds_value(items(*old(doc)), name@, key@),
    ensures
        items(*final(doc)) == with_entry(
            items(*old(doc)),
            name@,
            key@,
            EntryView::Value(said(value), table(items(*old(doc)), name@)[key@]->Value_1),
        ),
        layout(*final(doc)) == with_lines(
            layout(*old(doc)),
            name@,
            respelled(lines(layout(*old(doc)), name@), key@, own(value)),
        ),
        is_tidy(*old(doc)) && said(value) !is Other ==> is_tidy(*final(doc)),
{
    if let Some(existing) = doc[name][key].as_value_mut() {
        let mut new = value;
        *new.decor_mut() = existing.decor().clone();
        *existing = new;
    }
}

/// `Table::insert` of a value into a section: in the line of its key, which is set
/// anew, or in a new one at the end. A tidy document stays tidy, where the value
/// is of a kind that is known and has no spacing of its own.
#[verifier::external_body]
pub(crate) fn insert_value(
    doc: &mut toml_edit::DocumentMut,
    name: &str,
    key: &str,
    value: toml_edit::Value,
)
    requires
        is_section(items(*old(doc)), name@),
    ensures
        items(*final(doc)) == with_entry(
            items(*old(doc)),
            name@,
            key@,
            EntryView::Value(said(value), around(value)),
        ),
        layout(*final(doc)) == with_lines(
            layout(*old(doc)),
            name@,
            with_line(lines(layout(*old(doc)), name@), key@, own(value)),
        ),
        is_tidy(*old(doc)) && said(value) !is Other && around(value) is None ==> is_tidy(
            *final(doc),
        ),
{
    if let Some(t) = doc[name].as_table_mut() {
        t.insert(key, toml_edit::Item::Value(value));
    }
}

/// `Table::remove` of a section's table: the other lines stay in their order. A
/// tidy document stays tidy.
#[verifier::external_body]
pub(crate) fn remove_key(doc: &mut toml_edit::DocumentMut, name: &str, key: &str)
    requires
        is_section(items(*old(doc)), name@),
    ensures
        items(*final(doc)) == items(*old(doc)).insert(
            name@,
            ItemView::Table(table(items(*old(doc)), name@).remove(key@)),
        ),
        layout(*final(doc)) == with_lines(
            layout(*old(doc)),
            name@,
            without_line(lines(layout(*old(doc)), name@), key@),
        ),
        is_tidy(*old(doc)) ==> is_tidy(*final(doc)),
{
    if let Some(t) = doc[name].as_table_mut() {
        t.remove(key);
    }
}

/// `Table::insert` of an empty array of tables: in the place of what the name
/// stands for, which is set anew, or at the end. A tidy document stays tidy.
#[verifier::external_body]
pub(crate) fn put_tables(doc: &mut toml_edit::DocumentMut, name: &str)
    ensures
        items(*final(doc)) == items(*old(doc)).insert(name@, ItemView::Tables(Seq::empty())),
        layout(*final(doc)) == with_body(layout(*old(doc)), name@, false, Body::Plain),
        is_tidy(*old(doc)) ==> is_tidy(*final(doc)),
{
    doc.insert(name, toml_edit::array());
}

/// `ArrayOfTables::push`. A tidy document stays tidy, where the table is plain;
/// and nothing is laid out anew, where the others are plain too.
#[verifier::external_body]
pub(crate) fn push_table(doc: &mut toml_edit::DocumentMut, name: &str, table: toml_edit::Table)
    requires
        items(*old(doc)).dom().contains(name@),
        items(*old(doc))[name@] is Tables,
    ensures
        items(*final(doc)) == items(*old(doc)).insert(
            name@,
            ItemView::Tables(tables(items(*old(doc)), name@).push(entries(table))),
        ),
        is_plain(table) && are_plain(layout(*old(doc)), name@) ==> layout(*final(doc)) == layout(
            *old(doc),
        ),
        is_tidy(*old(doc)) && is_plain(table) ==> is_tidy(*final(doc)),
{
    if let Some(v) = doc[name].as_array_of_tables_mut() {
        v.push(table);
    }
}

/// `Table::new`: a plain table without keys.
#[verifier::external_body]
pub(crate) fn new_table() -> (r: toml_edit::Table)
    ensures
        entries(r).dom() == Set::<Seq<char>>::empty(),
        is_plain(r),
{
    toml_edit::Table::new()
}

/// `Table::insert` of a value. A plain table stays plain, where the value is of a
/// kind that is known and has no spacing of its own.
#[verifier::external_body]
pub(crate) fn put_value(table: &mut toml_edit::Table, key: &str, value: toml_edit::Value)
    ensures
        entries(*final(table)) == entries(*old(table)).insert(
            key@,
            EntryView::Value(said(value), around(value)),
        ),
        is_plain(*old(table)) && said(value) !is Other && around(value) is None ==> is_plain(
            *final(table),
        ),
{
    table.insert(key, toml_edit::Item::Value(value));
}

/// `Table::insert` of a table. A plain table stays plain, where the other is plain.
#[verifier::external_body]
pub(crate) fn put_table(table: &mut toml_edit::Table, key: &str, inner: toml_edit::Table)
    ensures
        entries(*final(table)) == entries(*old(table)).insert(
            key@,
            EntryView::Table(entries(inner)),
        ),
        is_plain(*old(table)) && is_plain(inner) ==> is_plain(*final(table)),
{
    table.insert(key, toml_edit::Item::Table(inner));
}

} // verus!
