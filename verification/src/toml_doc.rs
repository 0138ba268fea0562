//! TOML documents as `toml_edit` parses, reads, edits and writes them. A document is seen
//! through what it holds at each key path, found through tables only; each result of the
//! crate is named as a function of the call's arguments, and the edits state what they
//! change and what they keep.

use toml_edit::{Array, Item, Table, Value};
use vstd::prelude::*;

verus! {

/// A TOML document of `toml_edit`.
#[verifier::external_type_specification]
#[verifier::external_body]
pub struct ExTomlDocument(toml_edit::DocumentMut);

/// What a document holds at a key path.
pub ghost enum TomlView {
    Absent,
    /// A table, with the keys of its items.
    Table(Seq<Seq<char>>),
    /// An inline table, with the keys of its items.
    InlineTable(Seq<Seq<char>>),
    /// An array: each entry's text, or `None` when it is not a string.
    Array(Seq<Option<Seq<char>>>),
    Text(Seq<char>),
    Bool(bool),
    Other,
}

/// The document that `toml_edit` parses from `text`, or `None` when it refuses the text.
pub uninterp spec fn toml_parse(text: Seq<char>) -> Option<toml_edit::DocumentMut>;

/// What `doc` holds at `path`: the item reached from the root through tables only, by
/// `Table::get`, or `Absent` when there is none.
pub uninterp spec fn toml_at(doc: toml_edit::DocumentMut, path: Seq<Seq<char>>) -> TomlView;

/// The text that `DocumentMut`'s `Display` writes for `doc`.
pub uninterp spec fn toml_rendering(doc: toml_edit::DocumentMut) -> Seq<char>;

/// The keys of a table or an inline table; none for anything else.
pub open spec fn view_keys(view: TomlView) -> Seq<Seq<char>> {
    match view {
        TomlView::Table(keys) => keys,
        TomlView::InlineTable(keys) => keys,
        _ => Seq::empty(),
    }
}

pub open spec fn is_prefix(p: Seq<Seq<char>>, q: Seq<Seq<char>>) -> bool {
    p.len() <= q.len() && q.take(p.len() as int) == p
}

/// Neither path lies at or under the other.
pub open spec fn apart(p: Seq<Seq<char>>, q: Seq<Seq<char>>) -> bool {
    !is_prefix(p, q) && !is_prefix(q, p)
}

pub open spec fn path_view(path: Seq<&str>) -> Seq<Seq<char>> {
    path.map_values(|name: &str| name@)
}

/// Every table on the way to `path` is a table.
pub open spec fn reachable(doc: toml_edit::DocumentMut, path: Seq<Seq<char>>) -> bool {
    forall|i: int| 1 <= i < path.len() ==> #[trigger] toml_at(doc, path.take(i)) is Table
}

/// What a read of the item at a path tells of it.
#[derive(Debug, Clone, PartialEq, Eq)]
pub enum TomlKind {
    Absent,
    Table,
    InlineTable,
    Array,
    Text(String),
    /// Anything else: a number, a boolean, a date, an array of tables.
    Other,
}

pub open spec fn kind_matches(kind: TomlKind, view: TomlView) -> bool {
    match kind {
        TomlKind::Absent => view is Absent,
        TomlKind::Table => view is Table,
        TomlKind::InlineTable => view is InlineTable,
        TomlKind::Array => view is Array,
        TomlKind::Text(text) => view == TomlView::Text(text@),
        TomlKind::Other => view is Bool || view is Other,
    }
}

/// A value to store.
#[derive(Debug, Clone, PartialEq, Eq)]
pub enum TomlWrite {
    EmptyTable,
    Text(String),
    Bool(bool),
    EmptyArray,
}

pub open spec fn written(value: TomlWrite) -> TomlView {
    match value {
        TomlWrite::EmptyTable => TomlView::Table(Seq::empty()),
        TomlWrite::Text(text) => TomlView::Text(text@),
        TomlWrite::Bool(b) => TomlView::Bool(b),
        TomlWrite::EmptyArray => TomlView::Array(Seq::empty()),
    }
}

/// Calls `DocumentMut`'s `FromStr`. Claims only that what it returns is a function of the
/// text.
#[verifier::external_body]
pub(crate) fn parse_toml(text: &str) -> (result: Option<toml_edit::DocumentMut>)
    ensures
        result == toml_parse(text@),
{
    text.parse::<toml_edit::DocumentMut>().ok()
}

/// Calls `DocumentMut::new`. Claims that the new document is empty.
#[verifier::external_body]
pub(crate) fn empty_toml() -> (result: toml_edit::DocumentMut)
    ensures
        forall|path: Seq<Seq<char>>| path.len() >= 1 ==> #[trigger] toml_at(result, path) is Absent,
{
    toml_edit::DocumentMut::new()
}

/// Calls `DocumentMut`'s `Display`. Claims only that the text is a function of the
/// document.
#[verifier::external_body]
pub(crate) fn render_toml(doc: &toml_edit::DocumentMut) -> (result: String)
    ensures
        result@ == toml_rendering(*doc),
{
    doc.to_string()
}

/// Reads the item at `path` by `Table::get` through tables and tells its kind. Claims that
/// this is what the document holds there, and, as the source shows, that nothing is found
/// under what is not a table.
#[verifier::external_body]
pub(crate) fn toml_kind(doc: &toml_edit::DocumentMut, path: &[&str]) -> (result: TomlKind)
    requires
        path@.len() >= 1,
    ensures
        kind_matches(result, toml_at(*doc, path_view(path@))),
        !(result is Table) ==> forall|key: Seq<char>|
            #[trigger] toml_at(*doc, path_view(path@).push(key)) is Absent,
{
    let mut table = Some(doc.as_table());
    for name in &path[..path.len() - 1] {
        table = table.and_then(|t| t.get(name)).and_then(Item::as_table);
    }
    match table.and_then(|t| t.get(path[path.len() - 1])) {
        None => TomlKind::Absent,
        Some(Item::Table(_)) => TomlKind::Table,
        Some(Item::Value(Value::InlineTable(_))) => TomlKind::InlineTable,
        Some(Item::Value(Value::Array(_))) => TomlKind::Array,
        Some(Item::Value(Value::String(s))) => TomlKind::Text(s.value().clone()),
        Some(_) => TomlKind::Other,
    }
}

/// Reads the keys of the table or inline table at `path`. Claims that they are the ones the
/// document holds there, in order.
#[verifier::external_body]
pub(crate) fn toml_keys(doc: &toml_edit::DocumentMut, path: &[&str]) -> (result: Vec<String>)
    requires
        path@.len() >= 1,
        toml_at(*doc, path_view(path@)) is Table || toml_at(*doc, path_view(path@)) is InlineTable,
    ensures
        result@.map_values(|key: String| key@) == view_keys(toml_at(*doc, path_view(path@))),
{
    let mut table = Some(doc.as_table());
    for name in &path[..path.len() - 1] {
        table = table.and_then(|t| t.get(name)).and_then(Item::as_table);
    }
    match table.and_then(|t| t.get(path[path.len() - 1])).and_then(Item::as_table_like) {
        Some(found) => found.iter().map(|(key, _)| key.to_string()).collect(),
        None => Vec::new(),
    }
}

/// Reads the entries of the array at `path`, each as its text or `None`. Claims that they
/// are the ones the document holds there, in order.
#[verifier::external_body]
pub(crate) fn toml_texts(doc: &toml_edit::DocumentMut, path: &[&str]) -> (result: Vec<Option<String>>)
    requires
        path@.len() >= 1,
        toml_at(*doc, path_view(path@)) is Array,
    ensures
        TomlView::Array(result@.map_values(|entry: Option<String>| match entry {
            Some(text) => Some(text@),
            None => None,
        })) == toml_at(*doc, path_view(path@)),
{
    let mut table = Some(doc.as_table());
    for name in &path[..path.len() - 1] {
        table = table.and_then(|t| t.get(name)).and_then(Item::as_table);
    }
    match table.and_then(|t| t.get(path[path.len() - 1])).and_then(Item::as_array) {
        Some(array) => array.iter().map(|entry| entry.as_str().map(String::from)).collect(),
        None => Vec::new(),
    }
}

/// Stores a value at `path` by `Table`'s `IndexMut` in the table that holds it. Claims, as
/// the source shows, that the path then holds the value and nothing under it, that each
/// table on the way gains the key that leads on, and that every other path is kept.
#[verifier::external_body]
pub(crate) fn toml_put(doc: &mut toml_edit::DocumentMut, path: &[&str], value: TomlWrite)
    requires
        path@.len() >= 1,
        reachable(*old(doc), path_view(path@)),
    ensures
        toml_at(*final(doc), path_view(path@)) == written(value),
        forall|q: Seq<Seq<char>>|
            q.len() >= 1 && apart(q, path_view(path@)) ==> #[trigger] toml_at(*final(doc), q) == toml_at(*old(doc), q),
        forall|q: Seq<Seq<char>>|
            is_prefix(path_view(path@), q) && q.len() > path@.len() ==> #[trigger] toml_at(*final(doc), q) is Absent,
        forall|i: int|
            1 <= i < path@.len() ==> #[trigger] toml_at(*final(doc), path_view(path@).take(i)) is Table && view_keys(
                toml_at(*final(doc), path_view(path@).take(i)),
            ).to_set() == view_keys(toml_at(*old(doc), path_view(path@).take(i))).to_set().insert(path@[i]@),
{
    let item = match value {
        TomlWrite::EmptyTable => Item::Table(Table::new()),
        TomlWrite::Text(text) => toml_edit::value(text),
        TomlWrite::Bool(b) => toml_edit::value(b),
        TomlWrite::EmptyArray => Item::Value(Value::Array(Array::new())),
    };
    let mut table = Some(doc.as_table_mut());
    for name in &path[..path.len() - 1] {
        table = table.and_then(|t| t.get_mut(name)).and_then(Item::as_table_mut);
    }
    if let Some(table) = table {
        table[path[path.len() - 1]] = item;
    }
}

/// Appends a string to the array at `path` by `Array::push`. Claims that the array then
/// holds its entries and the text, and that every other path is kept.
#[verifier::external_body]
pub(crate) fn toml_push_text(doc: &mut toml_edit::DocumentMut, path: &[&str], text: &str)
    requires
        path@.len() >= 1,
        toml_at(*old(doc), path_view(path@)) is Array,
    ensures
        toml_at(*final(doc), path_view(path@)) == TomlView::Array(
            toml_at(*old(doc), path_view(path@))->Array_0.push(Some(text@)),
        ),
        forall|q: Seq<Seq<char>>|
            q != path_view(path@) ==> #[trigger] toml_at(*final(doc), q) == toml_at(*old(doc), q),
{
    let mut table = Some(doc.as_table_mut());
    for name in &path[..path.len() - 1] {
        table = table.and_then(|t| t.get_mut(name)).and_then(Item::as_table_mut);
    }
    if let Some(array) = table.and_then(|t| t.get_mut(path[path.len() - 1])).and_then(Item::as_array_mut) {
        array.push(text);
    }
}

/// Removes the item at `path` by `Table::remove` from the table that holds it, and tells
/// whether there was one. Claims, as the source shows, that the path and everything under
/// it is then absent, that the table that held it loses the key, and that every other path
/// is kept.
#[verifier::external_body]
pub(crate) fn toml_remove(doc: &mut toml_edit::DocumentMut, path: &[&str]) -> (result: bool)
    requires
        path@.len() >= 1,
        reachable(*old(doc), path_view(path@)),
    ensures
        result == !(toml_at(*old(doc), path_view(path@)) is Absent),
        forall|q: Seq<Seq<char>>| is_prefix(path_view(path@), q) ==> #[trigger] toml_at(*final(doc), q) is Absent,
        forall|q: Seq<Seq<char>>|
            q.len() >= 1 && !is_prefix(path_view(path@), q) && q != path_view(path@).drop_last() ==> #[trigger] toml_at(
                *final(doc),
                q,
            ) == toml_at(*old(doc), q),
        path@.len() >= 2 ==> toml_at(*final(doc), path_view(path@).drop_last()) is Table && view_keys(
            toml_at(*final(doc), path_view(path@).drop_last()),
        ).to_set() == view_keys(toml_at(*old(doc), path_view(path@).drop_last())).to_set().remove(path@.last()@),
{
    let mut table = Some(doc.as_table_mut());
    for name in &path[..path.len() - 1] {
        table = table.and_then(|t| t.get_mut(name)).and_then(Item::as_table_mut);
    }
    match table {
        Some(table) => table.remove(path[path.len() - 1]).is_some_and(|item| !item.is_none()),
        None => false,
    }
}

} // verus!
