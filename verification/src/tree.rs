//! A value that came as JSON or TOML, or is about to leave as JSON: texts,
//! numbers, lists and tables, whatever it was written in.
use crate::text::{same, texts};
use vstd::prelude::*;
use vstd::string::*;
use vstd::utf8::encode_utf8;

verus! {

#[derive(Debug)]
pub enum Tree {
    Null,
    Bool(bool),
    Integer(i64),
    /// An integer of up to 128 bits, as it comes out of TOML.
    Wide(i128),
    /// Any other number, or a date, as it was written.
    Other(String),
    Text(String),
    List(Vec<Tree>),
    /// The entries of a table, in the order in which they are handed out.
    Table(Vec<(String, Tree)>),
}

/// What a [`Tree`] says.
pub enum TreeView {
    Null,
    Bool(bool),
    Integer(i64),
    Wide(i128),
    Other(Seq<char>),
    Text(Seq<char>),
    List(Seq<TreeView>),
    Table(Seq<(Seq<char>, TreeView)>),
}

impl View for Tree {
    type V = TreeView;

    open spec fn view(&self) -> TreeView
        decreases self,
    {
        match self {
            Tree::Null => TreeView::Null,
            Tree::Bool(b) => TreeView::Bool(*b),
            Tree::Integer(n) => TreeView::Integer(*n),
            Tree::Wide(n) => TreeView::Wide(*n),
            Tree::Other(s) => TreeView::Other(s@),
            Tree::Text(s) => TreeView::Text(s@),
            Tree::List(items) => TreeView::List(
                Seq::new(
                    items@.len(),
                    |i: int|
                        if 0 <= i < items@.len() {
                            items@[i].view()
                        } else {
                            TreeView::Null
                        },
                ),
            ),
            Tree::Table(entries) => TreeView::Table(
                Seq::new(
                    entries@.len(),
                    |i: int|
                        if 0 <= i < entries@.len() {
                            (entries@[i].0@, entries@[i].1.view())
                        } else {
                            (Seq::empty(), TreeView::Null)
                        },
                ),
            ),
        }
    }
}

/// What a list holds.
pub open spec fn items_view(items: Seq<Tree>) -> Seq<TreeView> {
    Seq::new(items.len(), |i: int| items[i]@)
}

/// What a table holds.
pub open spec fn entries_view(entries: Seq<(String, Tree)>) -> Seq<(Seq<char>, TreeView)> {
    Seq::new(entries.len(), |i: int| (entries[i].0@, entries[i].1@))
}

pub proof fn list_view(items: Vec<Tree>)
    ensures
        Tree::List(items)@ == TreeView::List(items_view(items@)),
{
    reveal_with_fuel(<Tree as View>::view, 2);
    let tree = Tree::List(items);
    assert(tree@->List_0 =~= items_view(items@));
}

pub proof fn table_view(entries: Vec<(String, Tree)>)
    ensures
        Tree::Table(entries)@ == TreeView::Table(entries_view(entries@)),
{
    reveal_with_fuel(<Tree as View>::view, 2);
    let tree = Tree::Table(entries);
    assert(tree@->Table_0 =~= entries_view(entries@));
}

/// The first entry under this key.
pub open spec fn entry(entries: Seq<(Seq<char>, TreeView)>, key: Seq<char>) -> Option<TreeView>
    decreases entries.len(),
{
    if entries.len() == 0 {
        None
    } else if entries[0].0 == key {
        Some(entries[0].1)
    } else {
        entry(entries.drop_first(), key)
    }
}

pub fn find<'a>(entries: &'a Vec<(String, Tree)>, key: &str) -> (r: Option<&'a Tree>)
    ensures
        r is Some == entry(entries_view(entries@), key@) is Some,
        r is Some ==> r->0@ == entry(entries_view(entries@), key@)->0,
{
    let ghost all = entries_view(entries@);
    let mut i: usize = 0;
    assert(all.skip(0) == all);
    while i < entries.len()
        invariant
            i <= entries@.len(),
            all == entries_view(entries@),
            entry(all, key@) == entry(all.skip(i as int), key@),
        decreases entries@.len() - i,
    {
        assert(all.skip(i as int)[0] == all[i as int]);
        assert(all.skip(i as int).drop_first() == all.skip(i + 1));
        if same(&entries[i].0, key) {
            return Some(&entries[i].1);
        }
        i += 1;
    }
    None
}

/// A JSON value.
#[verifier::external_type_specification]
#[verifier::external_body]
pub struct ExJsonValue(serde_json::Value);

/// What a JSON value holds.
pub uninterp spec fn json_contents(value: serde_json::Value) -> TreeView;

/// What a JSON document holds, if the bytes are one.
pub uninterp spec fn json_parsed(bytes: Seq<u8>) -> Option<TreeView>;

/// `serde_json::from_slice` into a `serde_json::Value`. Whether the bytes are
/// a document, and what it holds, is a function of the bytes alone.
#[verifier::external_body]
fn json_value(bytes: &[u8]) -> (r: Option<serde_json::Value>)
    ensures
        r is Some == json_parsed(bytes@) is Some,
        r is Some ==> json_contents(r->0) == json_parsed(bytes@)->0,
{
    serde_json::from_slice(bytes).ok()
}

/// A `serde_json::Value` taken apart variant by variant, lists and objects
/// entry by entry. A number outside the 64-bit integers keeps its text.
#[verifier::external_body]
fn json_tree(value: serde_json::Value) -> (r: Tree)
    ensures
        r@ == json_contents(value),
{
    match value {
        serde_json::Value::Null => Tree::Null,
        serde_json::Value::Bool(b) => Tree::Bool(b),
        serde_json::Value::Number(n) => n.as_i64().map_or(Tree::Other(n.to_string()), Tree::Integer),
        serde_json::Value::String(s) => Tree::Text(s),
        serde_json::Value::Array(a) => Tree::List(a.into_iter().map(json_tree).collect()),
        serde_json::Value::Object(o) => Tree::Table(
            o.into_iter().map(|(k, v)| (k, json_tree(v))).collect(),
        ),
    }
}

/// What a JSON document holds, if the bytes are one.
pub fn parse_json(bytes: &[u8]) -> (r: Option<Tree>)
    ensures
        r is Some == json_parsed(bytes@) is Some,
        r is Some ==> r->0@ == json_parsed(bytes@)->0,
{
    match json_value(bytes) {
        Some(value) => Some(json_tree(value)),
        None => None,
    }
}

/// What a list of texts looks like as a value.
pub open spec fn texts_as_tree(list: Seq<Seq<char>>) -> TreeView {
    TreeView::List(Seq::new(list.len(), |i: int| TreeView::Text(list[i])))
}

/// The JSON text of a list of texts.
pub uninterp spec fn texts_written(list: Seq<Seq<char>>) -> Seq<char>;

/// `serde_json::to_string` of a list of texts, which depends on the texts
/// alone. It cannot fail: there is no map in a list of texts, and a text is
/// always written. What is written is read back as the same list.
#[verifier::external_body]
pub(crate) fn write_texts(list: &[String]) -> (r: String)
    ensures
        r@ == texts_written(texts(list@)),
        json_parsed(encode_utf8(r@)) == Some(texts_as_tree(texts(list@))),
{
    serde_json::to_string(list).expect("a list of texts is always written")
}

/// The JSON text of a value.
pub uninterp spec fn json_text_of(value: serde_json::Value) -> Seq<char>;

/// The JSON text that a [`Tree`] is written as.
pub uninterp spec fn json_written(tree: TreeView) -> Seq<char>;

/// A [`Tree`] put together as a `serde_json::Value`, variant by variant, lists
/// and objects entry by entry; what is neither comes as the text it is. What
/// the value is written as depends on what the tree says and on nothing else.
#[verifier::external_body]
fn json_made(tree: &Tree) -> (r: serde_json::Value)
    ensures
        json_text_of(r) == json_written(tree@),
{
    match tree {
        Tree::Null => serde_json::Value::Null,
        Tree::Bool(b) => serde_json::Value::Bool(*b),
        Tree::Integer(n) => serde_json::Value::from(*n),
        Tree::Wide(n) => serde_json::Value::String(n.to_string()),
        Tree::Other(s) => serde_json::Value::String(s.clone()),
        Tree::Text(s) => serde_json::Value::String(s.clone()),
        Tree::List(a) => serde_json::Value::Array(a.iter().map(json_made).collect()),
        Tree::Table(o) => serde_json::Value::Object(
            o.iter().map(|(k, v)| (k.clone(), json_made(v))).collect(),
        ),
    }
}

/// `serde_json::Value::to_string`: the value as JSON text.
#[verifier::external_body]
fn json_string(value: &serde_json::Value) -> (r: String)
    ensures
        r@ == json_text_of(*value),
{
    value.to_string()
}

/// The tree as JSON text.
pub fn write_json(tree: &Tree) -> (r: String)
    ensures
        r@ == json_written(tree@),
{
    json_string(&json_made(tree))
}

/// A list of texts, if the value is one and nothing else is in it.
pub open spec fn texts_in(tree: TreeView) -> Option<Seq<Seq<char>>> {
    match tree {
        TreeView::List(items) => if forall|i: int|
            0 <= i < items.len() ==> (#[trigger] items[i]) is Text {
            Some(Seq::new(items.len(), |i: int| items[i]->Text_0))
        } else {
            None
        },
        _ => None,
    }
}

/// The texts of a list, whatever else is in it left out.
pub open spec fn texts_among(items: Seq<TreeView>) -> Seq<Seq<char>>
    decreases items.len(),
{
    if items.len() == 0 {
        Seq::empty()
    } else {
        let before = texts_among(items.drop_last());
        match items.last() {
            TreeView::Text(s) => before.push(s),
            _ => before,
        }
    }
}

} // verus!
