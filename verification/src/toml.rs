//! TOML documents, parsed and edited by `toml_edit` and read into plain trees.

use toml_edit::{DocumentMut, Item, Value};
use vstd::prelude::*;

use crate::tree::{both_alike, entries_of, entry_named, entry_views, field_of, node_view, Node, NodeView};

verus! {

/// A value or a table of a parsed TOML document.
#[verifier::external_type_specification]
#[verifier::external_body]
pub struct ExTomlItem(toml_edit::Item);

/// What a parsed TOML item holds.
pub uninterp spec fn toml_contents(item: toml_edit::Item) -> NodeView;

/// What the TOML text `text` holds, if it is one.
pub uninterp spec fn toml_tree(text: Seq<char>) -> Option<NodeView>;

/// Calls `toml_edit::DocumentMut::from_str` and takes the root: whether the text parses and what
/// the root then holds depends on the text alone and is named `toml_tree`.
#[verifier::external_body]
fn toml_root(text: &str) -> (r: Option<Item>)
    ensures
        match r {
            Some(item) => toml_tree(text@) == Some(toml_contents(item)),
            None => toml_tree(text@) is None,
        },
{
    let document = text.parse::<DocumentMut>().ok()?;
    Some(document.as_item().clone())
}

/// One level of a TOML item.
pub enum TomlShape {
    /// Nothing, a truth value, a number or a time.
    Scalar(toml_edit::Item),
    /// A text.
    Text(String),
    /// Values or tables in order.
    List(Vec<toml_edit::Item>),
    /// The named items of a table.
    Table(Vec<(String, toml_edit::Item)>),
    /// The named values of an inline table.
    Inline(Vec<(String, toml_edit::Item)>),
}

/// The names and contents of `entries`, in order.
pub open spec fn entry_contents(entries: Seq<(String, toml_edit::Item)>) -> Seq<(Seq<char>, NodeView)> {
    Seq::new(entries.len(), |i: int| (entries[i].0@, toml_contents(entries[i].1)))
}

/// Whether `shape` is the top level of an item that holds `contents`.
pub open spec fn toml_shape_fits(shape: TomlShape, contents: NodeView) -> bool {
    match shape {
        TomlShape::Scalar(item) => contents is Scalar && contents == toml_contents(item),
        TomlShape::Text(s) => contents == NodeView::Text(s@),
        TomlShape::List(items) => contents == NodeView::List(
            Seq::new(items@.len(), |i: int| toml_contents(items@[i])),
        ),
        TomlShape::Table(entries) => contents == NodeView::Table(entry_contents(entries@)),
        TomlShape::Inline(entries) => contents == NodeView::Inline(entry_contents(entries@)),
    }
}

/// Tells the variants of `toml_edit::Item` and `toml_edit::Value` apart: tables hand out their
/// names and items as they are iterated, arrays their values and arrays of tables their tables in
/// order; every other item is a scalar.
#[verifier::external_body]
fn toml_shape(item: Item) -> (r: TomlShape)
    ensures
        toml_shape_fits(r, toml_contents(item)),
{
    match item {
        Item::Value(Value::String(text)) => TomlShape::Text(text.into_value()),
        Item::Value(Value::Array(items)) => TomlShape::List(items.into_iter().map(Item::Value).collect()),
        Item::Value(Value::InlineTable(fields)) => TomlShape::Inline(
            fields.into_iter().map(|(key, value)| (key.to_string(), Item::Value(value))).collect(),
        ),
        Item::Table(fields) => TomlShape::Table(
            fields.into_iter().map(|(key, value)| (key.to_string(), value)).collect(),
        ),
        Item::ArrayOfTables(tables) => TomlShape::List(tables.into_iter().map(Item::Table).collect()),
        scalar => TomlShape::Scalar(scalar),
    }
}

/// Calls `to_string` on a scalar of `toml_edit`, whose space and comments around it
/// `toml_edit::Value::decorated` drops: the text is what the scalar holds, as it is written.
#[verifier::external_body]
fn scalar_text(item: Item) -> (r: String)
    requires
        toml_contents(item) is Scalar,
    ensures
        toml_contents(item) == NodeView::Scalar(r@),
{
    match item {
        Item::Value(value) => value.decorated("", "").to_string(),
        other => other.to_string(),
    }
}

/// The named items `entries` as plain trees.
fn toml_entries(entries: Vec<(String, Item)>, Ghost(whole): Ghost<NodeView>) -> (r: Vec<(String, Node)>)
    requires
        entries_of(whole) == Some(entry_contents(entries@)),
    ensures
        entry_views(r@) == entry_contents(entries@),
    decreases whole, 0int,
{
    let ghost given = entries@;
    let ghost held = entry_contents(given);
    let mut nodes: Vec<(String, Node)> = Vec::new();
    proof {
        assert(entry_views(nodes@) =~= held.take(0));
    }
    for entry in it: entries.into_iter()
        invariant
            it.seq() == given,
            held == entry_contents(given),
            entries_of(whole) == Some(held),
            entry_views(nodes@) == held.take(it.index() as int),
    {
        let ghost i = it.index() as int;
        proof {
            assert(held[i] == (entry.0@, toml_contents(entry.1)));
            match whole {
                NodeView::Table(_) => {
                    assert(decreases_to!(whole => whole->Table_0));
                },
                _ => {
                    assert(decreases_to!(whole => whole->Inline_0));
                },
            }
            assert(decreases_to!(held => held[i]));
            assert(decreases_to!(held[i] => held[i].1));
        }
        let node = toml_node(entry.1);
        let ghost before = nodes@;
        nodes.push((entry.0, node));
        proof {
            assert(held.take(i + 1) == held.take(i).push(held[i]));
            assert(entry_views(nodes@) =~= entry_views(before).push(held[i]));
        }
    }
    proof {
        assert(held.take(held.len() as int) == held);
    }
    nodes
}

/// A parsed TOML item as a plain tree.
fn toml_node(item: Item) -> (r: Node)
    ensures
        r@ == toml_contents(item),
    decreases toml_contents(item), 1int,
{
    let ghost contents = toml_contents(item);
    match toml_shape(item) {
        TomlShape::Scalar(item) => Node::Scalar(scalar_text(item)),
        TomlShape::Text(text) => Node::Text(text),
        TomlShape::List(items) => {
            let ghost given = items@;
            let ghost held = contents->List_0;
            let mut nodes: Vec<Node> = Vec::new();
            for entry in it: items.into_iter()
                invariant
                    it.seq() == given,
                    nodes@.len() == it.index(),
                    contents == NodeView::List(held),
                    contents == toml_contents(item),
                    held == Seq::new(given.len(), |k: int| toml_contents(given[k])),
                    forall|k: int| 0 <= k < nodes@.len() ==> (#[trigger] nodes@[k])@ == held[k],
            {
                proof {
                    assert(held[it.index() as int] == toml_contents(entry));
                    assert(decreases_to!(contents => contents->List_0));
                    assert(decreases_to!(held => held[it.index() as int]));
                }
                nodes.push(toml_node(entry));
            }
            let r = Node::List(nodes);
            proof {
                assert(node_view(r)->List_0 =~= held);
            }
            r
        },
        TomlShape::Table(entries) => {
            let r = Node::Table(toml_entries(entries, Ghost(contents)));
            proof {
                assert(node_view(r)->Table_0 =~= contents->Table_0);
            }
            r
        },
        TomlShape::Inline(entries) => {
            let r = Node::Inline(toml_entries(entries, Ghost(contents)));
            proof {
                assert(node_view(r)->Inline_0 =~= contents->Inline_0);
            }
            r
        },
    }
}

/// What a TOML text holds, if it is one.
pub fn parse_toml(text: &str) -> (r: Option<Node>)
    ensures
        match r {
            Some(node) => toml_tree(text@) == Some(node@),
            None => toml_tree(text@) is None,
        },
{
    match toml_root(text) {
        Some(item) => Some(toml_node(item)),
        None => None,
    }
}

/// Whether `tree` has a table `table` with an entry `from` and none named `to`.
pub open spec fn can_copy_entry(
    tree: NodeView,
    table: Seq<char>,
    from: Seq<char>,
    to: Seq<char>,
) -> bool {
    field_of(tree, table) matches Some(NodeView::Table(entries)) && entry_named(entries, from) is Some
        && entry_named(entries, to) is None
}

/// Whether `after` is `before` with one entry more in the table `table`: `to`, a copy of `from`.
/// Every other value stays what it was, at every depth; only the order of the entries of a table
/// may be another.
pub open spec fn entry_copied(
    before: NodeView,
    after: NodeView,
    table: Seq<char>,
    from: Seq<char>,
    to: Seq<char>,
) -> bool {
    &&& field_of(before, table) matches Some(old)
    &&& field_of(after, table) matches Some(new)
    &&& new is Table
    &&& field_of(old, from) is Some
    &&& both_alike(field_of(new, to), field_of(old, from))
    &&& forall|key: Seq<char>|
        key != to ==> both_alike(#[trigger] field_of(new, key), field_of(old, key))
    &&& forall|key: Seq<char>|
        key != table ==> both_alike(#[trigger] field_of(after, key), field_of(before, key))
}

/// The TOML text `text` once the entry `from` of its table `table` also stands there as `to`.
pub uninterp spec fn text_with_copy(
    text: Seq<char>,
    table: Seq<char>,
    from: Seq<char>,
    to: Seq<char>,
) -> Seq<char>;

/// Parses the text with `toml_edit::DocumentMut::from_str`, inserts a clone of one entry with
/// `toml_edit::Table::insert` and renders the document with its `to_string`: the new text depends
/// on the arguments alone and is named `text_with_copy`. It starts with no byte order mark, which
/// the parser drops. Where it parses again, it holds the copy, with everything that the entry holds,
/// beside all that was there: the entries are cloned and rendered whole, each value as it was
/// written. The order of the entries of a table is not claimed, since a table that has no header of
/// its own may be given one elsewhere; nor is it claimed that the text parses again.
#[verifier::external_body]
pub(crate) fn copy_entry(text: &str, table: &str, from: &str, to: &str) -> (r: String)
    requires
        toml_tree(text@) matches Some(tree) && can_copy_entry(tree, table@, from@, to@),
    ensures
        r@ == text_with_copy(text@, table@, from@, to@),
        r@.len() > 0 ==> r@[0] != '\u{feff}',
        toml_tree(r@) matches Some(after) ==> entry_copied(
            toml_tree(text@)->0,
            after,
            table@,
            from@,
            to@,
        ),
{
    let mut document = text.parse::<DocumentMut>().expect("the text parses");
    let fields = document[table].as_table_mut().expect("the table is there");
    let copied = fields[from].clone();
    fields.insert(to, copied);
    document.to_string()
}

} // verus!
