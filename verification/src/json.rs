//! JSON texts, parsed by `serde_json` and read into plain trees.

use vstd::prelude::*;

use crate::tree::{node_view, Node, NodeView};

verus! {

/// A parsed JSON value.
#[verifier::external_type_specification]
#[verifier::external_body]
pub struct ExJsonValue(serde_json::Value);

/// What a parsed JSON value holds.
pub uninterp spec fn json_contents(value: serde_json::Value) -> NodeView;

/// What the JSON text `text` holds, or why it is none.
pub uninterp spec fn json_tree(text: Seq<char>) -> Result<NodeView, Seq<char>>;

/// Calls `serde_json::from_str` for a `serde_json::Value`: what the value holds, or the text of
/// the error, depends on the text alone and is named `json_tree`.
#[verifier::external_body]
fn json_value(text: &str) -> (r: Result<serde_json::Value, String>)
    ensures
        match r {
            Ok(value) => json_tree(text@) == Ok::<NodeView, Seq<char>>(json_contents(value)),
            Err(error) => json_tree(text@) == Err::<NodeView, Seq<char>>(error@),
        },
{
    serde_json::from_str(text).map_err(|error| error.to_string())
}

/// One level of a JSON value.
pub enum JsonShape {
    /// Null, a truth value or a number, as JSON writes it.
    Scalar(String),
    /// A text.
    Text(String),
    /// Values in order.
    List(Vec<serde_json::Value>),
    /// Named values.
    Table(Vec<(String, serde_json::Value)>),
}

/// Whether `shape` is the top level of a value that holds `contents`.
pub open spec fn json_shape_fits(shape: JsonShape, contents: NodeView) -> bool {
    match shape {
        JsonShape::Scalar(s) => contents == NodeView::Scalar(s@),
        JsonShape::Text(s) => contents == NodeView::Text(s@),
        JsonShape::List(items) => contents == NodeView::List(
            Seq::new(items@.len(), |i: int| json_contents(items@[i])),
        ),
        JsonShape::Table(entries) => contents == NodeView::Table(
            Seq::new(entries@.len(), |i: int| (entries@[i].0@, json_contents(entries@[i].1))),
        ),
    }
}

/// Tells the variants of `serde_json::Value` apart: an array hands out its values in order, an
/// object its names and values as it is iterated; null, truth values and numbers are scalars, whose
/// text its `to_string` gives.
#[verifier::external_body]
fn json_shape(value: serde_json::Value) -> (r: JsonShape)
    ensures
        json_shape_fits(r, json_contents(value)),
{
    match value {
        serde_json::Value::String(text) => JsonShape::Text(text),
        serde_json::Value::Array(items) => JsonShape::List(items),
        serde_json::Value::Object(fields) => JsonShape::Table(fields.into_iter().collect()),
        scalar => JsonShape::Scalar(scalar.to_string()),
    }
}

/// A parsed JSON value as a plain tree.
fn json_node(value: serde_json::Value) -> (r: Node)
    ensures
        r@ == json_contents(value),
    decreases json_contents(value),
{
    let ghost contents = json_contents(value);
    match json_shape(value) {
        JsonShape::Scalar(text) => Node::Scalar(text),
        JsonShape::Text(text) => Node::Text(text),
        JsonShape::List(items) => {
            let ghost given = items@;
            let ghost held = contents->List_0;
            let mut nodes: Vec<Node> = Vec::new();
            for item in it: items.into_iter()
                invariant
                    it.seq() == given,
                    nodes@.len() == it.index(),
                    contents == NodeView::List(held),
                    held == Seq::new(given.len(), |i: int| json_contents(given[i])),
                    contents == json_contents(value),
                    forall|i: int| 0 <= i < nodes@.len() ==> (#[trigger] nodes@[i])@ == held[i],
            {
                proof {
                    assert(held[it.index() as int] == json_contents(item));
                    assert(decreases_to!(contents => contents->List_0));
                    assert(decreases_to!(held => held[it.index() as int]));
                }
                nodes.push(json_node(item));
            }
            let r = Node::List(nodes);
            proof {
                assert(node_view(r)->List_0 =~= held);
            }
            r
        },
        JsonShape::Table(entries) => {
            let ghost given = entries@;
            let ghost held = contents->Table_0;
            let mut nodes: Vec<(String, Node)> = Vec::new();
            for entry in it: entries.into_iter()
                invariant
                    it.seq() == given,
                    nodes@.len() == it.index(),
                    contents == NodeView::Table(held),
                    held == Seq::new(
                        given.len(),
                        |i: int| (given[i].0@, json_contents(given[i].1)),
                    ),
                    contents == json_contents(value),
                    forall|i: int|
                        0 <= i < nodes@.len() ==> (#[trigger] nodes@[i]).0@ == held[i].0
                            && nodes@[i].1@ == held[i].1,
            {
                proof {
                    assert(held[it.index() as int] == (entry.0@, json_contents(entry.1)));
                    assert(decreases_to!(contents => contents->Table_0));
                    assert(decreases_to!(held => held[it.index() as int]));
                    assert(decreases_to!(held[it.index() as int] => held[it.index() as int].1));
                }
                let node = json_node(entry.1);
                nodes.push((entry.0, node));
            }
            let r = Node::Table(nodes);
            proof {
                assert(node_view(r)->Table_0 =~= held);
            }
            r
        },
    }
}

/// What a JSON text holds, or why it is none.
pub fn parse_json(text: &str) -> (r: Result<Node, String>)
    ensures
        match r {
            Ok(node) => json_tree(text@) == Ok::<NodeView, Seq<char>>(node@),
            Err(error) => json_tree(text@) == Err::<NodeView, Seq<char>>(error@),
        },
{
    match json_value(text) {
        Ok(value) => Ok(json_node(value)),
        Err(error) => Err(error),
    }
}

} // verus!
