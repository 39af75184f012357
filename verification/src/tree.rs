//! Plain trees that JSON and TOML texts are read into.

use vstd::prelude::*;

use crate::text::same_text;

verus! {

/// A value of a JSON or TOML text, as far as it matters here.
#[derive(Debug)]
pub enum Node {
    /// A value that is neither a text nor holds other values, as it is written.
    Scalar(String),
    /// A text.
    Text(String),
    /// Values in order.
    List(Vec<Node>),
    /// Named values.
    Table(Vec<(String, Node)>),
    /// Named values that TOML writes as one value.
    Inline(Vec<(String, Node)>),
}

/// The model of a `Node`.
pub enum NodeView {
    Scalar(Seq<char>),
    Text(Seq<char>),
    List(Seq<NodeView>),
    Table(Seq<(Seq<char>, NodeView)>),
    Inline(Seq<(Seq<char>, NodeView)>),
}

/// The model of `n`.
pub open spec fn node_view(n: Node) -> NodeView
    decreases n,
{
    match n {
        Node::Scalar(s) => NodeView::Scalar(s@),
        Node::Text(s) => NodeView::Text(s@),
        Node::List(items) => NodeView::List(
            Seq::new(
                items@.len(),
                |i: int|
                    if 0 <= i < items@.len() {
                        node_view(items@[i])
                    } else {
                        NodeView::List(Seq::empty())
                    },
            ),
        ),
        Node::Table(entries) => NodeView::Table(
            Seq::new(
                entries@.len(),
                |i: int|
                    if 0 <= i < entries@.len() {
                        (entries@[i].0@, node_view(entries@[i].1))
                    } else {
                        (Seq::empty(), NodeView::List(Seq::empty()))
                    },
            ),
        ),
        Node::Inline(entries) => NodeView::Inline(
            Seq::new(
                entries@.len(),
                |i: int|
                    if 0 <= i < entries@.len() {
                        (entries@[i].0@, node_view(entries@[i].1))
                    } else {
                        (Seq::empty(), NodeView::List(Seq::empty()))
                    },
            ),
        ),
    }
}

impl View for Node {
    type V = NodeView;

    open spec fn view(&self) -> NodeView {
        node_view(*self)
    }
}

/// The models of `entries`, in order.
pub open spec fn entry_views(entries: Seq<(String, Node)>) -> Seq<(Seq<char>, NodeView)> {
    Seq::new(entries.len(), |i: int| (entries[i].0@, entries[i].1@))
}

/// The named values of `n`, where it holds such.
pub open spec fn entries_of(n: NodeView) -> Option<Seq<(Seq<char>, NodeView)>> {
    match n {
        NodeView::Table(entries) => Some(entries),
        NodeView::Inline(entries) => Some(entries),
        _ => None,
    }
}

/// The first of `entries` that is named `key`.
pub open spec fn entry_named(entries: Seq<(Seq<char>, NodeView)>, key: Seq<char>) -> Option<NodeView>
    decreases entries.len(),
{
    if entries.len() == 0 {
        None
    } else if entries[0].0 == key {
        Some(entries[0].1)
    } else {
        entry_named(entries.drop_first(), key)
    }
}

/// The value that `n` holds under the name `key`, if any.
pub open spec fn field_of(n: NodeView, key: Seq<char>) -> Option<NodeView> {
    match entries_of(n) {
        Some(entries) => entry_named(entries, key),
        None => None,
    }
}

/// The text that `n` is, if it is one.
pub open spec fn text_in(n: NodeView) -> Option<Seq<char>> {
    match n {
        NodeView::Text(s) => Some(s),
        _ => None,
    }
}

/// The text that `n` holds under the name `key`, if any.
pub open spec fn text_field_of(n: NodeView, key: Seq<char>) -> Option<Seq<char>> {
    match field_of(n, key) {
        Some(value) => text_in(value),
        None => None,
    }
}

/// Whether `a` and `b` are the same but for the order in which tables hold their entries, at every
/// depth.
pub open spec fn alike(a: NodeView, b: NodeView) -> bool
    decreases a,
{
    match (a, b) {
        (NodeView::Scalar(x), NodeView::Scalar(y)) => x == y,
        (NodeView::Text(x), NodeView::Text(y)) => x == y,
        (NodeView::List(x), NodeView::List(y)) => x.len() == y.len() && forall|i: int|
            #![trigger x[i]]
            0 <= i < x.len() ==> alike(x[i], y[i]),
        (NodeView::Table(x), NodeView::Table(y)) => same_names(x, y) && forall|i: int, j: int|
            #![trigger x[i], y[j]]
            0 <= i < x.len() && 0 <= j < y.len() && x[i].0 == y[j].0 ==> alike(x[i].1, y[j].1),
        (NodeView::Inline(x), NodeView::Inline(y)) => same_names(x, y) && forall|i: int, j: int|
            #![trigger x[i], y[j]]
            0 <= i < x.len() && 0 <= j < y.len() && x[i].0 == y[j].0 ==> alike(x[i].1, y[j].1),
        _ => false,
    }
}

/// Whether `x` and `y` hold entries of the same names.
pub open spec fn same_names(x: Seq<(Seq<char>, NodeView)>, y: Seq<(Seq<char>, NodeView)>) -> bool {
    forall|key: Seq<char>| #[trigger] entry_named(x, key) is Some <==> entry_named(y, key) is Some
}

/// Whether neither or both are there, and what is there is alike.
pub open spec fn both_alike(a: Option<NodeView>, b: Option<NodeView>) -> bool {
    match (a, b) {
        (Some(x), Some(y)) => alike(x, y),
        (None, None) => true,
        _ => false,
    }
}

proof fn lemma_entry_named_is_held(entries: Seq<(Seq<char>, NodeView)>, key: Seq<char>) -> (i: int)
    requires
        entry_named(entries, key) is Some,
    ensures
        0 <= i < entries.len(),
        entries[i].0 == key,
        entry_named(entries, key) == Some(entries[i].1),
    decreases entries.len(),
{
    if entries[0].0 == key {
        0
    } else {
        1 + lemma_entry_named_is_held(entries.drop_first(), key)
    }
}

/// Trees that are alike hold what is alike under every name, so the same texts.
pub proof fn alike_trees_hold_alike_fields(a: NodeView, b: NodeView, key: Seq<char>)
    requires
        alike(a, b),
    ensures
        both_alike(field_of(a, key), field_of(b, key)),
        text_field_of(a, key) == text_field_of(b, key),
{
    if let (Some(x), Some(y)) = (entries_of(a), entries_of(b)) {
        assert(same_names(x, y));
        if entry_named(x, key) is Some {
            let i = lemma_entry_named_is_held(x, key);
            let j = lemma_entry_named_is_held(y, key);
            assert(x[i].0 == y[j].0);
            assert(alike(x[i].1, y[j].1));
        }
    }
}

proof fn lemma_entry_named_at(entries: Seq<(Seq<char>, NodeView)>, key: Seq<char>, n: int)
    requires
        0 <= n <= entries.len(),
        forall|i: int| 0 <= i < n ==> (#[trigger] entries[i]).0 != key,
    ensures
        n == entries.len() ==> entry_named(entries, key) is None,
        n < entries.len() && entries[n].0 == key ==> entry_named(entries, key) == Some(entries[n].1),
    decreases n,
{
    if n > 0 {
        let rest = entries.drop_first();
        assert(entries[0].0 != key);
        assert forall|i: int| 0 <= i < n - 1 implies (#[trigger] rest[i]).0 != key by {
            assert(rest[i] == entries[i + 1]);
        }
        lemma_entry_named_at(rest, key, n - 1);
    }
}

/// The first of `entries` that is named `key`.
pub fn find_entry<'a>(entries: &'a Vec<(String, Node)>, key: &str) -> (r: Option<&'a Node>)
    ensures
        match r {
            Some(node) => entry_named(entry_views(entries@), key@) == Some(node@),
            None => entry_named(entry_views(entries@), key@) is None,
        },
{
    let ghost all = entry_views(entries@);
    let mut i: usize = 0;
    while i < entries.len()
        invariant
            i <= entries@.len(),
            all == entry_views(entries@),
            forall|k: int| 0 <= k < i ==> (#[trigger] all[k]).0 != key@,
        decreases entries@.len() - i,
    {
        proof {
            assert(all[i as int] == (entries@[i as int].0@, entries@[i as int].1@));
        }
        if same_text(entries[i].0.as_str(), key) {
            proof {
                lemma_entry_named_at(all, key@, i as int);
            }
            return Some(&entries[i].1);
        }
        i = i + 1;
    }
    proof {
        lemma_entry_named_at(all, key@, entries@.len() as int);
    }
    None
}

impl Node {
    /// The named values of this node, where it holds such.
    pub fn entries(&self) -> (r: Option<&Vec<(String, Node)>>)
        ensures
            match r {
                Some(entries) => entries_of(self@) == Some(entry_views(entries@)),
                None => entries_of(self@) is None,
            },
    {
        match self {
            Node::Table(entries) => {
                proof {
                    assert(entries_of(self@)->0 =~= entry_views(entries@));
                }
                Some(entries)
            },
            Node::Inline(entries) => {
                proof {
                    assert(entries_of(self@)->0 =~= entry_views(entries@));
                }
                Some(entries)
            },
            _ => None,
        }
    }

    /// The value that this node holds under the name `key`, if any.
    pub fn field(&self, key: &str) -> (r: Option<&Node>)
        ensures
            match r {
                Some(node) => field_of(self@, key@) == Some(node@),
                None => field_of(self@, key@) is None,
            },
    {
        match self.entries() {
            Some(entries) => find_entry(entries, key),
            None => None,
        }
    }

    /// The text that this node is, if it is one.
    pub fn text(&self) -> (r: Option<&str>)
        ensures
            match r {
                Some(s) => text_in(self@) == Some(s@),
                None => text_in(self@) is None,
            },
    {
        match self {
            Node::Text(s) => Some(s.as_str()),
            _ => None,
        }
    }

    /// The text that this node holds under the name `key`, if any.
    pub fn text_field(&self, key: &str) -> (r: Option<&str>)
        ensures
            match r {
                Some(s) => text_field_of(self@, key@) == Some(s@),
                None => text_field_of(self@, key@) is None,
            },
    {
        match self.field(key) {
            Some(node) => node.text(),
            None => None,
        }
    }
}

} // verus!
