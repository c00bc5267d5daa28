//! The tree that a JSON text is read into.

use crate::float_parser::is_float_literal;
use vstd::prelude::*;

verus! {

/// A JSON value.
///
/// A float is kept as the text of its literal, which the grammar has checked;
/// turning that text into a double is left to the caller. An object is a list
/// of members in the order of the text, and a key may occur more than once.
#[derive(PartialEq, Debug)]
pub enum Node {
    Null,
    Bool(bool),
    Integer(i64),
    Float(String),
    Str(String),
    Array(Vec<Node>),
    Object(Vec<(String, Node)>),
}

/// The mathematical value of a `Node`.
pub ghost enum NodeView {
    Null,
    Bool(bool),
    Integer(i64),
    Float(Seq<char>),
    Str(Seq<char>),
    Array(Seq<NodeView>),
    Object(Seq<(Seq<char>, NodeView)>),
}

impl View for Node {
    type V = NodeView;

    open spec fn view(&self) -> NodeView
        decreases self,
    {
        match self {
            Node::Null => NodeView::Null,
            Node::Bool(b) => NodeView::Bool(*b),
            Node::Integer(i) => NodeView::Integer(*i),
            Node::Float(text) => NodeView::Float(text@),
            Node::Str(text) => NodeView::Str(text@),
            Node::Array(items) => NodeView::Array(
                Seq::new(
                    items@.len(),
                    |k: int|
                        if 0 <= k < items@.len() {
                            items[k].view()
                        } else {
                            NodeView::Null
                        },
                ),
            ),
            Node::Object(members) => NodeView::Object(
                Seq::new(
                    members.len() as nat,
                    |k: int|
                        if 0 <= k < members.len() {
                            (members[k].0@, members[k].1.view())
                        } else {
                            (Seq::empty(), NodeView::Null)
                        },
                ),
            ),
        }
    }
}

/// The views of a sequence of nodes, in order.
pub open spec fn views_of(items: Seq<Node>) -> Seq<NodeView> {
    Seq::new(items.len(), |k: int| items[k]@)
}

/// The views of a sequence of members, in order.
pub open spec fn member_views_of(members: Seq<(String, Node)>) -> Seq<(Seq<char>, NodeView)> {
    Seq::new(members.len(), |k: int| (members[k].0@, members[k].1@))
}

/// The view of an array is the sequence of the views of its items.
pub proof fn lemma_array_view(items: Vec<Node>)
    ensures
        Node::Array(items)@ == NodeView::Array(views_of(items@)),
{
    reveal_with_fuel(<Node as View>::view, 2);
    assert(Node::Array(items)@->Array_0 =~= views_of(items@));
}

/// The view of an object is the sequence of its members, each with the view of
/// its key and of its value.
pub proof fn lemma_object_view(members: Vec<(String, Node)>)
    ensures
        Node::Object(members)@ == NodeView::Object(member_views_of(members@)),
{
    reveal_with_fuel(<Node as View>::view, 2);
    assert(Node::Object(members)@->Object_0 =~= member_views_of(members@));
}

impl Clone for Node {
    fn clone(&self) -> (copy: Node)
        ensures
            copy@ == self@,
        decreases self,
    {
        match self {
            Node::Null => Node::Null,
            Node::Bool(b) => Node::Bool(*b),
            Node::Integer(i) => Node::Integer(*i),
            Node::Float(text) => Node::Float(text.clone()),
            Node::Str(text) => Node::Str(text.clone()),
            Node::Array(items) => {
                let mut copies: Vec<Node> = Vec::new();
                let mut k: usize = 0;
                while k < items.len()
                    invariant
                        k <= items.len(),
                        copies@.len() == k,
                        forall|j: int| 0 <= j < k ==> copies@[j]@ == items@[j]@,
                        self is Array,
                        self->Array_0 == *items,
                    decreases items.len() - k,
                {
                    proof {
                        assert(decreases_to!(*items => items[k as int]));
                    }
                    copies.push(items[k].clone());
                    k += 1;
                }
                proof {
                    lemma_array_view(*items);
                    lemma_array_view(copies);
                    assert(views_of(copies@) =~= views_of(items@));
                }
                Node::Array(copies)
            },
            Node::Object(members) => {
                let mut copies: Vec<(String, Node)> = Vec::new();
                let mut k: usize = 0;
                while k < members.len()
                    invariant
                        k <= members.len(),
                        copies@.len() == k,
                        forall|j: int|
                            0 <= j < k ==> copies@[j].0@ == members@[j].0@ && copies@[j].1@
                                == members@[j].1@,
                        self is Object,
                        self->Object_0 == *members,
                    decreases members.len() - k,
                {
                    proof {
                        assert(decreases_to!(*members => members[k as int]));
                    }
                    copies.push((members[k].0.clone(), members[k].1.clone()));
                    k += 1;
                }
                proof {
                    lemma_object_view(*members);
                    lemma_object_view(copies);
                    assert(member_views_of(copies@) =~= member_views_of(members@));
                }
                Node::Object(copies)
            },
        }
    }
}

impl NodeView {
    /// Whether every float in the tree holds the text of a float literal.
    pub open spec fn well_formed(self) -> bool
        decreases self,
    {
        match self {
            NodeView::Float(text) => is_float_literal(text),
            NodeView::Array(items) => forall|k: int|
                0 <= k < items.len() ==> (#[trigger] items[k]).well_formed(),
            NodeView::Object(members) => forall|k: int|
                0 <= k < members.len() ==> (#[trigger] members[k]).1.well_formed(),
            _ => true,
        }
    }
}

} // verus!
