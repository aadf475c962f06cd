//! Structured values, as front matter holds them.

use vstd::prelude::*;
use crate::text::str_eq;

verus! {

/// A value of front matter: a scalar, a sequence, or a mapping from text keys.
/// A mapping keeps its entries in order.
#[derive(Debug, PartialEq)]
pub enum Node {
    Null,
    Bool(bool),
    Integer(i64),
    /// A floating-point number, in decimal notation, such as `-0.25` or `1e100`.
    /// A text that is no number is written out as a string.
    Float(String),
    String(String),
    Sequence(Vec<Node>),
    Mapping(Vec<(String, Node)>),
}

/// What a [`Node`] stands for.
pub enum Tree {
    Null,
    Bool(bool),
    Integer(i64),
    Float(Seq<char>),
    Text(Seq<char>),
    List(Seq<Tree>),
    Dict(Seq<(Seq<char>, Tree)>),
}

/// What a node stands for.
pub open spec fn tree_of(node: Node) -> Tree
    decreases node,
{
    match node {
        Node::Null => Tree::Null,
        Node::Bool(b) => Tree::Bool(b),
        Node::Integer(i) => Tree::Integer(i),
        Node::Float(digits) => Tree::Float(digits@),
        Node::String(s) => Tree::Text(s@),
        Node::Sequence(items) => Tree::List(
            Seq::new(
                items@.len(),
                |i: int|
                    if 0 <= i < items@.len() {
                        tree_of(items@[i])
                    } else {
                        Tree::Null
                    },
            ),
        ),
        Node::Mapping(entries) => Tree::Dict(
            Seq::new(
                entries@.len(),
                |i: int|
                    if 0 <= i < entries@.len() {
                        (entries@[i].0@, tree_of(entries@[i].1))
                    } else {
                        (Seq::empty(), Tree::Null)
                    },
            ),
        ),
    }
}

impl View for Node {
    type V = Tree;

    open spec fn view(&self) -> Tree {
        tree_of(*self)
    }
}

/// What the items of a sequence stand for.
pub open spec fn items_view(items: Seq<Node>) -> Seq<Tree> {
    Seq::new(items.len(), |i: int| items[i]@)
}

/// What the entries of a mapping stand for.
pub open spec fn entries_view(entries: Seq<(String, Node)>) -> Seq<(Seq<char>, Tree)> {
    Seq::new(entries.len(), |i: int| (entries[i].0@, entries[i].1@))
}

/// A sequence stands for the list of what its items stand for, and a mapping for
/// the entries of its keys and what its values stand for.
pub proof fn lemma_view_of_collections(node: Node)
    ensures
        node matches Node::Sequence(items) ==> node@ == Tree::List(items_view(items@)),
        node matches Node::Mapping(entries) ==> node@ == Tree::Dict(entries_view(entries@)),
{
    reveal_with_fuel(tree_of, 2);
    match node {
        Node::Sequence(items) => {
            assert(node@->List_0 =~= items_view(items@));
        },
        Node::Mapping(entries) => {
            assert(node@->Dict_0 =~= entries_view(entries@));
        },
        _ => {},
    }
}

impl Clone for Node {
    /// A copy that stands for the same tree.
    #[verifier::loop_isolation(false)]
    fn clone(&self) -> (copy: Node)
        ensures
            copy@ == self@,
        decreases self,
    {
        match self {
            Node::Null => Node::Null,
            Node::Bool(b) => Node::Bool(*b),
            Node::Integer(i) => Node::Integer(*i),
            Node::Float(digits) => Node::Float(digits.clone()),
            Node::String(s) => Node::String(s.clone()),
            Node::Sequence(items) => {
                let mut copies: Vec<Node> = Vec::new();
                let mut i: usize = 0;
                while i < items.len()
                    invariant
                        i <= items.len(),
                        copies.len() == i,
                        forall|k: int| 0 <= k < i ==> copies[k]@ == items[k]@,
                    decreases items.len() - i,
                {
                    copies.push(items[i].clone());
                    i += 1;
                }
                let copy = Node::Sequence(copies);
                assert(copy@->List_0 =~= self@->List_0);
                copy
            },
            Node::Mapping(entries) => {
                let mut copies: Vec<(String, Node)> = Vec::new();
                let mut i: usize = 0;
                while i < entries.len()
                    invariant
                        i <= entries.len(),
                        copies.len() == i,
                        forall|k: int|
                            0 <= k < i ==> copies[k].0@ == entries[k].0@ && copies[k].1@
                                == entries[k].1@,
                    decreases entries.len() - i,
                {
                    copies.push((entries[i].0.clone(), entries[i].1.clone()));
                    i += 1;
                }
                let copy = Node::Mapping(copies);
                assert(copy@->Dict_0 =~= self@->Dict_0);
                copy
            },
        }
    }
}

impl Node {
    /// Whether two nodes stand for the same tree.
    #[verifier::loop_isolation(false)]
    pub fn same_as(&self, other: &Node) -> (r: bool)
        ensures
            r == (self@ == other@),
        decreases self,
    {
        proof {
            lemma_view_of_collections(*self);
            lemma_view_of_collections(*other);
        }
        match (self, other) {
            (Node::Null, Node::Null) => true,
            (Node::Bool(a), Node::Bool(b)) => *a == *b,
            (Node::Integer(a), Node::Integer(b)) => *a == *b,
            (Node::Float(a), Node::Float(b)) => str_eq(a.as_str(), b.as_str()),
            (Node::String(a), Node::String(b)) => str_eq(a.as_str(), b.as_str()),
            (Node::Sequence(a), Node::Sequence(b)) => {
                if a.len() != b.len() {
                    assert(items_view(a@).len() != items_view(b@).len());
                    return false;
                }
                let mut i: usize = 0;
                while i < a.len()
                    invariant
                        i <= a.len(),
                        a.len() == b.len(),
                        forall|k: int| 0 <= k < i ==> a[k]@ == b[k]@,
                    decreases a.len() - i,
                {
                    if !a[i].same_as(&b[i]) {
                        assert(items_view(a@)[i as int] != items_view(b@)[i as int]);
                        return false;
                    }
                    i += 1;
                }
                assert(items_view(a@) =~= items_view(b@));
                true
            },
            (Node::Mapping(a), Node::Mapping(b)) => {
                if a.len() != b.len() {
                    assert(entries_view(a@).len() != entries_view(b@).len());
                    return false;
                }
                let mut i: usize = 0;
                while i < a.len()
                    invariant
                        i <= a.len(),
                        a.len() == b.len(),
                        forall|k: int| 0 <= k < i ==> a[k].0@ == b[k].0@ && a[k].1@ == b[k].1@,
                    decreases a.len() - i,
                {
                    if !str_eq(a[i].0.as_str(), b[i].0.as_str()) || !a[i].1.same_as(&b[i].1) {
                        assert(entries_view(a@)[i as int] != entries_view(b@)[i as int]);
                        return false;
                    }
                    i += 1;
                }
                assert(entries_view(a@) =~= entries_view(b@));
                true
            },
            _ => false,
        }
    }
}

} // verus!
