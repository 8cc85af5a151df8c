//! The document: a tree of objects, arrays and scalars that is built once
//! and only read afterwards.

use crate::key::{Key, KeyView};
use vstd::prelude::*;

verus! {

/// One value of the document tree.
///
/// Objects and arrays are the branches of the tree; every other node is
/// a leaf. The fields of an object and the elements of an array keep the
/// order in which they were given: that is the native order of the
/// children. A number is held as its text.
#[derive(Debug, PartialEq)]
pub enum Node {
    Null,
    Bool(bool),
    Number(String),
    String(String),
    Array(Vec<Node>),
    Object(Vec<(String, Node)>),
}

/// Whether navigation can go on below a node.
#[derive(Debug, PartialEq, Eq, Structural, Clone, Copy)]
pub enum NodeType {
    /// An object or an array
    Branch,
    /// A scalar: a string, a number, a boolean or null
    Leaf,
}

/// The mathematical value of a [`Node`].
pub enum NodeView {
    Null,
    Bool(bool),
    Number(Seq<char>),
    String(Seq<char>),
    Array(Seq<NodeView>),
    Object(Seq<(Seq<char>, NodeView)>),
}

/// The value of `node`: the same tree, with texts in place of strings and
/// sequences in place of vectors.
pub open spec fn node_view(node: Node) -> NodeView
    decreases node,
{
    match node {
        Node::Null => NodeView::Null,
        Node::Bool(b) => NodeView::Bool(b),
        Node::Number(digits) => NodeView::Number(digits@),
        Node::String(s) => NodeView::String(s@),
        Node::Array(items) => NodeView::Array(
            Seq::new(
                items@.len(),
                |i: int|
                    if 0 <= i < items@.len() {
                        node_view(items@[i])
                    } else {
                        arbitrary()
                    },
            ),
        ),
        Node::Object(fields) => NodeView::Object(
            Seq::new(
                fields@.len(),
                |i: int|
                    if 0 <= i < fields@.len() {
                        (fields@[i].0@, node_view(fields@[i].1))
                    } else {
                        arbitrary()
                    },
            ),
        ),
    }
}

impl View for Node {
    type V = NodeView;

    open spec fn view(&self) -> NodeView {
        node_view(*self)
    }
}

impl NodeView {
    /// Objects and arrays are branches.
    pub open spec fn is_branch(self) -> bool {
        self is Array || self is Object
    }

    /// The kind of the node: a branch or a leaf.
    pub open spec fn kind(self) -> NodeType {
        if self.is_branch() {
            NodeType::Branch
        } else {
            NodeType::Leaf
        }
    }

    /// The number of children: fields of an object, elements of an array,
    /// none of a leaf.
    pub open spec fn child_count(self) -> nat {
        match self {
            NodeView::Array(items) => items.len(),
            NodeView::Object(fields) => fields.len(),
            _ => 0,
        }
    }

    /// The key of the child at place `i` in native order.
    pub open spec fn key_at(self, i: int) -> KeyView
        recommends
            0 <= i < self.child_count(),
    {
        match self {
            NodeView::Object(fields) => KeyView::MapKey(fields[i].0),
            _ => KeyView::ArrayIndex(i as nat),
        }
    }

    /// The child at place `i` in native order.
    pub open spec fn child_at(self, i: int) -> NodeView
        recommends
            0 <= i < self.child_count(),
    {
        match self {
            NodeView::Array(items) => items[i],
            NodeView::Object(fields) => fields[i].1,
            _ => NodeView::Null,
        }
    }

    /// Whether the child at place `i` can be offered for selection. Every
    /// field of an object can; of the elements of an array, the strings.
    pub open spec fn eligible(self, i: int) -> bool {
        &&& 0 <= i < self.child_count()
        &&& match self {
            NodeView::Array(items) => items[i] is String,
            _ => true,
        }
    }

    /// The text by which the child at place `i` is matched and shown: the
    /// name of a field; the value of an array element that is a string,
    /// and the empty text for any other element.
    pub open spec fn text_at(self, i: int) -> Seq<char>
        recommends
            0 <= i < self.child_count(),
    {
        match self {
            NodeView::Object(fields) => fields[i].0,
            NodeView::Array(items) => match items[i] {
                NodeView::String(s) => s,
                _ => Seq::empty(),
            },
            _ => Seq::empty(),
        }
    }

    /// The names of the fields of an object, in native order.
    pub open spec fn names(self) -> Seq<Seq<char>> {
        match self {
            NodeView::Object(fields) => Seq::new(fields.len(), |i: int| fields[i].0),
            _ => Seq::empty(),
        }
    }

    /// The place of the child that `key` stands for: for a name, the first
    /// field of an object with that name; for a position, that element of
    /// an array. `None` where the node has no such child.
    pub open spec fn place_of(self, key: KeyView) -> Option<int> {
        match key {
            KeyView::MapKey(name) => self.names().index_of_first(name),
            KeyView::ArrayIndex(index) => if self is Array && index < self.child_count() {
                Some(index as int)
            } else {
                None
            },
        }
    }

    /// The child that `key` stands for, if there is one.
    pub open spec fn resolve(self, key: KeyView) -> Option<NodeView> {
        match self.place_of(key) {
            Some(i) => Some(self.child_at(i)),
            None => None,
        }
    }

    /// The text that shows `key` under this node: a name shows as itself,
    /// a position as the string at that place of an array, and as the
    /// empty text where no string stands there.
    pub open spec fn describe(self, key: KeyView) -> Seq<char> {
        match key {
            KeyView::MapKey(name) => name,
            KeyView::ArrayIndex(index) => if self is Array && index < self.child_count() {
                self.text_at(index as int)
            } else {
                Seq::empty()
            },
        }
    }
}

/// The place that a name stands for is the first place with that name.
pub proof fn lemma_place_of_name(node: NodeView, name: Seq<char>)
    ensures
        match node.place_of(KeyView::MapKey(name)) {
            Some(place) => {
                &&& node is Object
                &&& 0 <= place < node.child_count()
                &&& node.key_at(place) == KeyView::MapKey(name)
                &&& forall|i: int| 0 <= i < place ==> node.key_at(i) != KeyView::MapKey(name)
            },
            None => forall|i: int|
                0 <= i < node.child_count() ==> node.key_at(i) != KeyView::MapKey(name),
        },
{
    let names = node.names();
    names.index_of_first_ensures(name);
    match names.index_of_first(name) {
        Some(place) => {
            assert forall|i: int| 0 <= i < place implies node.key_at(i) != KeyView::MapKey(
                name,
            ) by {
                assert(names[i] != name);
            }
        },
        None => {
            assert forall|i: int| 0 <= i < node.child_count() implies node.key_at(i)
                != KeyView::MapKey(name) by {
                if node is Object {
                    assert(names.contains(names[i]));
                }
            }
        },
    }
}

impl Node {
    /// Whether the node is a branch or a leaf.
    pub fn node_type(&self) -> (kind: NodeType)
        ensures
            kind == self@.kind(),
    {
        match self {
            Node::Array(_) | Node::Object(_) => NodeType::Branch,
            _ => NodeType::Leaf,
        }
    }

    /// The number of children.
    pub fn len(&self) -> (count: usize)
        ensures
            count == self@.child_count(),
    {
        match self {
            Node::Array(items) => items.len(),
            Node::Object(fields) => fields.len(),
            _ => 0,
        }
    }

    /// The key of the child at place `index`.
    pub fn key(&self, index: usize) -> (key: Option<Key>)
        ensures
            key.is_some() == (index < self@.child_count()),
            key matches Some(k) ==> k@ == self@.key_at(index as int),
    {
        match self {
            Node::Array(items) => if index < items.len() {
                Some(Key::ArrayIndex(index))
            } else {
                None
            },
            Node::Object(fields) => if index < fields.len() {
                Some(Key::MapKey(fields[index].0.clone()))
            } else {
                None
            },
            _ => None,
        }
    }

    /// The text of the child at place `index`, where that child can be
    /// offered for selection.
    pub fn candidate_text(&self, index: usize) -> (text: Option<&str>)
        ensures
            text.is_some() == self@.eligible(index as int),
            text matches Some(t) ==> t@ == self@.text_at(index as int),
    {
        proof {
            reveal_with_fuel(node_view, 2);
        }
        match self {
            Node::Array(items) => if index < items.len() {
                match &items[index] {
                    Node::String(s) => Some(s.as_str()),
                    _ => None,
                }
            } else {
                None
            },
            Node::Object(fields) => if index < fields.len() {
                Some(fields[index].0.as_str())
            } else {
                None
            },
            _ => None,
        }
    }

    /// The child that `key` stands for.
    pub fn get(&self, key: &Key) -> (child: Option<&Node>)
        ensures
            match child {
                Some(node) => self@.resolve(key@) == Some(node@),
                None => self@.resolve(key@).is_none(),
            },
    {
        match key {
            Key::ArrayIndex(index) => match self {
                Node::Array(items) => if *index < items.len() {
                    Some(&items[*index])
                } else {
                    None
                },
                _ => None,
            },
            Key::MapKey(name) => match self {
                Node::Object(fields) => {
                    let mut i: usize = 0;
                    while i < fields.len()
                        invariant
                            i <= fields.len(),
                            *self == Node::Object(*fields),
                            *key == Key::MapKey(*name),
                            forall|j: int| 0 <= j < i ==> self@.names()[j] != name@,
                        decreases fields.len() - i,
                    {
                        if fields[i].0 == *name {
                            proof {
                                let names = self@.names();
                                assert(names[i as int] == name@);
                                names.index_of_first_ensures(name@);
                            }
                            return Some(&fields[i].1);
                        }
                        i += 1;
                    }
                    proof {
                        self@.names().index_of_first_ensures(name@);
                    }
                    None
                },
                _ => {
                    proof {
                        self@.names().index_of_first_ensures(name@);
                    }
                    None
                },
            },
        }
    }
}

/// The text that shows `key` under `node`.
pub fn describe_node_key(node: &Node, key: &Key) -> (text: String)
    ensures
        text@ == node@.describe(key@),
{
    match key {
        Key::MapKey(s) => s.clone(),
        Key::ArrayIndex(i) => match node.candidate_text(*i) {
            Some(s) => match node {
                Node::Array(_) => s.to_owned(),
                _ => String::new(),
            },
            None => String::new(),
        },
    }
}

} // verus!
