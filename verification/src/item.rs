//! A child of a branch node together with the key that leads to it.

use crate::key::{Key, KeyView};
use crate::node::{Node, NodeView};
use vstd::prelude::*;

verus! {

/// The mathematical value of an [`OptionItem`].
pub struct ItemView {
    pub key: KeyView,
    pub child: NodeView,
}

impl ItemView {
    /// The text that shows the item: the name of a field, the value of an
    /// array element that is a string, and the empty text for any other
    /// array element.
    pub open spec fn text(self) -> Seq<char> {
        match self.key {
            KeyView::MapKey(name) => name,
            KeyView::ArrayIndex(_) => match self.child {
                NodeView::String(s) => s,
                _ => Seq::empty(),
            },
        }
    }
}

/// One child that can be offered: its key and the child itself.
#[derive(Clone, Debug, PartialEq)]
pub struct OptionItem<'a> {
    key: Key,
    child: &'a Node,
}

impl<'a> View for OptionItem<'a> {
    type V = ItemView;

    closed spec fn view(&self) -> ItemView {
        ItemView { key: self.key@, child: self.child@ }
    }
}

impl<'a> OptionItem<'a> {
    /// The item of `child` under `key`.
    pub fn new(key: Key, child: &'a Node) -> (item: OptionItem<'a>)
        ensures
            item@ == (ItemView { key: key@, child: child@ }),
    {
        OptionItem { key, child }
    }

    /// The text that shows the item.
    pub fn render(&self) -> (text: String)
        ensures
            text@ == self@.text(),
    {
        match &self.key {
            Key::MapKey(s) => s.clone(),
            Key::ArrayIndex(_) => match self.child {
                Node::String(s) => s.clone(),
                _ => String::new(),
            },
        }
    }
}

/// An item made of the key of a child and that child shows the same text
/// as the key does under the parent.
pub proof fn lemma_item_text_is_candidate_text(node: NodeView, i: int)
    requires
        0 <= i < node.child_count(),
    ensures
        (ItemView { key: node.key_at(i), child: node.child_at(i) }).text() == node.text_at(i),
        node.describe(node.key_at(i)) == node.text_at(i),
{
}

} // verus!
