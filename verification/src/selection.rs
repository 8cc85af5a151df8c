//! One level of navigation: a node, the filter text typed at it, and the
//! cursor over the children that the filter keeps.

use crate::filter::{
    candidates, eligible_keys, filter_candidates, key_views, lemma_leaf_has_no_candidates,
};
use crate::key::{Key, KeyView};
use crate::node::{describe_node_key, Node, NodeType, NodeView};
use crate::zipper::{
    lemma_at_first_items, lemma_moves_keep_items, lemma_next_then_prev, lemma_prev_then_next,
    ReadOnlyZipper, ZipperView,
};
use std::collections::VecDeque;
use vstd::prelude::*;

verus! {

/// The value of a zipper of keys: the same zipper over the values of its
/// keys.
pub open spec fn cursor_view(z: ZipperView<Key>) -> ZipperView<KeyView> {
    ZipperView { left: key_views(z.left), selected: z.selected@, right: key_views(z.right) }
}

/// The value of an optional zipper of keys.
pub open spec fn choices_view(choices: Option<ReadOnlyZipper<Key>>) -> Option<ZipperView<KeyView>> {
    match choices {
        Some(z) => Some(cursor_view(z@)),
        None => None,
    }
}

/// Taking values commutes with everything a zipper does.
pub proof fn lemma_cursor_view(z: ZipperView<Key>)
    ensures
        cursor_view(z).items() == key_views(z.items()),
        cursor_view(z.next()) == cursor_view(z).next(),
        cursor_view(z.prev()) == cursor_view(z).prev(),
{
    if z.right.len() > 0 {
        assert(key_views(z.left.push(z.selected)) =~= key_views(z.left).push(z.selected@));
        assert(key_views(z.right.drop_first()) =~= key_views(z.right).drop_first());
    }
    if z.left.len() > 0 {
        assert(key_views(z.left.drop_last()) =~= key_views(z.left).drop_last());
        assert(key_views(seq![z.selected] + z.right) =~= seq![z.selected@] + key_views(z.right));
    }
}

/// The mathematical value of a [`SelectionMeta`].
pub struct ContextView {
    /// The filter text.
    pub filter: Seq<char>,
    /// The node whose children are offered.
    pub parent: NodeView,
    /// The cursor over the candidates, absent where there is none.
    pub cursor: Option<ZipperView<KeyView>>,
}

impl ContextView {
    /// The cursor runs over exactly the candidates of the parent under
    /// the filter, and is absent if and only if there is no candidate.
    pub open spec fn wf(self) -> bool {
        match self.cursor {
            Some(z) => z.items() == candidates(self.parent, self.filter),
            None => candidates(self.parent, self.filter).len() == 0,
        }
    }

    /// The context of `parent` under `filter`, with the first candidate
    /// selected.
    pub open spec fn filtered(parent: NodeView, filter: Seq<char>) -> ContextView {
        ContextView { filter, parent, cursor: ZipperView::at_first(candidates(parent, filter)) }
    }

    /// The context in which navigation reaches `parent`: nothing typed
    /// yet, the first child that can be offered selected.
    pub open spec fn fresh(parent: NodeView) -> ContextView {
        ContextView::filtered(parent, Seq::empty())
    }

    /// The selected key, if any.
    pub open spec fn selected(self) -> Option<KeyView> {
        match self.cursor {
            Some(z) => Some(z.selected),
            None => None,
        }
    }

    /// The text that shows the selected key, and the empty text where
    /// nothing is selected.
    pub open spec fn describe_selected(self) -> Seq<char> {
        match self.cursor {
            Some(z) => self.parent.describe(z.selected),
            None => Seq::empty(),
        }
    }

    /// The child that the selected key stands for.
    pub open spec fn selected_child(self) -> Option<NodeView> {
        match self.cursor {
            Some(z) => self.parent.resolve(z.selected),
            None => None,
        }
    }

    /// The context with the selection moved one candidate on.
    pub open spec fn next(self) -> ContextView {
        match self.cursor {
            Some(z) => ContextView { cursor: Some(z.next()), ..self },
            None => self,
        }
    }

    /// The context with the selection moved one candidate back.
    pub open spec fn prev(self) -> ContextView {
        match self.cursor {
            Some(z) => ContextView { cursor: Some(z.prev()), ..self },
            None => self,
        }
    }
}

/// A context made from a node and a filter is well formed, and so is one
/// in which the selection has moved.
pub proof fn lemma_contexts_are_well_formed(parent: NodeView, filter: Seq<char>)
    ensures
        ContextView::filtered(parent, filter).wf(),
        ContextView::fresh(parent).wf(),
{
    if candidates(parent, filter).len() > 0 {
        lemma_at_first_items(candidates(parent, filter));
    }
    if candidates(parent, Seq::empty()).len() > 0 {
        lemma_at_first_items(candidates(parent, Seq::empty()));
    }
}

/// Moving the selection keeps a context well formed, and keeps its node
/// and its filter text.
pub proof fn lemma_moves_keep_context(c: ContextView)
    requires
        c.wf(),
    ensures
        c.next().wf(),
        c.prev().wf(),
        c.next().parent == c.parent && c.next().filter == c.filter,
        c.prev().parent == c.parent && c.prev().filter == c.filter,
{
    if let Some(z) = c.cursor {
        lemma_moves_keep_items(z);
    }
}

/// In a context, a step on followed by a step back restores the selection
/// and its place, and so does a step back followed by a step on, unless
/// the first of the two steps was held at an end from which the second
/// one leaves.
pub proof fn lemma_context_steps_undo(c: ContextView)
    ensures
        (c.cursor matches Some(z) ==> z.right.len() > 0 || z.left.len() == 0) ==> c.next().prev()
            == c,
        (c.cursor matches Some(z) ==> z.left.len() > 0 || z.right.len() == 0) ==> c.prev().next()
            == c,
{
    if let Some(z) = c.cursor {
        if z.right.len() > 0 || z.left.len() == 0 {
            lemma_next_then_prev(z);
        }
        if z.left.len() > 0 || z.right.len() == 0 {
            lemma_prev_then_next(z);
        }
    }
}

/// Moves the selection of a cursor, if there is one, one candidate back.
fn move_prev(choices: &mut Option<ReadOnlyZipper<Key>>)
    ensures
        choices_view(*final(choices)) == match choices_view(*old(choices)) {
            Some(z) => Some(z.prev()),
            None => None,
        },
{
    match choices {
        Some(zipper) => {
            proof {
                lemma_cursor_view(zipper@);
            }
            zipper.select_prev()
        },
        None => {},
    }
}

/// Moves the selection of a cursor, if there is one, one candidate on.
fn move_next(choices: &mut Option<ReadOnlyZipper<Key>>)
    ensures
        choices_view(*final(choices)) == match choices_view(*old(choices)) {
            Some(z) => Some(z.next()),
            None => None,
        },
{
    match choices {
        Some(zipper) => {
            proof {
                lemma_cursor_view(zipper@);
            }
            zipper.select_next()
        },
        None => {},
    }
}

/// The state of navigation at one node.
#[derive(Debug)]
pub struct SelectionMeta<'a> {
    /// The text supplied to select this value
    filter: String,
    /// Parent node
    parent: &'a Node,
    /// List of choices
    choices: Option<ReadOnlyZipper<Key>>,
}

impl<'a> View for SelectionMeta<'a> {
    type V = ContextView;

    closed spec fn view(&self) -> ContextView {
        ContextView {
            filter: self.filter@,
            parent: self.parent@,
            cursor: choices_view(self.choices),
        }
    }
}

impl<'a> SelectionMeta<'a> {
    #[verifier::type_invariant]
    spec fn well_formed(&self) -> bool {
        self@.wf()
    }

    /// The context in which navigation reaches `parent`: the filter text is
    /// empty, and the first child that can be offered is selected.
    pub fn new(parent: &'a Node) -> (context: SelectionMeta<'a>)
        ensures
            context@ == ContextView::fresh(parent@),
            context@.cursor.is_some() ==> context@.cursor.unwrap().items() == eligible_keys(parent@),
    {
        let filter = String::new();
        let choices = SelectionMeta::build_choices(parent, &filter);
        proof {
            lemma_contexts_are_well_formed(parent@, filter@);
        }
        SelectionMeta { parent, choices, filter }
    }

    /// Moves the context out of `self`, and leaves in its place a context
    /// over a leaf, where there is nothing to select.
    fn take(&mut self) -> (taken: SelectionMeta<'a>)
        ensures
            taken@ == old(self)@,
    {
        let filter = String::new();
        proof {
            lemma_leaf_has_no_candidates(NodeView::Null, filter@);
        }
        let mut taken = SelectionMeta { filter, parent: &Node::Null, choices: None };
        std::mem::swap(self, &mut taken);
        taken
    }

    /// The filter text.
    pub fn filter(&self) -> (filter: &String)
        ensures
            filter@ == self@.filter,
    {
        &self.filter
    }

    /// The node whose children are offered.
    pub fn parent(&self) -> (parent: &'a Node)
        ensures
            parent@ == self@.parent,
    {
        self.parent
    }

    /// The text that shows the selected key, and the empty text where
    /// nothing is selected.
    pub fn describe_selected_key(&self) -> (text: String)
        ensures
            text@ == self@.describe_selected(),
    {
        match &self.choices {
            Some(cs) => describe_node_key(self.parent, cs.selected()),
            None => String::new(),
        }
    }

    /// Whether the node of this context is a branch or a leaf.
    pub fn node_type(&self) -> (kind: NodeType)
        ensures
            kind == self@.parent.kind(),
    {
        self.parent.node_type()
    }

    /// The cursor over the candidates of `node` under `filter`, with the
    /// first candidate selected; `None` where there is no candidate.
    pub fn build_choices(node: &Node, filter: &String) -> (choices: Option<ReadOnlyZipper<Key>>)
        ensures
            choices_view(choices) == ZipperView::at_first(candidates(node@, filter@)),
            choices.is_some() == (candidates(node@, filter@).len() > 0),
            filter@.len() == 0 && choices.is_some() ==> cursor_view(choices.unwrap()@).items()
                == eligible_keys(node@),
    {
        let right = filter_candidates(node, filter.as_str());
        let choices = ReadOnlyZipper::at_first(right);
        proof {
            if choices.is_some() {
                assert(key_views(right@.drop_first()) =~= key_views(right@).drop_first());
                assert(key_views(Seq::<Key>::empty()) =~= Seq::<KeyView>::empty());
                lemma_at_first_items(candidates(node@, filter@));
            }
        }
        choices
    }

    /// The cursor in its three parts: the candidates before the selected
    /// one, the selected one, and those after it; `None` where there is no
    /// candidate.
    pub fn choices(&self) -> (choices: Option<(&VecDeque<Key>, &Key, &VecDeque<Key>)>)
        ensures
            self@.wf(),
            choices.is_some() == self@.cursor.is_some(),
            choices matches Some((left, selected, right)) ==> self@.cursor == Some(
                ZipperView {
                    left: key_views(left@),
                    selected: selected@,
                    right: key_views(right@),
                },
            ),
    {
        proof {
            use_type_invariant(self);
        }
        match &self.choices {
            Some(cs) => Some((cs.left(), cs.selected(), cs.right())),
            None => None,
        }
    }

    /// The selected key, if any.
    pub fn selected(&self) -> (key: Option<Key>)
        ensures
            self@.wf(),
            key.is_some() == self@.cursor.is_some(),
            key matches Some(k) ==> self@.selected() == Some(k@),
    {
        proof {
            use_type_invariant(self);
        }
        match &self.choices {
            Some(cs) => Some(cs.selected().clone()),
            None => None,
        }
    }

    /// Replaces the filter text and builds the cursor anew. The selection
    /// does not survive: the first candidate under the new text is selected.
    pub fn set_filter(&mut self, s: String)
        ensures
            final(self)@ == ContextView::filtered(old(self)@.parent, s@),
            s@.len() == 0 && final(self)@.cursor.is_some() ==> final(self)@.cursor.unwrap().items()
                == eligible_keys(old(self)@.parent),
    {
        let choices = SelectionMeta::build_choices(self.parent, &s);
        proof {
            lemma_contexts_are_well_formed(self.parent@, s@);
        }
        *self = SelectionMeta { filter: s, parent: self.parent, choices };
    }

    /// Moves the selection one candidate back. Nothing happens at the first
    /// candidate, nor where there is no candidate.
    pub fn select_prev(&mut self)
        ensures
            final(self)@ == old(self)@.prev(),
    {
        proof {
            use_type_invariant(&*self);
            lemma_moves_keep_context(self@);
        }
        let SelectionMeta { filter, parent, choices } = self.take();
        let mut choices = choices;
        move_prev(&mut choices);
        *self = SelectionMeta { filter, parent, choices };
    }

    /// Moves the selection one candidate on. Nothing happens at the last
    /// candidate, nor where there is no candidate.
    pub fn select_next(&mut self)
        ensures
            final(self)@ == old(self)@.next(),
    {
        proof {
            use_type_invariant(&*self);
            lemma_moves_keep_context(self@);
        }
        let SelectionMeta { filter, parent, choices } = self.take();
        let mut choices = choices;
        move_next(&mut choices);
        *self = SelectionMeta { filter, parent, choices };
    }
}

} // verus!
