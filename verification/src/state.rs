//! The navigator: the context in focus and the way that led to it.

use crate::filter::{
    candidates, eligible_keys, is_candidate, kept_places, key_views, lemma_kept_places,
};
use crate::history::{
    all_selected, breadcrumb, joined, lemma_breadcrumb_push, selected_texts, History,
};
use crate::key::{Key, KeyView};
use crate::node::{describe_node_key, Node, NodeType, NodeView};
use crate::selection::{
    lemma_contexts_are_well_formed, lemma_moves_keep_context, ContextView, SelectionMeta,
};
use crate::zipper::lemma_moves_keep_items;
use std::collections::VecDeque;
use vstd::prelude::*;
use vstd::string::StringExecFns;

verus! {

/// The texts that show `keys` under `parent`.
pub open spec fn described(parent: NodeView, keys: Seq<KeyView>) -> Seq<Seq<char>> {
    keys.map_values(|key: KeyView| parent.describe(key))
}

/// The texts of a list of strings.
pub open spec fn texts(strings: Seq<String>) -> Seq<Seq<char>> {
    strings.map_values(|s: String| s@)
}

/// The mathematical value of a [`JsonAppState`].
pub struct NavigatorView {
    /// The root of the document, where navigation started.
    pub root: NodeView,
    /// The contexts left behind on the way down, the one at the root
    /// first.
    pub history: Seq<ContextView>,
    /// The context in focus.
    pub current: ContextView,
}

impl NavigatorView {
    /// Where navigation starts: at `root`, with nothing behind.
    pub open spec fn rooted(root: NodeView) -> NavigatorView {
        NavigatorView { root, history: Seq::empty(), current: ContextView::fresh(root) }
    }

    /// The number of descents that led to the context in focus.
    pub open spec fn depth(self) -> nat {
        self.history.len()
    }

    /// The history is the path from the root to the node in focus: the
    /// first frame stands at the root, the node of each later frame is the
    /// child that the selected key of the frame before it stands for, and
    /// the node in focus is that child of the last frame. With an empty
    /// history the node in focus is the root.
    pub open spec fn is_path(self) -> bool {
        let frames = self.history.push(self.current);
        &&& frames[0].parent == self.root
        &&& forall|i: int|
            0 <= i < self.history.len() ==> (#[trigger] frames[i]).selected_child() == Some(
                frames[i + 1].parent,
            )
    }

    /// Every context is well formed, every frame of the history has a
    /// selection, and the history is the path from the root to the node
    /// in focus.
    pub open spec fn wf(self) -> bool {
        &&& self.current.wf()
        &&& all_selected(self.history)
        &&& self.is_path()
    }

    /// The navigator with the filter text of the context in focus
    /// replaced, and the first candidate under the new text selected.
    pub open spec fn with_filter(self, filter: Seq<char>) -> NavigatorView {
        NavigatorView { current: ContextView::filtered(self.current.parent, filter), ..self }
    }

    /// The navigator with the selection moved one candidate on.
    pub open spec fn next(self) -> NavigatorView {
        NavigatorView { current: self.current.next(), ..self }
    }

    /// The navigator with the selection moved one candidate back.
    pub open spec fn prev(self) -> NavigatorView {
        NavigatorView { current: self.current.prev(), ..self }
    }

    /// The navigator after a descent into the selected child: the context
    /// in focus joins the history as it is, and a fresh context over the
    /// child takes its place. Without a selection nothing changes.
    pub open spec fn descend(self) -> NavigatorView {
        match self.current.selected_child() {
            Some(child) => NavigatorView {
                history: self.history.push(self.current),
                current: ContextView::fresh(child),
                ..self
            },
            None => self,
        }
    }

    /// The navigator after a step back: the last frame of the history
    /// takes the place of the context in focus, which is dropped. At the
    /// root nothing changes.
    pub open spec fn ascend(self) -> NavigatorView {
        if self.history.len() > 0 {
            NavigatorView {
                history: self.history.drop_last(),
                current: self.history.last(),
                ..self
            }
        } else {
            self
        }
    }

    /// What is shown of the candidates: the texts of those before the
    /// selected one, its own text, and the texts of those after it.
    pub open spec fn choices(self) -> Option<(Seq<Seq<char>>, Seq<char>, Seq<Seq<char>>)> {
        match self.current.cursor {
            Some(z) => Some(
                (
                    described(self.current.parent, z.left),
                    self.current.parent.describe(z.selected),
                    described(self.current.parent, z.right),
                ),
            ),
            None => None,
        }
    }

    /// The line that shows where navigation stands: the breadcrumb of the
    /// history, then the filter text, with a space between each two
    /// parts.
    pub open spec fn input_line(self) -> Seq<char> {
        joined(selected_texts(self.history).push(self.current.filter))
    }
}

/// The key of every child that can be offered stands for a child of the
/// node: for the child itself in an array, and in an object for the first
/// field of that name, which is the child itself where no name occurs
/// twice.
pub proof fn lemma_keys_of_children_resolve(node: NodeView, i: int)
    requires
        node.eligible(i),
    ensures
        node.resolve(node.key_at(i)).is_some(),
        node.place_of(node.key_at(i)).unwrap() <= i,
        node.key_at(node.place_of(node.key_at(i)).unwrap()) == node.key_at(i),
        node is Array || node.names().no_duplicates() ==> node.resolve(node.key_at(i)) == Some(
            node.child_at(i),
        ),
{
    if node is Object {
        let names = node.names();
        names.index_of_first_ensures(names[i]);
        let place = names.index_of_first(names[i]).unwrap();
        assert(names[place] == names[i]);
    }
}

/// In a well-formed context the selected key stands for a child of the
/// node: a descent through a selection cannot miss.
pub proof fn lemma_selection_resolves(c: ContextView)
    requires
        c.wf(),
        c.cursor.is_some(),
    ensures
        c.selected_child().is_some(),
{
    let z = c.cursor.unwrap();
    lemma_moves_keep_items(z);
    let places = kept_places(c.parent.child_count(), |i: int| is_candidate(c.parent, i, c.filter));
    lemma_kept_places(c.parent.child_count(), |i: int| is_candidate(c.parent, i, c.filter));
    let k = z.position() as int;
    lemma_keys_of_children_resolve(c.parent, places[k]);
}

/// The history stays the path to the node in focus when the context in
/// focus gives way to another context of the same node.
proof fn lemma_path_to_same_node(nav: NavigatorView, current: ContextView)
    requires
        nav.is_path(),
        current.parent == nav.current.parent,
    ensures
        (NavigatorView { current, ..nav }).is_path(),
{
    let before = nav.history.push(nav.current);
    let after = nav.history.push(current);
    assert forall|i: int| 0 <= i < nav.history.len() implies (#[trigger] after[i]).selected_child()
        == Some(after[i + 1].parent) by {
        assert(before[i].selected_child() == Some(before[i + 1].parent));
    }
}

/// Navigation starts well formed.
pub proof fn lemma_rooted_is_well_formed(root: NodeView)
    ensures
        NavigatorView::rooted(root).wf(),
{
    lemma_contexts_are_well_formed(root, Seq::empty());
}

/// A new filter text keeps the navigator well formed, and so does a move
/// of the selection.
pub proof fn lemma_edits_keep_well_formed(nav: NavigatorView, filter: Seq<char>)
    requires
        nav.wf(),
    ensures
        nav.with_filter(filter).wf(),
        nav.next().wf(),
        nav.prev().wf(),
{
    lemma_contexts_are_well_formed(nav.current.parent, filter);
    lemma_moves_keep_context(nav.current);
    lemma_path_to_same_node(nav, nav.with_filter(filter).current);
    lemma_path_to_same_node(nav, nav.next().current);
    lemma_path_to_same_node(nav, nav.prev().current);
}

/// A descent keeps the navigator well formed, and so does a step back.
pub proof fn lemma_steps_keep_well_formed(nav: NavigatorView)
    requires
        nav.wf(),
    ensures
        nav.descend().wf(),
        nav.ascend().wf(),
{
    if let Some(child) = nav.current.selected_child() {
        lemma_contexts_are_well_formed(child, Seq::empty());
        let down = nav.descend();
        let before = nav.history.push(nav.current);
        let after = down.history.push(down.current);
        assert forall|i: int| 0 <= i < down.history.len() implies (#[trigger] after[i]).selected_child()
            == Some(after[i + 1].parent) by {
            if i < nav.history.len() {
                assert(before[i].selected_child() == Some(before[i + 1].parent));
            }
        }
    }
    if nav.history.len() > 0 {
        let up = nav.ascend();
        let before = nav.history.push(nav.current);
        let after = up.history.push(up.current);
        assert forall|i: int| 0 <= i < up.history.len() implies (#[trigger] after[i]).selected_child()
            == Some(after[i + 1].parent) by {
            assert(before[i].selected_child() == Some(before[i + 1].parent));
        }
    }
}

/// A descent through a selection appends exactly one frame, the context
/// that was in focus, and brings a fresh context over the selected child
/// into focus. The step back then removes exactly that frame and puts it
/// in focus again: the navigator is as it was before the descent, filter
/// text and cursor included.
pub proof fn lemma_descend_then_ascend(nav: NavigatorView)
    requires
        nav.wf(),
        nav.current.cursor.is_some(),
    ensures
        nav.descend().depth() == nav.depth() + 1,
        nav.descend().history == nav.history.push(nav.current),
        nav.descend().current == ContextView::fresh(nav.current.selected_child().unwrap()),
        nav.descend().ascend() == nav,
{
    lemma_selection_resolves(nav.current);
    assert(nav.descend().history.drop_last() =~= nav.history);
}

/// A step back from below the root removes exactly one frame, the last,
/// and puts it in focus.
pub proof fn lemma_ascend_removes_one_frame(nav: NavigatorView)
    requires
        nav.depth() > 0,
    ensures
        nav.ascend().depth() == nav.depth() - 1,
        nav.ascend().current == nav.history.last(),
        nav.ascend().history == nav.history.drop_last(),
{
}

/// Without a selection a descent changes nothing, and at the root a step
/// back changes nothing.
pub proof fn lemma_steps_that_stay(nav: NavigatorView)
    ensures
        nav.current.cursor.is_none() ==> nav.descend() == nav,
        nav.depth() == 0 ==> nav.ascend() == nav,
{
}

/// After a descent from the root through a key shown as `k1`, and from
/// there, whatever was typed and however the selection was moved after
/// the first descent, through a key shown as `k2`, the breadcrumb reads
/// `k1`, a space, `k2`.
pub proof fn lemma_breadcrumb_after_two_descents(
    root: NavigatorView,
    below: NavigatorView,
    k1: Seq<char>,
    k2: Seq<char>,
)
    requires
        root.wf(),
        root.depth() == 0,
        root.current.cursor.is_some(),
        root.current.describe_selected() == k1,
        below.wf(),
        below.history == root.descend().history,
        below.current.cursor.is_some(),
        below.current.describe_selected() == k2,
    ensures
        breadcrumb(below.descend().history) == k1 + seq![' '] + k2,
{
    lemma_selection_resolves(root.current);
    lemma_selection_resolves(below.current);
    lemma_breadcrumb_push(root.history, root.current);
    lemma_breadcrumb_push(below.history, below.current);
}

/// AppState holds the state of the application
pub struct JsonAppState<'a> {
    /// The root of the document
    root: Ghost<NodeView>,
    /// Previously selected nodes
    history: History<'a>,
    /// Node currently being filtered
    current: SelectionMeta<'a>,
}

impl<'a> View for JsonAppState<'a> {
    type V = NavigatorView;

    closed spec fn view(&self) -> NavigatorView {
        NavigatorView { root: self.root@, history: self.history@, current: self.current@ }
    }
}

/// The texts that show the keys of `keys` under `parent`, in order.
fn describe_keys(parent: &Node, keys: &VecDeque<Key>) -> (shown: Vec<String>)
    ensures
        texts(shown@) == described(parent@, key_views(keys@)),
{
    let mut shown: Vec<String> = Vec::new();
    let mut index: usize = 0;
    while index < keys.len()
        invariant
            index <= keys.len(),
            texts(shown@) == described(parent@, key_views(keys@.take(index as int))),
        decreases keys.len() - index,
    {
        let text = describe_node_key(parent, &keys[index]);
        shown.push(text);
        proof {
            assert(described(parent@, key_views(keys@.take(index as int + 1))) =~= described(
                parent@,
                key_views(keys@.take(index as int)),
            ).push(parent@.describe(keys@[index as int]@)));
        }
        index += 1;
    }
    shown
}

impl<'a> JsonAppState<'a> {
    #[verifier::type_invariant]
    pub(crate) open spec fn well_formed(&self) -> bool {
        self@.wf()
    }

    /// The navigator at `root`, with an empty history.
    pub fn new(root: &'a Node) -> (state: JsonAppState<'a>)
        ensures
            state@ == NavigatorView::rooted(root@),
            state@.wf(),
    {
        proof {
            lemma_rooted_is_well_formed(root@);
        }
        JsonAppState {
            root: Ghost(root@),
            history: History::new(),
            current: SelectionMeta::new(root),
        }
    }

    /// Moves the state out of `self`, and leaves in its place a navigator
    /// at a leaf, where there is nothing to select.
    fn take(&mut self) -> (taken: JsonAppState<'a>)
        ensures
            taken@ == old(self)@,
            taken@.wf(),
    {
        proof {
            use_type_invariant(&*self);
        }
        let mut taken = JsonAppState::new(&Node::Null);
        std::mem::swap(self, &mut taken);
        taken
    }

    /// The filter text of the context in focus.
    pub fn get_filter(&self) -> (filter: &String)
        ensures
            filter@ == self@.current.filter,
            self@.wf(),
    {
        proof {
            use_type_invariant(self);
        }
        self.current.filter()
    }

    /// Replaces the filter text of the context in focus and builds its
    /// cursor anew, with the first candidate selected.
    pub fn set_filter(&mut self, f: String)
        ensures
            final(self)@ == old(self)@.with_filter(f@),
            final(self)@.wf(),
            f@.len() == 0 ==> candidates(final(self)@.current.parent, f@) == eligible_keys(
                final(self)@.current.parent,
            ),
    {
        let JsonAppState { root, history, current } = self.take();
        let mut current = current;
        current.set_filter(f);
        proof {
            lemma_edits_keep_well_formed(old(self)@, f@);
            if f@.len() == 0 {
                assert(f@ =~= Seq::empty());
                crate::filter::lemma_empty_filter_keeps_every_eligible_child(old(self)@.current.parent);
            }
        }
        *self = JsonAppState { root, history, current };
    }

    /// Moves the selection one candidate on, if there is one to move to.
    pub fn select_next(&mut self)
        ensures
            final(self)@ == old(self)@.next(),
            final(self)@.wf(),
    {
        let JsonAppState { root, history, current } = self.take();
        let mut current = current;
        current.select_next();
        proof {
            lemma_edits_keep_well_formed(old(self)@, Seq::empty());
        }
        *self = JsonAppState { root, history, current };
    }

    /// Moves the selection one candidate back, if there is one to move to.
    pub fn select_prev(&mut self)
        ensures
            final(self)@ == old(self)@.prev(),
            final(self)@.wf(),
    {
        let JsonAppState { root, history, current } = self.take();
        let mut current = current;
        current.select_prev();
        proof {
            lemma_edits_keep_well_formed(old(self)@, Seq::empty());
        }
        *self = JsonAppState { root, history, current };
    }

    /// What is shown of the candidates: the texts of those before the
    /// selected one, its own text, and the texts of those after it. `None`
    /// where there is no candidate.
    pub fn choices(&self) -> (shown: Option<(Vec<String>, String, Vec<String>)>)
        ensures
            shown.is_some() == self@.current.cursor.is_some(),
            shown matches Some((before, selected, after)) ==> self@.choices() == Some(
                (texts(before@), selected@, texts(after@)),
            ),
    {
        match self.current.choices() {
            Some((left, selected, right)) => Some(
                (
                    describe_keys(self.current.parent(), left),
                    describe_node_key(self.current.parent(), selected),
                    describe_keys(self.current.parent(), right),
                ),
            ),
            None => None,
        }
    }

    /// Descends into the selected child: the context in focus joins the
    /// history, and a fresh context over the child comes into focus. Without
    /// a selection nothing changes. The result tells whether the node now in
    /// focus is a branch, below which navigation can go on, or a leaf.
    pub fn push_selection(&mut self) -> (kind: NodeType)
        ensures
            final(self)@ == old(self)@.descend(),
            final(self)@.wf(),
            old(self)@.current.cursor.is_some() ==> final(self)@.history == old(self)@.history.push(
                old(self)@.current,
            ),
            old(self)@.current.cursor.is_none() ==> final(self)@ == old(self)@,
            kind == final(self)@.current.parent.kind(),
    {
        let JsonAppState { root, history, current } = self.take();
        let mut history = history;
        let mut current = current;
        proof {
            lemma_steps_keep_well_formed(old(self)@);
        }
        if let Some(key) = current.selected() {
            proof {
                lemma_selection_resolves(current@);
            }
            if let Some(child) = current.parent().get(&key) {
                let mut previous = SelectionMeta::new(child);
                std::mem::swap(&mut current, &mut previous);
                let _ = history.push(previous);
            }
        }
        let kind = current.node_type();
        *self = JsonAppState { root, history, current };
        kind
    }

    /// Steps back to the context that the last descent left, with its filter
    /// text and its selection as they were. At the root nothing changes.
    pub fn pop_selection(&mut self)
        ensures
            final(self)@ == old(self)@.ascend(),
            final(self)@.wf(),
    {
        let JsonAppState { root, history, current } = self.take();
        let mut history = history;
        let mut current = current;
        proof {
            lemma_steps_keep_well_formed(old(self)@);
        }
        if let Some(mut prev) = history.pop() {
            std::mem::swap(&mut prev, &mut current);
        }
        *self = JsonAppState { root, history, current };
    }

    /// The context in focus.
    pub fn current(&self) -> (current: &SelectionMeta<'a>)
        ensures
            current@ == self@.current,
    {
        &self.current
    }

    /// The contexts left behind on the way down.
    pub fn get_history(&self) -> (history: &History<'a>)
        ensures
            history@ == self@.history,
    {
        &self.history
    }

    /// The line that shows where navigation stands: the text of the
    /// selected key of every frame of the history, then the filter text,
    /// with one space between each two parts.
    pub fn input_line(&self) -> (line: String)
        ensures
            line@ == self@.input_line(),
    {
        let mut line = self.history.render();
        proof {
            reveal_strlit(" ");
            let parts = selected_texts(self@.history).push(self@.current.filter);
            assert(parts.drop_last() =~= selected_texts(self@.history));
        }
        if self.history.len() > 0 {
            line.append(" ");
        }
        line.append(self.current.filter().as_str());
        line
    }
}

} // verus!
