//! One step of a session: what a keystroke does to the navigator, and
//! whether the session goes on after it.

use crate::edit::{delete_last_word, without_last_word};
use crate::history::breadcrumb;
use crate::node::NodeType;
use crate::state::{JsonAppState, NavigatorView};
use vstd::prelude::*;

verus! {

/// What the user asks for with one keystroke.
#[derive(Debug, Clone, Copy, PartialEq, Eq)]
pub enum Intent {
    /// Leave without a result.
    Quit,
    /// Descend into the selected child.
    Confirm,
    /// Empty the filter text.
    ClearFilter,
    /// Select the next candidate.
    SelectNext,
    /// Select the candidate before.
    SelectPrev,
    /// Delete the last word of the filter text, or step back where the
    /// filter text is empty.
    DeleteWord,
    /// Append a character to the filter text.
    Insert(char),
    /// Delete the last character of the filter text, or step back where
    /// the filter text is empty.
    Backspace,
    /// Nothing that the navigator knows of.
    Ignore,
}

/// How a session stands after a step.
#[derive(Debug)]
pub enum Outcome {
    /// The session goes on.
    Continue,
    /// The user has left; there is no result.
    Quit,
    /// Navigation has reached a leaf. The result is the path to it: the
    /// breadcrumb of the history, which ends with the key of the leaf.
    Chosen(String),
}

/// The mathematical value of an [`Outcome`].
pub enum OutcomeView {
    Continue,
    Quit,
    Chosen(Seq<char>),
}

impl View for Outcome {
    type V = OutcomeView;

    open spec fn view(&self) -> OutcomeView {
        match self {
            Outcome::Continue => OutcomeView::Continue,
            Outcome::Quit => OutcomeView::Quit,
            Outcome::Chosen(path) => OutcomeView::Chosen(path@),
        }
    }
}

impl NavigatorView {
    /// The navigator after it has served `intent`.
    pub open spec fn after(self, intent: Intent) -> NavigatorView {
        match intent {
            Intent::Quit => self,
            Intent::Confirm => self.descend(),
            Intent::ClearFilter => self.with_filter(Seq::empty()),
            Intent::SelectNext => self.next(),
            Intent::SelectPrev => self.prev(),
            Intent::DeleteWord => if self.current.filter.len() == 0 {
                self.ascend()
            } else {
                self.with_filter(without_last_word(self.current.filter))
            },
            Intent::Insert(c) => self.with_filter(self.current.filter.push(c)),
            Intent::Backspace => if self.current.filter.len() == 0 {
                self.ascend()
            } else {
                self.with_filter(self.current.filter.drop_last())
            },
            Intent::Ignore => self,
        }
    }

    /// How the session stands once the navigator has served `intent`: it
    /// ends without a result when the user leaves, it ends with the
    /// breadcrumb when a confirmation leaves a leaf in focus, and it goes
    /// on after anything else.
    pub open spec fn outcome(self, intent: Intent) -> OutcomeView {
        match intent {
            Intent::Quit => OutcomeView::Quit,
            Intent::Confirm => if self.descend().current.parent.kind() == NodeType::Leaf {
                OutcomeView::Chosen(breadcrumb(self.descend().history))
            } else {
                OutcomeView::Continue
            },
            _ => OutcomeView::Continue,
        }
    }
}

/// Serves one intent: changes `state` as the intent asks and says
/// whether the session goes on.
pub fn step(state: &mut JsonAppState, intent: Intent) -> (outcome: Outcome)
    ensures
        final(state)@ == old(state)@.after(intent),
        final(state)@.wf(),
        outcome@ == old(state)@.outcome(intent),
{
    proof {
        use_type_invariant(&*state);
    }
    match intent {
        Intent::Quit => Outcome::Quit,
        Intent::Confirm => {
            let kind = state.push_selection();
            match kind {
                NodeType::Leaf => Outcome::Chosen(state.get_history().render()),
                NodeType::Branch => Outcome::Continue,
            }
        },
        Intent::ClearFilter => {
            let empty = String::new();
            state.set_filter(empty);
            Outcome::Continue
        },
        Intent::SelectNext => {
            state.select_next();
            Outcome::Continue
        },
        Intent::SelectPrev => {
            state.select_prev();
            Outcome::Continue
        },
        Intent::DeleteWord => {
            if state.get_filter().as_str().is_empty() {
                state.pop_selection();
            } else {
                let filter = delete_last_word(state.get_filter().as_str());
                state.set_filter(filter);
            }
            Outcome::Continue
        },
        Intent::Insert(c) => {
            let mut filter = state.get_filter().clone();
            filter.push(c);
            state.set_filter(filter);
            Outcome::Continue
        },
        Intent::Backspace => {
            if state.get_filter().as_str().is_empty() {
                state.pop_selection();
            } else {
                let mut filter = state.get_filter().clone();
                let _ = filter.pop();
                state.set_filter(filter);
            }
            Outcome::Continue
        },
        Intent::Ignore => Outcome::Continue,
    }
}

} // verus!
