//! The way back: the contexts that navigation has descended through.

use crate::selection::{ContextView, SelectionMeta};
use vstd::prelude::*;
use vstd::string::StringExecFns;

verus! {

/// The texts of `parts`, with one space between each two neighbours.
pub open spec fn joined(parts: Seq<Seq<char>>) -> Seq<char>
    decreases parts.len(),
{
    if parts.len() == 0 {
        Seq::empty()
    } else if parts.len() == 1 {
        parts[0]
    } else {
        joined(parts.drop_last()) + seq![' '] + parts.last()
    }
}

/// The text that shows the selected key of each frame, from the root
/// down.
pub open spec fn selected_texts(frames: Seq<ContextView>) -> Seq<Seq<char>> {
    frames.map_values(|frame: ContextView| frame.describe_selected())
}

/// The breadcrumb of a stack of frames: the texts of their selected
/// keys, from the root down, with a space between each two.
pub open spec fn breadcrumb(frames: Seq<ContextView>) -> Seq<char> {
    joined(selected_texts(frames))
}

/// Every frame is well formed and has a selection.
pub open spec fn all_selected(frames: Seq<ContextView>) -> bool {
    forall|i: int|
        0 <= i < frames.len() ==> (#[trigger] frames[i]).wf() && frames[i].cursor.is_some()
}

/// The breadcrumb grows by one text with each frame: the first frame
/// gives its text alone, and each later one a space and its text.
pub proof fn lemma_breadcrumb_push(frames: Seq<ContextView>, frame: ContextView)
    ensures
        breadcrumb(frames.push(frame)) == if frames.len() == 0 {
            frame.describe_selected()
        } else {
            breadcrumb(frames) + seq![' '] + frame.describe_selected()
        },
        breadcrumb(Seq::empty()) == Seq::<char>::empty(),
{
    let longer = frames.push(frame);
    assert(selected_texts(longer).drop_last() =~= selected_texts(frames));
}

/// The contexts left behind on the way down, the one at the root first.
/// Each of them had a selection when it was left.
pub struct History<'a> {
    inner: Vec<SelectionMeta<'a>>,
}

impl<'a> View for History<'a> {
    type V = Seq<ContextView>;

    closed spec fn view(&self) -> Seq<ContextView> {
        self.inner@.map_values(|frame: SelectionMeta<'a>| frame@)
    }
}

impl<'a> History<'a> {
    #[verifier::type_invariant]
    spec fn well_formed(&self) -> bool {
        all_selected(self@)
    }

    /// The empty history.
    pub fn new() -> (history: History<'a>)
        ensures
            history@ == Seq::<ContextView>::empty(),
    {
        let history = History { inner: Vec::new() };
        history
    }

    /// Moves the frames out of `self` and leaves it empty.
    fn take(&mut self) -> (inner: Vec<SelectionMeta<'a>>)
        ensures
            inner@.map_values(|frame: SelectionMeta<'a>| frame@) == old(self)@,
            all_selected(old(self)@),
            final(self)@ == Seq::<ContextView>::empty(),
    {
        proof {
            use_type_invariant(&*self);
        }
        let mut taken = History::new();
        std::mem::swap(self, &mut taken);
        taken.inner
    }

    /// The number of frames.
    pub fn len(&self) -> (count: usize)
        ensures
            count == self@.len(),
            all_selected(self@),
    {
        proof {
            use_type_invariant(self);
        }
        self.inner.len()
    }

    /// Appends `m` if it has a selection, and refuses it otherwise.
    pub fn push(&mut self, m: SelectionMeta<'a>) -> (pushed: Result<(), ()>)
        ensures
            pushed.is_ok() == m@.cursor.is_some(),
            final(self)@ == if m@.cursor.is_some() {
                old(self)@.push(m@)
            } else {
                old(self)@
            },
    {
        match m.selected() {
            Some(_) => {
                let mut inner = self.take();
                inner.push(m);
                proof {
                    let frames = inner@.map_values(|frame: SelectionMeta<'a>| frame@);
                    assert(frames =~= old(self)@.push(m@));
                }
                *self = History { inner };
                Ok(())
            },
            None => { Err(()) },
        }
    }

    /// Removes the frame that was pushed last and returns it.
    pub fn pop(&mut self) -> (popped: Option<SelectionMeta<'a>>)
        ensures
            popped.is_some() == (old(self)@.len() > 0),
            popped matches Some(frame) ==> frame@ == old(self)@.last() && frame@.cursor.is_some(),
            final(self)@ == if old(self)@.len() > 0 {
                old(self)@.drop_last()
            } else {
                old(self)@
            },
    {
        let mut inner = self.take();
        let popped = inner.pop();
        proof {
            let frames = inner@.map_values(|frame: SelectionMeta<'a>| frame@);
            if old(self)@.len() > 0 {
                assert(frames =~= old(self)@.drop_last());
            }
        }
        *self = History { inner };
        popped
    }

    /// The breadcrumb: the text of the selected key of every frame, from
    /// the root down, with one space between each two.
    pub fn render(&self) -> (text: String)
        ensures
            text@ == breadcrumb(self@),
    {
        let mut text = String::new();
        let mut index: usize = 0;
        while index < self.inner.len()
            invariant
                index <= self.inner.len(),
                text@ == breadcrumb(self@.take(index as int)),
            decreases self.inner.len() - index,
        {
            proof {
                reveal_strlit(" ");
                let upto = self@.take(index as int + 1);
                assert(upto.drop_last() =~= self@.take(index as int));
                assert(selected_texts(upto).drop_last() =~= selected_texts(upto.drop_last()));
            }
            if index > 0 {
                text.append(" ");
            }
            let part = self.inner[index].describe_selected_key();
            text.append(part.as_str());
            index += 1;
        }
        proof {
            assert(self@.take(index as int) =~= self@);
        }
        text
    }

    /// The text of the selected key of every frame, from the root down.
    pub fn iter(&self) -> (texts: Vec<String>)
        ensures
            texts@.map_values(|text: String| text@) == selected_texts(self@),
    {
        let mut texts: Vec<String> = Vec::new();
        let mut index: usize = 0;
        while index < self.inner.len()
            invariant
                index <= self.inner.len(),
                texts@.map_values(|text: String| text@) == selected_texts(self@.take(index as int)),
            decreases self.inner.len() - index,
        {
            let ghost before = texts@;
            let part = self.inner[index].describe_selected_key();
            texts.push(part);
            proof {
                assert(self@.take(index as int + 1) =~= self@.take(index as int).push(
                    self@[index as int],
                ));
                assert(texts@.map_values(|text: String| text@) =~= before.map_values(
                    |text: String| text@,
                ).push(part@));
            }
            index += 1;
        }
        texts
    }
}

} // verus!
