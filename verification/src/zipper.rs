//! A cursor over a non-empty list: the items before the selected one,
//! the selected item, and the items after it.

use std::collections::VecDeque;
use vstd::prelude::*;

verus! {

/// The mathematical value of a [`ReadOnlyZipper`]: a non-empty list cut
/// in three. The list itself is `left`, then `selected`, then `right`.
pub struct ZipperView<T> {
    pub left: Seq<T>,
    pub selected: T,
    pub right: Seq<T>,
}

impl<T> ZipperView<T> {
    /// The whole list, in order.
    pub open spec fn items(self) -> Seq<T> {
        self.left.push(self.selected) + self.right
    }

    /// The place of the selected item in the whole list.
    pub open spec fn position(self) -> nat {
        self.left.len()
    }

    /// The cursor that selects the first item of `items`; there is none
    /// over an empty list.
    pub open spec fn at_first(items: Seq<T>) -> Option<ZipperView<T>> {
        if items.len() == 0 {
            None
        } else {
            Some(ZipperView { left: Seq::empty(), selected: items[0], right: items.drop_first() })
        }
    }

    /// The cursor moved one item towards the end. At the last item it
    /// stays where it is.
    pub open spec fn next(self) -> ZipperView<T> {
        if self.right.len() == 0 {
            self
        } else {
            ZipperView {
                left: self.left.push(self.selected),
                selected: self.right[0],
                right: self.right.drop_first(),
            }
        }
    }

    /// The cursor moved one item towards the start. At the first item it
    /// stays where it is.
    pub open spec fn prev(self) -> ZipperView<T> {
        if self.left.len() == 0 {
            self
        } else {
            ZipperView {
                left: self.left.drop_last(),
                selected: self.left.last(),
                right: seq![self.selected] + self.right,
            }
        }
    }
}

/// A selection among the items of a non-empty list. The list cannot be
/// changed through the zipper; only the selection moves.
#[derive(Debug, Clone)]
pub struct ReadOnlyZipper<T> {
    /// Jokers to the left
    left: VecDeque<T>,
    /// Selected item. Can be one of many filtered items.
    selected: T,
    /// Clowns to the right
    right: VecDeque<T>,
}

impl<T> View for ReadOnlyZipper<T> {
    type V = ZipperView<T>;

    closed spec fn view(&self) -> ZipperView<T> {
        ZipperView { left: self.left@, selected: self.selected, right: self.right@ }
    }
}

impl<T> ReadOnlyZipper<T> {
    /// The zipper of the given three parts.
    pub fn new(left: VecDeque<T>, selected: T, right: VecDeque<T>) -> (zipper: ReadOnlyZipper<T>)
        ensures
            zipper@ == (ZipperView { left: left@, selected: selected, right: right@ }),
    {
        ReadOnlyZipper { left, selected, right }
    }

    /// The zipper over `items` that selects their first, or `None` where
    /// there is no item to select.
    pub fn at_first(items: VecDeque<T>) -> (zipper: Option<ReadOnlyZipper<T>>)
        ensures
            zipper.is_some() == (items@.len() > 0),
            match zipper {
                Some(z) => Some(z@) == ZipperView::at_first(items@),
                None => ZipperView::at_first(items@).is_none(),
            },
    {
        let mut right = items;
        match right.pop_front() {
            Some(first) => Some(ReadOnlyZipper::new(VecDeque::new(), first, right)),
            None => None,
        }
    }

    /// The items after the selected one, in order.
    pub fn right(&self) -> (right: &VecDeque<T>)
        ensures
            right@ == self@.right,
    {
        &self.right
    }

    /// The items before the selected one, in order.
    pub fn left(&self) -> (left: &VecDeque<T>)
        ensures
            left@ == self@.left,
    {
        &self.left
    }

    /// The selected item.
    pub fn selected(&self) -> (selected: &T)
        ensures
            *selected == self@.selected,
    {
        &self.selected
    }

    /// Selects the item before the selected one. Nothing happens at the
    /// first item.
    pub fn select_prev(&mut self)
        ensures
            final(self)@ == old(self)@.prev(),
    {
        if let Some(from_left) = self.left.pop_back() {
            let mut moved = from_left;
            std::mem::swap(&mut self.selected, &mut moved);
            self.right.push_front(moved);
        }
    }

    /// Selects the item after the selected one. Nothing happens at the last
    /// item.
    pub fn select_next(&mut self)
        ensures
            final(self)@ == old(self)@.next(),
    {
        if let Some(from_right) = self.right.pop_front() {
            let mut moved = from_right;
            std::mem::swap(&mut self.selected, &mut moved);
            self.left.push_back(moved);
        }
    }
}

/// Moving the selection never changes the list, and moves the place of
/// the selection by one item, or not at all at either end.
pub proof fn lemma_moves_keep_items<T>(z: ZipperView<T>)
    ensures
        z.next().items() == z.items(),
        z.prev().items() == z.items(),
        z.next().position() == if z.right.len() == 0 { z.position() } else { z.position() + 1 },
        z.prev().position() == if z.left.len() == 0 { z.position() } else { (z.position() - 1) as nat },
        z.items()[z.position() as int] == z.selected,
        z.items().len() > 0,
{
}

/// A step towards the end followed by a step towards the start brings
/// the zipper back to where it was: the same selection at the same
/// place. This needs the first step to have moved, or the second to
/// have nowhere to go: from the last of several items the first step
/// stays and the second one leaves.
pub proof fn lemma_next_then_prev<T>(z: ZipperView<T>)
    requires
        z.right.len() > 0 || z.left.len() == 0,
    ensures
        z.next().prev() == z,
{
    if z.right.len() > 0 {
        let n = z.next();
        assert(n.left.drop_last() =~= z.left);
        assert(seq![n.selected] + n.right =~= z.right);
    }
}

/// A step towards the start followed by a step towards the end brings
/// the zipper back to where it was, unless the first step was held at
/// the first of several items.
pub proof fn lemma_prev_then_next<T>(z: ZipperView<T>)
    requires
        z.left.len() > 0 || z.right.len() == 0,
    ensures
        z.prev().next() == z,
{
    if z.left.len() > 0 {
        let p = z.prev();
        assert(p.left.push(p.selected) =~= z.left);
        assert(p.right.drop_first() =~= z.right);
    }
}

/// At the last item a step towards the end changes nothing, and at the
/// first item a step towards the start changes nothing: the selection
/// never wraps around.
pub proof fn lemma_moves_stop_at_ends<T>(z: ZipperView<T>)
    ensures
        z.right.len() == 0 ==> z.next() == z,
        z.left.len() == 0 ==> z.prev() == z,
{
}

/// The zipper made from a list holds that list, and selects its first
/// item.
pub proof fn lemma_at_first_items<T>(items: Seq<T>)
    requires
        items.len() > 0,
    ensures
        ZipperView::at_first(items).is_some(),
        ZipperView::at_first(items).unwrap().items() == items,
        ZipperView::at_first(items).unwrap().position() == 0,
        ZipperView::at_first(items).unwrap().selected == items[0],
{
}

} // verus!
