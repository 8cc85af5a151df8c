//! Keys: the names by which a branch node knows its children.

use vstd::prelude::*;
use vstd::std_specs::cmp::PartialEqSpecImpl;
use vstd::std_specs::convert::FromSpecImpl;

verus! {

/// Identifies one child of a branch node: a field of an object by its
/// name, or an element of an array by its position.
///
/// A key has a meaning only under the parent it was taken from.
#[derive(Debug)]
pub enum Key {
    MapKey(String),
    ArrayIndex(usize),
}

/// The mathematical value of a [`Key`].
pub enum KeyView {
    MapKey(Seq<char>),
    ArrayIndex(nat),
}

impl View for Key {
    type V = KeyView;

    open spec fn view(&self) -> KeyView {
        match self {
            Key::MapKey(name) => KeyView::MapKey(name@),
            Key::ArrayIndex(index) => KeyView::ArrayIndex(*index as nat),
        }
    }
}

impl Clone for Key {
    /// A copy of the key.
    fn clone(&self) -> (copy: Key)
        ensures
            copy == *self,
    {
        match self {
            Key::MapKey(name) => Key::MapKey(name.clone()),
            Key::ArrayIndex(index) => Key::ArrayIndex(*index),
        }
    }
}

impl PartialEq for Key {
    fn eq(&self, other: &Key) -> (equal: bool) {
        match self {
            Key::MapKey(a) => match other {
                Key::MapKey(b) => *a == *b,
                Key::ArrayIndex(_) => false,
            },
            Key::ArrayIndex(i) => match other {
                Key::MapKey(_) => false,
                Key::ArrayIndex(j) => *i == *j,
            },
        }
    }
}

impl PartialEqSpecImpl for Key {
    open spec fn obeys_eq_spec() -> bool {
        true
    }

    open spec fn eq_spec(&self, other: &Key) -> bool {
        self@ == other@
    }
}

impl From<&String> for Key {
    fn from(name: &String) -> (key: Key) {
        Key::MapKey(name.clone())
    }
}

impl FromSpecImpl<&String> for Key {
    open spec fn obeys_from_spec() -> bool {
        true
    }

    open spec fn from_spec(name: &String) -> Key {
        Key::MapKey(*name)
    }
}

impl From<usize> for Key {
    fn from(index: usize) -> (key: Key) {
        Key::ArrayIndex(index)
    }
}

impl FromSpecImpl<usize> for Key {
    open spec fn obeys_from_spec() -> bool {
        true
    }

    open spec fn from_spec(index: usize) -> Key {
        Key::ArrayIndex(index)
    }
}

} // verus!
