//! The candidate filter: which children of a node a filter text keeps.

use crate::key::{Key, KeyView};
use crate::matcher::{fuzzy_score, lemma_empty_pattern_passes, passes, skim_score};
use crate::node::{Node, NodeView};
use std::collections::VecDeque;
use vstd::prelude::*;

verus! {

/// The values of a list of keys.
pub open spec fn key_views(keys: Seq<Key>) -> Seq<KeyView> {
    keys.map_values(|k: Key| k@)
}

/// Of the places `0 .. count`, those that `keep` holds of, in rising
/// order.
pub open spec fn kept_places(count: nat, keep: spec_fn(int) -> bool) -> Seq<int> {
    Seq::new(count, |i: int| i).filter(keep)
}

/// The keys of the first `count` children of `node` whose place `keep`
/// holds of, in native order.
pub open spec fn keys_among(node: NodeView, count: nat, keep: spec_fn(int) -> bool) -> Seq<KeyView> {
    kept_places(count, keep).map_values(|i: int| node.key_at(i))
}

/// The keys of the children of `node` whose place `keep` holds of, in
/// native order.
pub open spec fn keys_kept(node: NodeView, keep: spec_fn(int) -> bool) -> Seq<KeyView> {
    keys_among(node, node.child_count(), keep)
}

/// What the matcher says of each child of `node`: for a child that can
/// be offered, the score of its text; for any other, nothing.
pub open spec fn score_at(node: NodeView, i: int, filter: Seq<char>) -> Option<i64> {
    if node.eligible(i) {
        skim_score(node.text_at(i), filter)
    } else {
        None
    }
}

/// Whether the child of `node` at place `i` is a candidate under
/// `filter`: it can be offered, and its text passes the filter.
pub open spec fn is_candidate(node: NodeView, i: int, filter: Seq<char>) -> bool {
    node.eligible(i) && passes(node.text_at(i), filter)
}

/// The candidates of `node` under `filter`: the keys of the children
/// that can be offered and whose text passes the filter, in native
/// order.
pub open spec fn candidates(node: NodeView, filter: Seq<char>) -> Seq<KeyView> {
    keys_kept(node, |i: int| is_candidate(node, i, filter))
}

/// The keys of all the children of `node` that can be offered, in native
/// order.
pub open spec fn eligible_keys(node: NodeView) -> Seq<KeyView> {
    keys_kept(node, |i: int| node.eligible(i))
}

/// Whether the child at place `i` has a score in `scores` and can be
/// offered.
pub open spec fn has_score(node: NodeView, scores: Seq<Option<i64>>, i: int) -> bool {
    node.eligible(i) && i < scores.len() && scores[i].is_some()
}

/// One more place is one more decision: the kept places among
/// `0 .. count + 1` are those among `0 .. count`, and `count` after them
/// if `keep` holds of it.
pub proof fn lemma_kept_places_step(count: nat, keep: spec_fn(int) -> bool)
    ensures
        kept_places(count + 1, keep) == if keep(count as int) {
            kept_places(count, keep).push(count as int)
        } else {
            kept_places(count, keep)
        },
        kept_places(0, keep) == Seq::<int>::empty(),
{
    reveal(Seq::filter);
    let longer = Seq::new(count + 1, |i: int| i);
    assert(longer.drop_last() =~= Seq::new(count, |i: int| i));
}

/// The kept places are exactly the places in range that `keep` holds of,
/// each once and in rising order.
pub proof fn lemma_kept_places(count: nat, keep: spec_fn(int) -> bool)
    ensures
        forall|k: int|
            0 <= k < kept_places(count, keep).len() ==> {
                &&& 0 <= #[trigger] kept_places(count, keep)[k] < count
                &&& keep(kept_places(count, keep)[k])
            },
        forall|k: int, l: int|
            0 <= k < l < kept_places(count, keep).len() ==> #[trigger] kept_places(count, keep)[k]
                < #[trigger] kept_places(count, keep)[l],
        forall|i: int| 0 <= i < count && keep(i) ==> #[trigger] kept_places(count, keep).contains(i),
        kept_places(count, keep).len() <= count,
    decreases count,
{
    if count > 0 {
        let shorter = kept_places((count - 1) as nat, keep);
        let places = kept_places(count, keep);
        lemma_kept_places((count - 1) as nat, keep);
        lemma_kept_places_step((count - 1) as nat, keep);
        assert forall|i: int| 0 <= i < count && keep(i) implies #[trigger] places.contains(i) by {
            if i < count - 1 {
                assert(shorter.contains(i));
                let k = choose|k: int| 0 <= k < shorter.len() && shorter[k] == i;
                assert(places[k] == i);
            } else {
                assert(places[places.len() - 1] == i);
            }
        }
    } else {
        lemma_kept_places_step(0, keep);
    }
}

/// Two ways of deciding that agree on every place in range keep the same
/// places.
pub proof fn lemma_kept_places_agree(count: nat, keep: spec_fn(int) -> bool, other: spec_fn(int) -> bool)
    requires
        forall|i: int| 0 <= i < count ==> #[trigger] keep(i) == other(i),
    ensures
        kept_places(count, keep) == kept_places(count, other),
    decreases count,
{
    if count > 0 {
        lemma_kept_places_agree((count - 1) as nat, keep, other);
        lemma_kept_places_step((count - 1) as nat, keep);
        lemma_kept_places_step((count - 1) as nat, other);
    } else {
        lemma_kept_places_step(0, keep);
        lemma_kept_places_step(0, other);
    }
}

/// The candidates of a node are its children that can be offered and
/// whose text passes the filter: each candidate is the key of such a
/// child, every such child is among the candidates, and the candidates
/// stand in the order of their children.
pub proof fn lemma_candidates_are_the_matching_children(node: NodeView, filter: Seq<char>)
    ensures
        ({
            let places = kept_places(node.child_count(), |i: int| is_candidate(node, i, filter));
            &&& candidates(node, filter).len() == places.len()
            &&& forall|k: int|
                0 <= k < places.len() ==> {
                    &&& is_candidate(node, #[trigger] places[k], filter)
                    &&& candidates(node, filter)[k] == node.key_at(places[k])
                }
            &&& forall|k: int, l: int|
                0 <= k < l < places.len() ==> #[trigger] places[k] < #[trigger] places[l]
            &&& forall|i: int| is_candidate(node, i, filter) ==> #[trigger] places.contains(i)
        }),
{
    lemma_kept_places(node.child_count(), |i: int| is_candidate(node, i, filter));
}

/// Under the empty filter every child that can be offered is a
/// candidate: the candidates are all of them, in native order.
pub proof fn lemma_empty_filter_keeps_every_eligible_child(node: NodeView)
    ensures
        candidates(node, Seq::empty()) == eligible_keys(node),
{
    assert forall|i: int| 0 <= i < node.child_count() implies is_candidate(node, i, Seq::empty())
        == node.eligible(i) by {
        lemma_empty_pattern_passes(node.text_at(i));
    }
    lemma_kept_places_agree(
        node.child_count(),
        |i: int| is_candidate(node, i, Seq::empty()),
        |i: int| node.eligible(i),
    );
}

/// A leaf has no children, and so no candidates under any filter.
pub proof fn lemma_leaf_has_no_candidates(node: NodeView, filter: Seq<char>)
    requires
        !node.is_branch(),
    ensures
        candidates(node, filter).len() == 0,
{
    lemma_kept_places(0, |i: int| is_candidate(node, i, filter));
}

/// Asks the matcher about every child of `node`: the result holds, at
/// the place of each child, the score of that child's text under
/// `filter`, and nothing for a child that cannot be offered.
pub fn candidate_scores(node: &Node, filter: &str) -> (scores: Vec<Option<i64>>)
    ensures
        scores@.len() == node@.child_count(),
        forall|i: int| 0 <= i < scores@.len() ==> scores@[i] == score_at(node@, i, filter@),
        forall|i: int|
            0 <= i < scores@.len() ==> has_score(node@, scores@, i) == is_candidate(
                node@,
                i,
                filter@,
            ),
{
    let count = node.len();
    let mut scores: Vec<Option<i64>> = Vec::new();
    let mut index: usize = 0;
    while index < count
        invariant
            index <= count,
            count == node@.child_count(),
            scores@.len() == index,
            forall|i: int| 0 <= i < index ==> scores@[i] == score_at(node@, i, filter@),
            forall|i: int|
                0 <= i < index ==> (node@.eligible(i) && scores@[i].is_some()) == is_candidate(
                    node@,
                    i,
                    filter@,
                ),
        decreases count - index,
    {
        let score = match node.candidate_text(index) {
            Some(text) => fuzzy_score(text, filter),
            None => None,
        };
        scores.push(score);
        index += 1;
    }
    scores
}

/// The keys of the children of `node` that can be offered and have a
/// score in `scores`, in native order. A child without an entry in
/// `scores` has no score.
pub fn keys_with_score(node: &Node, scores: &Vec<Option<i64>>) -> (keys: VecDeque<Key>)
    ensures
        key_views(keys@) == keys_kept(node@, |i: int| has_score(node@, scores@, i)),
{
    let count = node.len();
    let mut keys: VecDeque<Key> = VecDeque::new();
    let mut index: usize = 0;
    let ghost keep = |i: int| has_score(node@, scores@, i);
    proof {
        lemma_kept_places_step(0, keep);
    }
    while index < count
        invariant
            index <= count,
            count == node@.child_count(),
            keep == |i: int| has_score(node@, scores@, i),
            key_views(keys@) == keys_among(node@, index as nat, keep),
        decreases count - index,
    {
        proof {
            lemma_kept_places_step(index as nat, keep);
        }
        if index < scores.len() && scores[index].is_some() {
            if node.candidate_text(index).is_some() {
                match node.key(index) {
                    Some(key) => {
                        keys.push_back(key);
                        proof {
                            assert(keys_among(node@, (index + 1) as nat, keep) =~= keys_among(
                                node@,
                                index as nat,
                                keep,
                            ).push(node@.key_at(index as int)));
                        }
                    },
                    None => {},
                }
            }
        }
        index += 1;
    }
    keys
}

/// The candidates of `node` under `filter`, in native order.
pub fn filter_candidates(node: &Node, filter: &str) -> (keys: VecDeque<Key>)
    ensures
        key_views(keys@) == candidates(node@, filter@),
        filter@.len() == 0 ==> key_views(keys@) == eligible_keys(node@),
{
    let scores = candidate_scores(node, filter);
    let keys = keys_with_score(node, &scores);
    proof {
        lemma_kept_places_agree(
            node@.child_count(),
            |i: int| has_score(node@, scores@, i),
            |i: int| is_candidate(node@, i, filter@),
        );
        if filter@.len() == 0 {
            assert(filter@ =~= Seq::empty());
            lemma_empty_filter_keeps_every_eligible_child(node@);
        }
    }
    keys
}

} // verus!
