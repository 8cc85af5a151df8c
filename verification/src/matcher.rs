//! Fuzzy matching of a candidate's text against the filter text.

use fuzzy_matcher::skim::SkimMatcherV2;
use fuzzy_matcher::FuzzyMatcher;
use vstd::prelude::*;

verus! {

/// Whether `pattern` holds a capital letter of ASCII. A pattern that
/// does is matched letter for letter; any other is matched without
/// regard to the case of ASCII letters.
pub open spec fn has_capital(pattern: Seq<char>) -> bool {
    exists|i: int| 0 <= i < pattern.len() && 'A' <= #[trigger] pattern[i] <= 'Z'
}

/// The code point of `c`, and of its small letter where `c` is a capital
/// letter of ASCII.
pub open spec fn ascii_lower(c: char) -> int {
    if 'A' <= c <= 'Z' {
        c as int + 32
    } else {
        c as int
    }
}

/// Whether the character `c` of a text matches the character `p` of a
/// pattern: they are the same, or, where the match is not `exact`, they
/// differ in the case of an ASCII letter only.
pub open spec fn same_char(c: char, p: char, exact: bool) -> bool {
    c == p || (!exact && ascii_lower(c) == ascii_lower(p))
}

/// Whether `places` shows `pattern` inside `text`: it names, for each
/// character of the pattern in turn, a place of the text that holds a
/// matching character, each place behind the one before.
pub open spec fn embeds(text: Seq<char>, pattern: Seq<char>, places: Seq<int>) -> bool {
    &&& places.len() == pattern.len()
    &&& forall|k: int|
        0 <= k < places.len() ==> 0 <= #[trigger] places[k] < text.len() && same_char(
            text[places[k]],
            pattern[k],
            has_capital(pattern),
        )
    &&& forall|k: int, l: int|
        0 <= k < l < places.len() ==> #[trigger] places[k] < #[trigger] places[l]
}

/// Whether `text` passes the filter `pattern`: the characters of the
/// pattern occur in the text, in their order, not necessarily side by
/// side.
pub open spec fn passes(text: Seq<char>, pattern: Seq<char>) -> bool {
    exists|places: Seq<int>| embeds(text, pattern, places)
}

/// The score that the skim matcher, as it is configured by default,
/// gives to `choice` for `pattern`, and `None` where it finds that the
/// pattern does not match.
pub uninterp spec fn skim_score(choice: Seq<char>, pattern: Seq<char>) -> Option<i64>;

/// Calls `fuzzy_match` of `fuzzy_matcher::skim::SkimMatcherV2` on a
/// matcher made by `SkimMatcherV2::default()` for this one call. A
/// matcher keeps its tables from one call to the next, and what an
/// earlier call left in them can change a later score; a new matcher has
/// nothing left in it.
///
/// Trusted: the result depends on the two texts alone and is given the
/// name [`skim_score`]; and the matcher gives a score if and only if the
/// characters of the pattern occur in the choice in their order, where
/// it compares without regard to the case of ASCII letters unless the
/// pattern holds an ASCII capital.
#[verifier::external_body]
pub(crate) fn fuzzy_score(choice: &str, pattern: &str) -> (score: Option<i64>)
    ensures
        score == skim_score(choice@, pattern@),
        score.is_some() == passes(choice@, pattern@),
{
    SkimMatcherV2::default().fuzzy_match(choice, pattern)
}

/// The empty pattern occurs in every text.
pub proof fn lemma_empty_pattern_passes(text: Seq<char>)
    ensures
        passes(text, Seq::empty()),
{
    assert(embeds(text, Seq::empty(), Seq::empty()));
}

/// A pattern occurs in itself, and a pattern that is longer than a text
/// does not occur in it.
pub proof fn lemma_passes_bounds(text: Seq<char>, pattern: Seq<char>)
    ensures
        passes(pattern, pattern),
        passes(text, pattern) ==> pattern.len() <= text.len(),
{
    assert(embeds(pattern, pattern, Seq::new(pattern.len(), |k: int| k)));
    if passes(text, pattern) {
        let places = choose|places: Seq<int>| embeds(text, pattern, places);
        lemma_rising_places(places, text.len() as int);
    }
}

/// Places that rise and lie below `bound` are at most `bound` many.
proof fn lemma_rising_places(places: Seq<int>, bound: int)
    requires
        0 <= bound,
        forall|k: int| 0 <= k < places.len() ==> 0 <= #[trigger] places[k] < bound,
        forall|k: int, l: int|
            0 <= k < l < places.len() ==> #[trigger] places[k] < #[trigger] places[l],
    ensures
        places.len() <= bound,
    decreases places.len(),
{
    if places.len() > 0 {
        let last = places[places.len() - 1];
        let shorter = places.drop_last();
        assert forall|k: int| 0 <= k < shorter.len() implies 0 <= #[trigger] shorter[k] < last by {
        }
        lemma_rising_places(shorter, last);
    }
}

} // verus!
