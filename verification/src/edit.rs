//! Editing of the filter text, one keystroke at a time.

use vstd::prelude::*;

verus! {

broadcast use vstd::string::group_string_axioms;

/// Whether `c` is white space, as `char::is_whitespace` of the standard
/// library tells it.
pub uninterp spec fn is_whitespace(c: char) -> bool;

/// `char::is_whitespace` of the standard library. Trusted: the answer
/// depends on the character alone, and is given the name
/// [`is_whitespace`].
pub assume_specification[ char::is_whitespace ](c: char) -> (white: bool)
    ensures
        white == is_whitespace(c),
;

/// `String::push` of the standard library. Trusted: it appends the
/// character to the end of the string.
pub assume_specification[ std::string::String::push ](text: &mut std::string::String, c: char)
    ensures
        final(text)@ == old(text)@.push(c),
;

/// `String::pop` of the standard library. Trusted: it removes the last
/// character and returns it, and returns `None` and leaves the string as
/// it is where the string is empty.
pub assume_specification[ std::string::String::pop ](text: &mut std::string::String) -> (last:
    Option<char>)
    ensures
        match last {
            Some(c) => old(text)@.len() > 0 && c == old(text)@.last() && final(text)@ == old(
                text,
            )@.drop_last(),
            None => old(text)@.len() == 0 && final(text)@ == old(text)@,
        },
;

/// The length of `text` without the white space at its end.
pub open spec fn trimmed_len(text: Seq<char>) -> nat
    decreases text.len(),
{
    if text.len() > 0 && is_whitespace(text.last()) {
        trimmed_len(text.drop_last())
    } else {
        text.len()
    }
}

/// The length of the longest start of `text` that ends in a space, and
/// zero where `text` holds no space.
pub open spec fn through_last_space(text: Seq<char>) -> nat
    decreases text.len(),
{
    if text.len() == 0 {
        0
    } else if text.last() == ' ' {
        text.len()
    } else {
        through_last_space(text.drop_last())
    }
}

/// `text` without its last word: the white space at the end of `text`
/// goes, and so does what stands after the last space that is then left.
/// Where no space is left, nothing remains.
pub open spec fn without_last_word(text: Seq<char>) -> Seq<char> {
    text.take(through_last_space(text.take(trimmed_len(text) as int)) as int)
}

/// What `through_last_space` measures: a start of the text that is empty
/// or ends in a space, after which no space follows.
pub proof fn lemma_through_last_space(text: Seq<char>)
    ensures
        through_last_space(text) <= text.len(),
        through_last_space(text) > 0 ==> text[through_last_space(text) - 1] == ' ',
        forall|i: int| through_last_space(text) <= i < text.len() ==> text[i] != ' ',
    decreases text.len(),
{
    if text.len() > 0 && text.last() != ' ' {
        let shorter = text.drop_last();
        lemma_through_last_space(shorter);
        assert forall|i: int| through_last_space(text) <= i < text.len() implies text[i] != ' ' by {
            if i < shorter.len() {
                assert(shorter[i] != ' ');
            }
        }
    }
}

/// What `trimmed_len` measures: the start of the text that is empty or
/// ends in a character that is no white space, after which only white
/// space follows.
pub proof fn lemma_trimmed_len(text: Seq<char>)
    ensures
        trimmed_len(text) <= text.len(),
        trimmed_len(text) > 0 ==> !is_whitespace(text[trimmed_len(text) - 1]),
        forall|i: int| trimmed_len(text) <= i < text.len() ==> is_whitespace(text[i]),
    decreases text.len(),
{
    if text.len() > 0 && is_whitespace(text.last()) {
        let shorter = text.drop_last();
        lemma_trimmed_len(shorter);
        assert forall|i: int| trimmed_len(text) <= i < text.len() implies is_whitespace(
            text[i],
        ) by {
            if i < shorter.len() {
                assert(is_whitespace(shorter[i]));
            }
        }
    }
}

/// The text without its last word is a start of the text, and is empty
/// or ends in a space.
pub proof fn lemma_without_last_word(text: Seq<char>)
    ensures
        without_last_word(text).len() <= trimmed_len(text) <= text.len(),
        without_last_word(text) == text.take(without_last_word(text).len() as int),
        without_last_word(text).len() > 0 ==> without_last_word(text).last() == ' ',
{
    lemma_trimmed_len(text);
    lemma_through_last_space(text.take(trimmed_len(text) as int));
}

/// The characters of `text`, in order.
pub fn chars_of(text: &str) -> (chars: Vec<char>)
    ensures
        chars@ == text@,
{
    let mut chars: Vec<char> = Vec::new();
    for c in it: text.chars()
        invariant
            it.seq() == text@,
            chars@.len() == it.index(),
            forall|j: int| 0 <= j < chars@.len() ==> chars@[j] == it.seq()[j],
    {
        chars.push(c);
    }
    chars
}

/// The string made of the first `count` of `chars`, and of all of them
/// where there are fewer.
pub fn string_of(chars: &Vec<char>, count: usize) -> (text: String)
    ensures
        text@ == if count <= chars@.len() {
            chars@.take(count as int)
        } else {
            chars@
        },
{
    let end = if count <= chars.len() {
        count
    } else {
        chars.len()
    };
    let mut text = String::new();
    let mut index: usize = 0;
    while index < end
        invariant
            index <= end <= chars@.len(),
            text@ == chars@.take(index as int),
        decreases end - index,
    {
        text.push(chars[index]);
        index += 1;
    }
    text
}

/// `filter` without its last word.
pub fn delete_last_word(filter: &str) -> (rest: String)
    ensures
        rest@ == without_last_word(filter@),
{
    let chars = chars_of(filter);
    let mut end = chars.len();
    assert(chars@.take(end as int) =~= chars@);
    while end > 0 && chars[end - 1].is_whitespace()
        invariant
            end <= chars@.len(),
            trimmed_len(chars@) == trimmed_len(chars@.take(end as int)),
        decreases end,
    {
        assert(chars@.take(end as int).drop_last() =~= chars@.take(end as int - 1));
        end -= 1;
    }
    let mut keep = end;
    while keep > 0 && chars[keep - 1] != ' '
        invariant
            keep <= end <= chars@.len(),
            through_last_space(chars@.take(end as int)) == through_last_space(
                chars@.take(keep as int),
            ),
        decreases keep,
    {
        assert(chars@.take(keep as int).drop_last() =~= chars@.take(keep as int - 1));
        keep -= 1;
    }
    string_of(&chars, keep)
}

} // verus!
