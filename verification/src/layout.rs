//! Where the cursor stands on the line that shows the input.

use unicode_width::UnicodeWidthStr;
use vstd::prelude::*;

verus! {

/// The number of columns that `text` takes up on a terminal, as the
/// `unicode-width` crate counts them.
pub uninterp spec fn display_width(text: Seq<char>) -> usize;

/// Calls `UnicodeWidthStr::width` of the `unicode-width` crate on `text`.
///
/// Trusted: the result depends on the text alone and is given the name
/// [`display_width`].
#[verifier::external_body]
pub(crate) fn text_width(text: &str) -> (width: usize)
    ensures
        width == display_width(text@),
{
    UnicodeWidthStr::width(text)
}

/// The column behind a text that is `width` columns wide and starts one
/// column to the right of `origin`, as it does inside a frame whose
/// border stands at `origin`.
pub fn column_after(origin: u16, width: usize) -> (column: u16)
    requires
        origin + width + 1 <= u16::MAX,
    ensures
        column == origin + width + 1,
{
    origin + (width as u16) + 1
}

/// The column where the cursor stands behind `text`, in a frame whose
/// border stands at `origin`; `None` where that column lies beyond the
/// last one that a terminal can have.
pub fn cursor_column(origin: u16, text: &str) -> (column: Option<u16>)
    ensures
        column.is_some() == (origin + display_width(text@) + 1 <= u16::MAX),
        column matches Some(c) ==> c == origin + display_width(text@) + 1,
{
    let width = text_width(text);
    if width < 0xffff && origin as usize <= 0xfffe - width {
        Some(column_after(origin, width))
    } else {
        None
    }
}

} // verus!
