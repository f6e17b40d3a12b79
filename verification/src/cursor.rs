//! Where the input cursor goes: behind the text that is being edited.
//!
//! How many columns a text takes up on a terminal is for the crate
//! `unicode-width` to say. This module places the cursor by what it says.

use vstd::prelude::*;
use unicode_width::UnicodeWidthStr;

verus! {

/// The number of terminal columns that a text takes up: what
/// `UnicodeWidthStr::width` of the crate `unicode-width` returns for it.
pub uninterp spec fn spec_display_width(text: Seq<char>) -> usize;

/// The number of terminal columns that `text` takes up.
///
/// Calls `UnicodeWidthStr::width` of the crate `unicode-width`. The contract
/// claims no more than that the result depends on the characters of the text
/// alone: the function folds a table lookup over them, in wrapping
/// arithmetic, and so returns for every text.
#[verifier::external_body]
pub(crate) fn display_width(text: &str) -> (width: usize)
    ensures
        width == spec_display_width(text@),
{
    UnicodeWidthStr::width(text)
}

/// The column behind a text that starts at column `origin` and is `width`
/// columns wide, `gap` columns further on. Of the width only the low
/// sixteen bits count, as much as a terminal coordinate holds.
pub open spec fn spec_column_behind(origin: u16, width: usize, gap: u16) -> int {
    origin + (width as u16) + gap
}

/// The column behind a text that starts at column `origin` and is `width`
/// columns wide, `gap` columns further on.
pub fn column_behind(origin: u16, width: usize, gap: u16) -> (column: u16)
    requires
        spec_column_behind(origin, width, gap) <= u16::MAX,
    ensures
        column == spec_column_behind(origin, width, gap),
{
    origin + (#[verifier::truncate] (width as u16)) + gap
}

/// The column behind `text` where it starts at column `origin`, `gap`
/// columns further on; `None` where no terminal coordinate holds that
/// column.
pub fn column_behind_text(origin: u16, text: &str, gap: u16) -> (column: Option<u16>)
    ensures
        column == if spec_column_behind(origin, spec_display_width(text@), gap) <= u16::MAX {
            Some(spec_column_behind(origin, spec_display_width(text@), gap) as u16)
        } else {
            None
        },
{
    let width = display_width(text);
    let narrow = #[verifier::truncate] (width as u16);
    if narrow <= u16::MAX - origin && gap <= u16::MAX - origin - narrow {
        Some(column_behind(origin, width, gap))
    } else {
        None
    }
}

} // verus!
