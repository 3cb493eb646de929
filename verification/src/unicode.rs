//! Trusted interfaces to Unicode data: display widths (unicode-width),
//! emoji classification (unicode-properties) and character construction.
//!
//! Each external result that depends only on the character is given a name
//! (an uninterpreted spec function), and the verified layer builds exact
//! contracts on top of those names.

use vstd::prelude::*;

verus! {

/// The display width, in terminal columns, that unicode-width assigns to a
/// non-control character.
pub uninterp spec fn wcwidth(c: char) -> usize;

/// Whether unicode-properties classifies the character as an emoji.
pub uninterp spec fn is_emoji_codepoint(c: char) -> bool;

/// Control characters, for which unicode-width defines no width.
pub open spec fn spec_is_control(c: char) -> bool {
    (c as u32) < 0x20 || (0x7F <= c as u32 && (c as u32) < 0xA0)
}

/// Relies on unicode_width::UnicodeWidthChar::width: `None` exactly for the
/// control ranges U+0000..U+0020 and U+007F..U+00A0; otherwise a width read
/// from a two-bit-per-entry table, so at most 3; printable ASCII is 1.
#[verifier::external_body]
fn char_width_raw(c: char) -> (r: Option<usize>)
    ensures
        r is Some <==> !spec_is_control(c),
        r matches Some(wch) ==> wch == wcwidth(c) && wch <= 3,
        0x20 <= c as u32 && (c as u32) < 0x7F ==> r == Some(1usize),
{
    unicode_width::UnicodeWidthChar::width(c)
}

/// The width a character occupies in the cell grid: its display width,
/// but at least one column, and one column for control characters.
pub open spec fn spec_char_cell_width(c: char) -> usize {
    if spec_is_control(c) {
        1usize
    } else if wcwidth(c) < 1 {
        1usize
    } else {
        wcwidth(c)
    }
}

/// Columns occupied by a character: 1, 2 or 3, never zero.
pub fn char_cell_width(c: char) -> (r: usize)
    ensures
        r == spec_char_cell_width(c),
        1 <= r <= 3,
        0x20 <= c as u32 && (c as u32) < 0x7F ==> r == 1,
{
    match char_width_raw(c) {
        None => 1,
        Some(wch) => if wch < 1 {
            1
        } else {
            wch
        },
    }
}

/// Display width of a character: zero for control characters and
/// zero-width marks, otherwise the unicode-width column count.
pub fn char_cell_width_or_zero(c: char) -> (r: usize)
    ensures
        r as int == if spec_is_control(c) {
            0int
        } else {
            wcwidth(c) as int
        },
        r <= 3,
{
    match char_width_raw(c) {
        None => 0,
        Some(wch) => wch,
    }
}

/// Relies on unicode_properties::UnicodeEmoji::is_emoji_char: a pure
/// classification of the code point against the Unicode emoji table.
#[verifier::external_body]
pub fn is_emoji_char(c: char) -> (r: bool)
    ensures
        r == is_emoji_codepoint(c),
{
    unicode_properties::UnicodeEmoji::is_emoji_char(c)
}

/// Relies on char::from_u32: documented to return the character with the
/// given code point for every value that is not a surrogate and is at most
/// U+10FFFF.
#[verifier::external_body]
pub fn char_from_code(cp: u32) -> (r: char)
    requires
        cp <= 0x10FFFF,
        !(0xD800 <= cp && cp <= 0xDFFF),
    ensures
        r as u32 == cp,
{
    char::from_u32(cp).unwrap()
}

} // verus!
