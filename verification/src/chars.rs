//! The character classes that the scanner tells apart.

use vstd::prelude::*;

verus! {

/// Whether `c` has the Alphabetic property of the Unicode standard.
pub uninterp spec fn unicode_alphabetic(c: char) -> bool;

/// `char::is_alphabetic`: says whether the character has Unicode's
/// Alphabetic property. The contract gives that answer the name
/// [`unicode_alphabetic`] and claims nothing else of it.
#[verifier::external_body]
fn alphabetic(c: char) -> (yes: bool)
    ensures
        yes == unicode_alphabetic(c),
{
    c.is_alphabetic()
}

/// Blank characters: they separate tokens and belong to none.
pub open spec fn space(c: char) -> bool {
    c == ' ' || c == '\r' || c == '\t' || c == '\n'
}

/// The ten decimal digits.
pub open spec fn digit(c: char) -> bool {
    '0' <= c && c <= '9'
}

/// What a word may start with: an alphabetic character or an underscore.
pub open spec fn letter(c: char) -> bool {
    unicode_alphabetic(c) || c == '_'
}

/// A class of characters of which the scanner reads a whole run.
pub enum CharClass {
    Space,
    Digit,
    Word,
}

/// Whether `c` belongs to `class`. A word goes on with letters and digits.
pub open spec fn in_class(class: CharClass, c: char) -> bool {
    match class {
        CharClass::Space => space(c),
        CharClass::Digit => digit(c),
        CharClass::Word => letter(c) || digit(c),
    }
}

/// Whether `ch` is blank.
pub(crate) fn is_space(ch: char) -> (yes: bool)
    ensures
        yes == space(ch),
{
    ch == ' ' || ch == '\r' || ch == '\t' || ch == '\n'
}

/// Whether `ch` is a decimal digit.
pub fn is_digit(ch: char) -> (yes: bool)
    ensures
        yes == digit(ch),
{
    '0' <= ch && ch <= '9'
}

/// Whether a word may start with `ch`.
pub fn is_alpha(ch: char) -> (yes: bool)
    ensures
        yes == letter(ch),
{
    alphabetic(ch) || ch == '_'
}

} // verus!
