//! Character categorization and boundary detection.

use vstd::prelude::*;
use crate::text::unicode::{is_alphanumeric, is_whitespace, spec_is_whitespace, unicode_is_alphanumeric};

verus! {

/// The class of a character, used to find word boundaries.
#[derive(Debug, Clone, Copy, PartialEq, Eq, Structural)]
pub enum CharCategory {
    Whitespace,
    Eol,
    Word,
    Punctuation,
}

/// The category of `ch`: line endings first, then whitespace, then word
/// characters (alphanumeric or `_`), and everything else is punctuation.
pub open spec fn spec_categorize(ch: char) -> CharCategory {
    if ch == '\n' || ch == '\r' {
        CharCategory::Eol
    } else if spec_is_whitespace(ch) {
        CharCategory::Whitespace
    } else if unicode_is_alphanumeric(ch) || ch == '_' {
        CharCategory::Word
    } else {
        CharCategory::Punctuation
    }
}

/// Categorizes a character.
pub fn categorize(ch: char) -> (r: CharCategory)
    ensures
        r == spec_categorize(ch),
{
    if ch == '\n' || ch == '\r' {
        CharCategory::Eol
    } else if is_whitespace(ch) {
        CharCategory::Whitespace
    } else if is_alphanumeric(ch) || ch == '_' {
        CharCategory::Word
    } else {
        CharCategory::Punctuation
    }
}

/// Two adjacent characters form a word boundary when their categories differ.
pub open spec fn spec_is_word_boundary(a: char, b: char) -> bool {
    spec_categorize(a) != spec_categorize(b)
}

/// Whether there is a word boundary between `a` and `b`.
pub fn is_word_boundary(a: char, b: char) -> (r: bool)
    ensures
        r == spec_is_word_boundary(a, b),
{
    categorize(a) != categorize(b)
}

/// A long-word (WORD) boundary: categories differ, except that a change
/// between word characters and punctuation is not a boundary.
pub open spec fn spec_is_long_word_boundary(a: char, b: char) -> bool {
    let (x, y) = (spec_categorize(a), spec_categorize(b));
    if (x == CharCategory::Word && y == CharCategory::Punctuation) || (x
        == CharCategory::Punctuation && y == CharCategory::Word) {
        false
    } else {
        x != y
    }
}

/// Whether there is a long-word boundary between `a` and `b`.
pub fn is_long_word_boundary(a: char, b: char) -> (r: bool)
    ensures
        r == spec_is_long_word_boundary(a, b),
{
    let x = categorize(a);
    let y = categorize(b);
    match (x, y) {
        (CharCategory::Word, CharCategory::Punctuation) | (
            CharCategory::Punctuation,
            CharCategory::Word,
        ) => false,
        _ => x != y,
    }
}

/// `\n` and `\r` end lines.
pub open spec fn spec_char_is_line_ending(ch: char) -> bool {
    ch == '\n' || ch == '\r'
}

/// Whether `ch` is a line-ending character.
pub fn char_is_line_ending(ch: char) -> (r: bool)
    ensures
        r == spec_char_is_line_ending(ch),
{
    ch == '\n' || ch == '\r'
}

/// Every long-word boundary is also a word boundary.
pub proof fn lemma_long_word_boundary_is_word_boundary(a: char, b: char)
    ensures
        spec_is_long_word_boundary(a, b) ==> spec_is_word_boundary(a, b),
{
}

/// Word boundaries are symmetric.
pub proof fn lemma_word_boundary_symmetric(a: char, b: char)
    ensures
        spec_is_word_boundary(a, b) == spec_is_word_boundary(b, a),
        spec_is_long_word_boundary(a, b) == spec_is_long_word_boundary(b, a),
{
}

/// A character is never a boundary with itself.
pub proof fn lemma_no_boundary_with_self(a: char)
    ensures
        !spec_is_word_boundary(a, a),
        !spec_is_long_word_boundary(a, a),
{
}

} // verus!
