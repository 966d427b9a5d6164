//! Character classification for the lexer, plus the UTF-8 byte width and the
//! terminal display width of a single character.

use vstd::prelude::*;

verus! {

/// An inline space: space, horizontal tab, NUL, vertical tab, or form feed.
pub open spec fn is_inline_space_spec(c: char) -> bool {
    c == ' ' || c == '\t' || c == '\u{0}' || c == '\u{B}' || c == '\u{C}'
}

/// Returns true if the character is an inline space: space (U+0020),
/// horizontal tab (U+0009), NUL (U+0000), vertical tab (U+000B), or form feed
/// (U+000C).
#[verifier::when_used_as_spec(is_inline_space_spec)]
pub fn is_inline_space(c: char) -> (b: bool)
    ensures
        b == is_inline_space_spec(c),
{
    c == ' ' || c == '\t' || c == '\u{0}' || c == '\u{B}' || c == '\u{C}'
}

/// A whitespace character: an inline space, line feed, or carriage return.
pub open spec fn is_whitespace_spec(c: char) -> bool {
    is_inline_space_spec(c) || c == '\n' || c == '\r'
}

/// Returns true if the character is a whitespace: space (U+0020), line feed
/// (U+000A), carriage return (U+000D), horizontal tab (U+0009), vertical tab
/// (U+000B), form feed (U+000C), or NUL (U+0000).
#[verifier::when_used_as_spec(is_whitespace_spec)]
pub fn is_whitespace(c: char) -> (b: bool)
    ensures
        b == is_whitespace_spec(c),
{
    is_inline_space(c) || c == '\n' || c == '\r'
}

/// A line break character: line feed or carriage return.
pub open spec fn is_line_break_spec(c: char) -> bool {
    c == '\n' || c == '\r'
}

/// Returns true if the character is a line break, line feed (U+000A) or
/// carriage return (U+000D). An end-of-line token may span two characters
/// (CRLF), so this classifies single characters only.
#[verifier::when_used_as_spec(is_line_break_spec)]
pub fn is_line_break(c: char) -> (b: bool)
    ensures
        b == is_line_break_spec(c),
{
    c == '\n' || c == '\r'
}

/// A character that can start an alphanumeric identifier.
pub open spec fn is_ident_head_spec(c: char) -> bool {
    ('a' <= c && c <= 'z') || ('A' <= c && c <= 'Z') || c == '_'
}

/// Returns true if the character can be the head of an identifier: an ASCII
/// letter or an underscore.
#[verifier::when_used_as_spec(is_ident_head_spec)]
pub fn is_ident_head(c: char) -> (b: bool)
    ensures
        b == is_ident_head_spec(c),
{
    ('a' <= c && c <= 'z') || ('A' <= c && c <= 'Z') || c == '_'
}

/// A character that can continue an alphanumeric identifier.
pub open spec fn is_ident_part_spec(c: char) -> bool {
    is_ident_head_spec(c) || is_digit_spec(c)
}

/// Returns true if the character can be a part of an identifier: an ASCII
/// letter, an ASCII digit, or an underscore.
#[verifier::when_used_as_spec(is_ident_part_spec)]
pub fn is_ident_part(c: char) -> (b: bool)
    ensures
        b == is_ident_part_spec(c),
{
    is_ident_head(c) || is_digit(c)
}

/// An operator-constituent character.
pub open spec fn is_operator_part_spec(c: char) -> bool {
    c == '!' || c == '$' || c == '%' || c == '&' || c == '*' || c == '+' || c == '-' || c == '/'
        || c == ':' || c == '<' || c == '=' || c == '>' || c == '?' || c == '^' || c == '|'
        || c == '~'
}

/// Returns true if the character can be a part of a symbolic identifier or
/// operator, one of `!`, `$`, `%`, `&`, `*`, `+`, `-`, `/`, `:`, `<`, `=`,
/// `>`, `?`, `^`, `|`, and `~`.
#[verifier::when_used_as_spec(is_operator_part_spec)]
pub fn is_operator_part(c: char) -> (b: bool)
    ensures
        b == is_operator_part_spec(c),
{
    c == '!' || c == '$' || c == '%' || c == '&' || c == '*' || c == '+' || c == '-' || c == '/'
        || c == ':' || c == '<' || c == '=' || c == '>' || c == '?' || c == '^' || c == '|'
        || c == '~'
}

/// A decimal digit.
pub open spec fn is_digit_spec(c: char) -> bool {
    '0' <= c && c <= '9'
}

/// Returns true if the character is a decimal digit.
#[verifier::when_used_as_spec(is_digit_spec)]
pub fn is_digit(c: char) -> (b: bool)
    ensures
        b == is_digit_spec(c),
{
    '0' <= c && c <= '9'
}

/// The number of bytes (1 to 4) in the UTF-8 encoding of a character.
pub open spec fn utf8_len_spec(c: char) -> nat {
    if (c as u32) < 0x80 {
        1
    } else if (c as u32) < 0x800 {
        2
    } else if (c as u32) < 0x10000 {
        3
    } else {
        4
    }
}

/// Returns the number of bytes in the UTF-8 encoding of the character.
pub fn utf8_len(c: char) -> (n: usize)
    ensures
        n == utf8_len_spec(c),
{
    let u = c as u32;
    if u < 0x80 {
        1
    } else if u < 0x800 {
        2
    } else if u < 0x10000 {
        3
    } else {
        4
    }
}

/// The terminal display width of a character: 0 for zero-width characters,
/// 2 for wide characters, 4 for a tab, and 1 for everything else.
///
/// The zero-width and wide sets cover the common Unicode blocks: combining
/// marks, zero-width spaces and joiners, and variation selectors count as
/// zero-width; the Hangul, CJK, fullwidth and common emoji blocks count as
/// wide. Characters outside these blocks count as narrow.
pub open spec fn display_width_spec(c: char) -> nat {
    if c == '\t' {
        4
    } else if is_zero_width_spec(c) {
        0
    } else if is_wide_spec(c) {
        2
    } else {
        1
    }
}

/// A character displayed in zero terminal columns.
pub open spec fn is_zero_width_spec(c: char) -> bool {
    let u = c as u32;
    (0x300 <= u && u <= 0x36F)  // combining diacritical marks
        || (0x1AB0 <= u && u <= 0x1AFF)  // combining diacritical marks extended
        || (0x1DC0 <= u && u <= 0x1DFF)  // combining diacritical marks supplement
        || (0x200B <= u && u <= 0x200F)  // zero-width spaces, joiners, direction marks
        || (0x20D0 <= u && u <= 0x20FF)  // combining marks for symbols
        || (0xFE00 <= u && u <= 0xFE0F)  // variation selectors
        || (0xFE20 <= u && u <= 0xFE2F)  // combining half marks
        || u == 0xFEFF  // zero-width no-break space
}

/// A character displayed in two terminal columns (East Asian wide).
pub open spec fn is_wide_spec(c: char) -> bool {
    let u = c as u32;
    (0x1100 <= u && u <= 0x115F)  // Hangul jamo
        || (0x2E80 <= u && u <= 0xA4CF)  // CJK radicals through Yi radicals
        || (0xAC00 <= u && u <= 0xD7A3)  // Hangul syllables
        || (0xF900 <= u && u <= 0xFAFF)  // CJK compatibility ideographs
        || (0xFE30 <= u && u <= 0xFE4F)  // CJK compatibility forms
        || (0xFF00 <= u && u <= 0xFF60)  // fullwidth forms
        || (0xFFE0 <= u && u <= 0xFFE6)  // fullwidth signs
        || (0x1F300 <= u && u <= 0x1F64F)  // pictographs and emoticons
        || (0x1F900 <= u && u <= 0x1F9FF)  // supplemental pictographs
        || (0x20000 <= u && u <= 0x2FFFD)  // CJK ideographs extension
        || (0x30000 <= u && u <= 0x3FFFD)  // CJK ideographs extension
}

/// Returns the terminal display width of the character: 0, 1, 2, or 4 (tab).
pub fn display_width(c: char) -> (w: usize)
    ensures
        w == display_width_spec(c),
{
    let u = c as u32;
    if c == '\t' {
        4
    } else if (0x300 <= u && u <= 0x36F) || (0x1AB0 <= u && u <= 0x1AFF) || (0x1DC0 <= u && u
        <= 0x1DFF) || (0x200B <= u && u <= 0x200F) || (0x20D0 <= u && u <= 0x20FF) || (0xFE00 <= u
        && u <= 0xFE0F) || (0xFE20 <= u && u <= 0xFE2F) || u == 0xFEFF {
        0
    } else if (0x1100 <= u && u <= 0x115F) || (0x2E80 <= u && u <= 0xA4CF) || (0xAC00 <= u && u
        <= 0xD7A3) || (0xF900 <= u && u <= 0xFAFF) || (0xFE30 <= u && u <= 0xFE4F) || (0xFF00 <= u
        && u <= 0xFF60) || (0xFFE0 <= u && u <= 0xFFE6) || (0x1F300 <= u && u <= 0x1F64F) || (
    0x1F900 <= u && u <= 0x1F9FF) || (0x20000 <= u && u <= 0x2FFFD) || (0x30000 <= u && u
        <= 0x3FFFD) {
        2
    } else {
        1
    }
}

} // verus!
