use vstd::prelude::*;

verus! {

/// What `regex_syntax::is_word_character` answers for a character.
pub uninterp spec fn unicode_word(c: char) -> bool;

/// What `char::is_numeric` answers for a character.
pub uninterp spec fn unicode_numeric(c: char) -> bool;

/// What `char::is_alphabetic` answers for a character.
pub uninterp spec fn unicode_alphabetic(c: char) -> bool;

/// What `char::is_whitespace` answers for a character.
pub uninterp spec fn unicode_whitespace(c: char) -> bool;

/// Relies on `regex_syntax::is_word_character`, the Unicode word class of
/// regular expressions (`Alphabetic`, `Join_Control`, `Decimal_Number`,
/// `Mark`, `Connector_Punctuation`); its answer depends on the character
/// alone. It panics only without the `unicode-perl` feature, which the
/// default features enable.
#[verifier::external_body]
fn word_character(c: char) -> (r: bool)
    ensures
        r == unicode_word(c),
{
    regex_syntax::is_word_character(c)
}

/// Relies on `char::is_numeric`, the Unicode `Nd`, `Nl` and `No` test; its
/// answer depends on the character alone.
#[verifier::external_body]
fn numeric(c: char) -> (r: bool)
    ensures
        r == unicode_numeric(c),
{
    c.is_numeric()
}

/// Relies on `char::is_alphabetic`, the Unicode `Alphabetic` test; its
/// answer depends on the character alone.
#[verifier::external_body]
fn alphabetic(c: char) -> (r: bool)
    ensures
        r == unicode_alphabetic(c),
{
    c.is_alphabetic()
}

/// Relies on `char::is_whitespace`, the Unicode `White_Space` test; its
/// answer depends on the character alone.
#[verifier::external_body]
fn whitespace(c: char) -> (r: bool)
    ensures
        r == unicode_whitespace(c),
{
    c.is_whitespace()
}

pub open spec fn is_ascii_char(c: char) -> bool {
    (c as u32) < 128
}

pub open spec fn is_ascii_digit(c: char) -> bool {
    '0' <= c <= '9'
}

/// Decimal digits: the ASCII digits, and beyond ASCII the `Decimal_Number`
/// category, that is the word characters that are numeric and not
/// alphabetic (`Nl` is alphabetic, and no `No` character is a word
/// character).
pub open spec fn is_digit(c: char) -> bool {
    if is_ascii_char(c) {
        is_ascii_digit(c)
    } else {
        unicode_word(c) && unicode_numeric(c) && !unicode_alphabetic(c)
    }
}

/// Word characters: ASCII letters, digits and underscore, and beyond ASCII
/// the Unicode word class of regular expressions.
pub open spec fn is_word(c: char) -> bool {
    if is_ascii_char(c) {
        ('a' <= c <= 'z') || ('A' <= c <= 'Z') || is_ascii_digit(c) || c == '_'
    } else {
        unicode_word(c)
    }
}

/// Whitespace: tab, line feed, vertical tab, form feed, carriage return and
/// space, and beyond ASCII every character of the Unicode `White_Space` set.
pub open spec fn is_space(c: char) -> bool {
    if is_ascii_char(c) {
        c == ' ' || ('\t' <= c <= '\r')
    } else {
        unicode_whitespace(c)
    }
}

/// Characters that may appear in a title or inside a tag.
pub open spec fn is_text(c: char) -> bool {
    is_word(c) || is_space(c) || c == '#' || c == '&' || c == '\'' || ('+' <= c <= '.')
}

/// Characters that may appear in a series name: those of a title, and
/// parentheses.
pub open spec fn is_series(c: char) -> bool {
    is_text(c) || c == '(' || c == ')'
}

pub fn ascii_digit(c: char) -> (r: bool)
    ensures
        r == is_ascii_digit(c),
{
    '0' <= c && c <= '9'
}

pub fn digit(c: char) -> (r: bool)
    ensures
        r == is_digit(c),
{
    if (c as u32) < 128 {
        ascii_digit(c)
    } else {
        word_character(c) && numeric(c) && !alphabetic(c)
    }
}

pub fn word(c: char) -> (r: bool)
    ensures
        r == is_word(c),
{
    if (c as u32) < 128 {
        ('a' <= c && c <= 'z') || ('A' <= c && c <= 'Z') || ascii_digit(c) || c == '_'
    } else {
        word_character(c)
    }
}

pub fn space(c: char) -> (r: bool)
    ensures
        r == is_space(c),
{
    if (c as u32) < 128 {
        c == ' ' || ('\t' <= c && c <= '\r')
    } else {
        whitespace(c)
    }
}

pub fn text(c: char) -> (r: bool)
    ensures
        r == is_text(c),
{
    word(c) || space(c) || c == '#' || c == '&' || c == '\'' || ('+' <= c && c <= '.')
}

pub fn series(c: char) -> (r: bool)
    ensures
        r == is_series(c),
{
    text(c) || c == '(' || c == ')'
}

} // verus!
