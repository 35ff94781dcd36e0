use vstd::prelude::*;
use vstd::utf8::is_ascii_chars;

verus! {

/// `c` with an ASCII lowercase letter replaced by its uppercase letter.
pub open spec fn ascii_upper(c: char) -> char {
    if 'a' <= c <= 'z' {
        ((c as int) - 32) as char
    } else {
        c
    }
}

/// `c` with an ASCII uppercase letter replaced by its lowercase letter.
pub open spec fn ascii_lower(c: char) -> char {
    if 'A' <= c <= 'Z' {
        ((c as int) + 32) as char
    } else {
        c
    }
}

/// The characters that `char::to_uppercase` yields for `c` (its Unicode
/// uppercase mapping).
pub uninterp spec fn char_to_uppercase(c: char) -> Seq<char>;

/// The characters that `char::to_lowercase` yields for `c` (its Unicode
/// lowercase mapping).
pub uninterp spec fn char_to_lowercase(c: char) -> Seq<char>;

/// Whether `c` has the Unicode `White_Space` property: U+0009 to U+000D,
/// U+0020, U+0085, U+00A0, U+1680, U+2000 to U+200A, U+2028, U+2029,
/// U+202F, U+205F and U+3000 (code points written in decimal below).
pub open spec fn char_is_whitespace(c: char) -> bool {
    let n = c as u32;
    ||| 9 <= n <= 13
    ||| n == 32
    ||| n == 133
    ||| n == 160
    ||| n == 5760
    ||| 8192 <= n <= 8202
    ||| n == 8232
    ||| n == 8233
    ||| n == 8239
    ||| n == 8287
    ||| n == 12288
}

/// The ASCII letters of `s` uppercased.
pub open spec fn ascii_uppercased(s: Seq<char>) -> Seq<char> {
    s.map_values(|c: char| ascii_upper(c))
}

/// The ASCII letters of `s` lowercased.
pub open spec fn ascii_lowercased(s: Seq<char>) -> Seq<char> {
    s.map_values(|c: char| ascii_lower(c))
}

/// Changing the case of ASCII letters twice keeps only the last change, and
/// never changes whether a character is whitespace or ASCII.
pub proof fn lemma_ascii_case_folds(c: char)
    ensures
        ascii_lower(ascii_upper(c)) == ascii_lower(c),
        ascii_upper(ascii_upper(c)) == ascii_upper(c),
        ascii_upper(ascii_lower(c)) == ascii_upper(c),
        ascii_lower(ascii_lower(c)) == ascii_lower(c),
        char_is_whitespace(ascii_upper(c)) == char_is_whitespace(c),
        char_is_whitespace(ascii_lower(c)) == char_is_whitespace(c),
        is_ascii_char(ascii_upper(c)) == is_ascii_char(c),
        is_ascii_char(ascii_lower(c)) == is_ascii_char(c),
{
}

/// Whether `c` is an ASCII character.
pub open spec fn is_ascii_char(c: char) -> bool {
    (c as u32) < 128
}

/// What `str::to_uppercase` returns for a string with the characters `s`.
pub uninterp spec fn str_to_uppercase(s: Seq<char>) -> Seq<char>;

/// What `str::to_lowercase` returns for a string with the characters `s`.
pub uninterp spec fn str_to_lowercase(s: Seq<char>) -> Seq<char>;

/// Calls `char::to_uppercase` and collects what it yields. Claimed: the
/// result is `char_to_uppercase(c)`, and it has at least one character (std
/// documents the iterator as yielding "one or more" chars); for an ASCII
/// character it is that character with a lowercase letter uppercased (the
/// Unicode mapping of the ASCII range, as `char::to_ascii_uppercase`).
#[verifier::external_body]
pub(crate) fn uppercase_of_char(c: char) -> (r: String)
    ensures
        r@ == char_to_uppercase(c),
        r@.len() >= 1,
        is_ascii_char(c) ==> r@ == seq![ascii_upper(c)],
{
    c.to_uppercase().collect()
}

/// Calls `char::to_lowercase` and collects what it yields. Claimed: the
/// result is `char_to_lowercase(c)`, and it has at least one character (std
/// documents the iterator as yielding "one or more" chars); for an ASCII
/// character it is that character with an uppercase letter lowercased (the
/// Unicode mapping of the ASCII range, as `char::to_ascii_lowercase`).
#[verifier::external_body]
pub(crate) fn lowercase_of_char(c: char) -> (r: Vec<char>)
    ensures
        r@ == char_to_lowercase(c),
        r@.len() >= 1,
        is_ascii_char(c) ==> r@ == seq![ascii_lower(c)],
{
    c.to_lowercase().collect()
}

/// Calls `char::is_whitespace`. Claimed: the result is
/// `char_is_whitespace(c)`, the Unicode `White_Space` property, which std
/// documents as what the method tests.
#[verifier::external_body]
pub(crate) fn is_whitespace(c: char) -> (r: bool)
    ensures
        r == char_is_whitespace(c),
{
    c.is_whitespace()
}

/// Calls `str::to_uppercase`. Claimed: the result is `str_to_uppercase(s@)`;
/// on an ASCII string it maps each lowercase ASCII letter to its uppercase
/// letter and keeps every other character (the Unicode case mapping of the
/// ASCII range).
#[verifier::external_body]
pub(crate) fn to_uppercase(s: &str) -> (r: String)
    ensures
        r@ == str_to_uppercase(s@),
        is_ascii_chars(s@) ==> r@ == s@.map_values(|c: char| ascii_upper(c)),
{
    s.to_uppercase()
}

/// Calls `str::to_lowercase`. Claimed: the result is `str_to_lowercase(s@)`;
/// on an ASCII string it maps each uppercase ASCII letter to its lowercase
/// letter and keeps every other character (the Unicode case mapping of the
/// ASCII range).
#[verifier::external_body]
pub(crate) fn to_lowercase(s: &str) -> (r: String)
    ensures
        r@ == str_to_lowercase(s@),
        is_ascii_chars(s@) ==> r@ == s@.map_values(|c: char| ascii_lower(c)),
{
    s.to_lowercase()
}

/// Calls `String::push`. Claimed: `c` is appended to the characters of `s`.
#[verifier::external_body]
pub(crate) fn push_char(s: &mut String, c: char)
    ensures
        final(s)@ == old(s)@.push(c),
{
    s.push(c)
}

} // verus!
