//! Unicode character classes, as the standard library decides them.

use vstd::prelude::*;

verus! {

/// What `char::is_alphabetic` says of a character outside ASCII.
pub uninterp spec fn wide_alphabetic(c: char) -> bool;

/// What `char::is_numeric` says of a character outside ASCII.
pub uninterp spec fn wide_numeric(c: char) -> bool;

/// What `char::is_whitespace` says of a character outside ASCII.
pub uninterp spec fn wide_whitespace(c: char) -> bool;

/// An ASCII letter.
pub open spec fn ascii_letter(c: char) -> bool {
    'a' <= c <= 'z' || 'A' <= c <= 'Z'
}

/// An ASCII digit.
pub open spec fn ascii_digit(c: char) -> bool {
    '0' <= c <= '9'
}

/// ASCII white space: tab, line feed, vertical tab, form feed, carriage return and space.
pub open spec fn ascii_space(c: char) -> bool {
    9 <= c as int <= 13 || c == ' '
}

/// The character is alphabetic.
pub open spec fn alphabetic(c: char) -> bool {
    if (c as int) < 128 {
        ascii_letter(c)
    } else {
        wide_alphabetic(c)
    }
}

/// The character is numeric.
pub open spec fn numeric(c: char) -> bool {
    if (c as int) < 128 {
        ascii_digit(c)
    } else {
        wide_numeric(c)
    }
}

/// The character is white space.
pub open spec fn whitespace(c: char) -> bool {
    if (c as int) < 128 {
        ascii_space(c)
    } else {
        wide_whitespace(c)
    }
}

/// `char::is_alphabetic` is a property of the character; among ASCII characters it holds of the
/// letters.
pub assume_specification[ char::is_alphabetic ](c: char) -> (r: bool)
    ensures
        r == if (c as int) < 128 {
            ascii_letter(c)
        } else {
            wide_alphabetic(c)
        },
;

/// `char::is_numeric` is a property of the character; among ASCII characters it holds of the
/// digits.
pub assume_specification[ char::is_numeric ](c: char) -> (r: bool)
    ensures
        r == if (c as int) < 128 {
            ascii_digit(c)
        } else {
            wide_numeric(c)
        },
;

/// `char::is_whitespace` is a property of the character; among ASCII characters it holds of the
/// white space.
pub assume_specification[ char::is_whitespace ](c: char) -> (r: bool)
    ensures
        r == if (c as int) < 128 {
            ascii_space(c)
        } else {
            wide_whitespace(c)
        },
;

/// An ASCII digit.
pub fn is_ascii_digit(c: char) -> (r: bool)
    ensures
        r == ascii_digit(c),
{
    '0' <= c && c <= '9'
}

/// What `str::to_lowercase` makes of a text that is not all ASCII.
pub uninterp spec fn wide_lowercase(text: Seq<char>) -> Seq<char>;

/// Every character is ASCII.
pub open spec fn all_ascii(text: Seq<char>) -> bool {
    forall|i: int| 0 <= i < text.len() ==> (#[trigger] text[i] as int) < 128
}

/// An ASCII character in lower case.
pub open spec fn ascii_lower(c: char) -> char {
    if 'A' <= c <= 'Z' {
        (c as int + 32) as char
    } else {
        c
    }
}

/// The text in lower case.
pub open spec fn lowercase(text: Seq<char>) -> Seq<char> {
    if all_ascii(text) {
        Seq::new(text.len(), |i: int| ascii_lower(text[i]))
    } else {
        wide_lowercase(text)
    }
}

/// `str::to_lowercase` depends on the text alone; of ASCII text it changes the upper-case letters.
pub assume_specification[ str::to_lowercase ](s: &str) -> (lower: String)
    ensures
        lower@ == if all_ascii(s@) {
            Seq::new(s@.len(), |i: int| ascii_lower(s@[i]))
        } else {
            wide_lowercase(s@)
        },
;

} // verus!
