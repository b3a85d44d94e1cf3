//! The element kinds a sequence can be made of: raw bytes and decoded
//! characters.
use vstd::prelude::*;

verus! {

/// What the algorithms need to know of one element of a sequence.
pub trait AnyChar: Copy + Sized {
    spec fn spec_is_lowercase(self) -> bool;

    spec fn spec_is_uppercase(self) -> bool;

    spec fn spec_is_whitespace(self) -> bool;

    /// Number of storage bytes that the element takes when encoded.
    spec fn spec_bytes_len(self) -> nat;

    fn is_lowercase(self) -> (r: bool)
        ensures
            r == self.spec_is_lowercase(),
    ;

    fn is_uppercase(self) -> (r: bool)
        ensures
            r == self.spec_is_uppercase(),
    ;

    fn is_whitespace(self) -> (r: bool)
        ensures
            r == self.spec_is_whitespace(),
    ;

    fn bytes_len(self) -> (r: usize)
        ensures
            r as nat == self.spec_bytes_len(),
    ;

    /// Element equality.
    fn same(self, other: Self) -> (r: bool)
        ensures
            r == (self == other),
    ;
}

/// ASCII classification of a byte.
impl AnyChar for u8 {
    open spec fn spec_is_lowercase(self) -> bool {
        0x61 <= self <= 0x7a
    }

    open spec fn spec_is_uppercase(self) -> bool {
        0x41 <= self <= 0x5a
    }

    open spec fn spec_is_whitespace(self) -> bool {
        self == 0x20 || (0x09 <= self <= 0x0d)
    }

    open spec fn spec_bytes_len(self) -> nat {
        1
    }

    fn is_lowercase(self) -> (r: bool) {
        0x61 <= self && self <= 0x7a
    }

    fn is_uppercase(self) -> (r: bool) {
        0x41 <= self && self <= 0x5a
    }

    fn is_whitespace(self) -> (r: bool) {
        self == 0x20 || (0x09 <= self && self <= 0x0d)
    }

    fn bytes_len(self) -> (r: usize) {
        1
    }

    fn same(self, other: Self) -> (r: bool) {
        self == other
    }
}

/// Whether the character has the Unicode `Lowercase` property.
pub uninterp spec fn char_lowercase(c: char) -> bool;

/// Whether the character has the Unicode `Uppercase` property.
pub uninterp spec fn char_uppercase(c: char) -> bool;

/// Whether the character has the Unicode `White_Space` property.
pub uninterp spec fn char_whitespace(c: char) -> bool;

/// Relies on `char::is_lowercase`: a property of the character alone.
#[verifier::external_body]
fn std_char_is_lowercase(c: char) -> (r: bool)
    ensures
        r == char_lowercase(c),
{
    c.is_lowercase()
}

/// Relies on `char::is_uppercase`: a property of the character alone.
#[verifier::external_body]
fn std_char_is_uppercase(c: char) -> (r: bool)
    ensures
        r == char_uppercase(c),
{
    c.is_uppercase()
}

/// Relies on `char::is_whitespace`: a property of the character alone.
#[verifier::external_body]
fn std_char_is_whitespace(c: char) -> (r: bool)
    ensures
        r == char_whitespace(c),
{
    c.is_whitespace()
}

/// Length of the UTF-8 encoding of a character.
pub open spec fn utf8_len(c: char) -> nat {
    if (c as u32) < 0x80 {
        1
    } else if (c as u32) < 0x800 {
        2
    } else if (c as u32) < 0x10000 {
        3
    } else {
        4
    }
}

/// Number of bytes of the UTF-8 encoding of a character.
fn char_len_utf8(c: char) -> (r: usize)
    ensures
        r as nat == utf8_len(c),
{
    let v = c as u32;
    if v < 0x80 {
        1
    } else if v < 0x800 {
        2
    } else if v < 0x10000 {
        3
    } else {
        4
    }
}

/// Unicode classification of a character.
impl AnyChar for char {
    open spec fn spec_is_lowercase(self) -> bool {
        char_lowercase(self)
    }

    open spec fn spec_is_uppercase(self) -> bool {
        char_uppercase(self)
    }

    open spec fn spec_is_whitespace(self) -> bool {
        char_whitespace(self)
    }

    open spec fn spec_bytes_len(self) -> nat {
        utf8_len(self)
    }

    fn is_lowercase(self) -> (r: bool) {
        std_char_is_lowercase(self)
    }

    fn is_uppercase(self) -> (r: bool) {
        std_char_is_uppercase(self)
    }

    fn is_whitespace(self) -> (r: bool) {
        std_char_is_whitespace(self)
    }

    fn bytes_len(self) -> (r: usize) {
        char_len_utf8(self)
    }

    fn same(self, other: Self) -> (r: bool) {
        self == other
    }
}

} // verus!
