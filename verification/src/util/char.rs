//! Character classes of the rss source language.

use crate::util::scan_iter::CmpType;
use crate::util::scan_iter::Newline;
use crate::util::scan_iter::Terminal;
use vstd::prelude::*;

verus! {

/// A line ends with the line feed character.
impl Newline for char {
    open spec fn newline(&self) -> bool {
        *self == '\n'
    }

    fn is_newline(&self) -> (b: bool) {
        *self == '\n'
    }
}

/// Characters are of one type when they are equal.
impl CmpType for char {
    open spec fn same_type(&self, other: &char) -> bool {
        *self == *other
    }

    fn cmp_type(&self, other: &char) -> (b: bool) {
        *self == *other
    }
}

/// Past the last character a cursor shows the NUL character.
impl Terminal for char {
    open spec fn terminal_spec() -> char {
        '\0'
    }

    fn terminal() -> (t: char) {
        '\0'
    }
}

/// An ASCII decimal digit.
pub open spec fn digit(c: char) -> bool {
    '0' <= c && c <= '9'
}

/// An ASCII letter or the underscore: what may start an identifier.
pub open spec fn alpha_or_underscore(c: char) -> bool {
    c == '_' || ('A' <= c && c <= 'Z') || ('a' <= c && c <= 'z')
}

/// What may continue an identifier.
pub open spec fn alpha_numeric_or_underscore(c: char) -> bool {
    alpha_or_underscore(c) || digit(c)
}

/// Whether `c` is a decimal digit.
pub fn is_digit(c: char) -> (b: bool)
    ensures
        b == digit(c),
{
    c >= '0' && c <= '9'
}

/// Whether `c` may start an identifier.
pub fn is_alpha_or_underscore(c: char) -> (b: bool)
    ensures
        b == alpha_or_underscore(c),
{
    c == '_' || (c >= 'A' && c <= 'Z') || (c >= 'a' && c <= 'z')
}

/// Whether `c` may continue an identifier.
pub fn is_alpha_numeric_or_underscore(c: char) -> (b: bool)
    ensures
        b == alpha_numeric_or_underscore(c),
{
    is_alpha_or_underscore(c) || is_digit(c)
}

} // verus!
