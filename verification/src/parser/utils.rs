//! Byte classification used by the scanner.

use vstd::prelude::*;

verus! {

pub const LEFT_BRACE: u8 = 0x7b;

pub const RIGHT_BRACE: u8 = 0x7d;

pub const LEFT_SQUARE_BRACKET: u8 = 0x5b;

pub const RIGHT_SQUARE_BRACKET: u8 = 0x5d;

pub const COLON: u8 = 0x3a;

pub const COMMA: u8 = 0x2c;

pub const SLASH: u8 = 0x2f;

pub const STAR: u8 = 0x2a;

pub const DOUBLE_QUOTE: u8 = 0x22;

pub const SINGLE_QUOTE: u8 = 0x27;

pub const BACKSLASH: u8 = 0x5c;

pub const NEWLINE: u8 = 0x0a;

pub const CARRIAGE_RETURN: u8 = 0x0d;

pub const SPACE: u8 = 0x20;

pub const TAB: u8 = 0x09;

pub const MINUS: u8 = 0x2d;

pub const PLUS: u8 = 0x2b;

pub const DOT: u8 = 0x2e;

pub const LOWER_E: u8 = 0x65;

pub const UPPER_E: u8 = 0x45;

/// Whether `c` is an ASCII decimal digit, `0` to `9`.
pub open spec fn digit(c: u8) -> bool {
    0x30 <= c && c <= 0x39
}

/// Whether `c` may start an identifier: an ASCII letter or an underscore.
pub open spec fn alpha(c: u8) -> bool {
    (0x61 <= c && c <= 0x7a) || (0x41 <= c && c <= 0x5a) || c == 0x5f
}

/// Whether `c` may continue an identifier: a letter, an underscore or a digit.
pub open spec fn alphanumeric(c: u8) -> bool {
    alpha(c) || digit(c)
}

pub fn is_digit(c: &u8) -> (r: bool)
    ensures
        r == digit(*c),
{
    *c >= 0x30 && *c <= 0x39
}

pub fn is_alpha(c: &u8) -> (r: bool)
    ensures
        r == alpha(*c),
{
    (*c >= 0x61 && *c <= 0x7a) || (*c >= 0x41 && *c <= 0x5a) || *c == 0x5f
}

pub fn is_alphanumeric(c: &u8) -> (r: bool)
    ensures
        r == alphanumeric(*c),
{
    is_alpha(c) || is_digit(c)
}

} // verus!
