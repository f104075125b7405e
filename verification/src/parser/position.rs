//! Where in a text a byte stands: its line and its column, both counted
//! from one.

use super::utils::{NEWLINE, TAB};
use vstd::prelude::*;

verus! {

/// The line of the byte at `offset`: one more than the number of newlines
/// before it.
pub open spec fn line_at(source: Seq<u8>, offset: int) -> nat
    decreases offset,
{
    if offset <= 0 {
        1
    } else if source[offset - 1] == NEWLINE {
        line_at(source, offset - 1) + 1
    } else {
        line_at(source, offset - 1)
    }
}

/// The columns that one byte takes: a tab takes `tab_width`, any other byte
/// one.
pub open spec fn width_of(byte: u8, tab_width: usize) -> nat {
    if byte == TAB {
        tab_width as nat
    } else {
        1
    }
}

/// The column of the byte at `offset`: one at the start of a line, and after
/// each byte of the line further by the width of that byte.
pub open spec fn column_at(source: Seq<u8>, offset: int, tab_width: usize) -> nat
    decreases offset,
{
    if offset <= 0 || source[offset - 1] == NEWLINE {
        1
    } else {
        column_at(source, offset - 1, tab_width) + width_of(source[offset - 1], tab_width)
    }
}

/// A count as a machine word holds it: exact up to `usize::MAX`, and
/// `usize::MAX` beyond.
pub open spec fn clip(n: nat) -> usize {
    if n > usize::MAX {
        usize::MAX
    } else {
        n as usize
    }
}

} // verus!
