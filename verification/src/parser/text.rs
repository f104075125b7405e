//! Strings seen as containers of UTF-8 bytes, and the rendering of numbers
//! into them.

use vstd::prelude::*;
use vstd::string::*;
use vstd::utf8::*;

verus! {

/// `std::string::String::push` appends the given character to the end of the
/// string and leaves the characters before it as they were.
pub assume_specification[ std::string::String::push ](text: &mut std::string::String, c: char)
    ensures
        final(text)@ == old(text)@.push(c),
;

/// In valid UTF-8 an ASCII byte is a whole character: a character starts at
/// it and another one, or the end of the text, follows it.
pub proof fn lemma_ascii_is_bounded(bytes: Seq<u8>, index: int)
    requires
        valid_utf8(bytes),
        0 <= index < bytes.len(),
        bytes[index] <= 0x7f,
    ensures
        is_char_boundary(bytes, index),
        is_char_boundary(bytes, index + 1),
    decreases bytes.len(),
{
    is_char_boundary_iff_not_is_continuation_byte(bytes, index);
    let width = length_of_first_scalar(bytes);
    if index < width {
        if index > 0 {
            assert(is_continuation_byte(bytes[index]));
        }
        assert(width == 1);
        reveal_with_fuel(is_char_boundary, 2);
    } else {
        let rest = pop_first_scalar(bytes);
        assert(rest[index - width] == bytes[index]);
        lemma_ascii_is_bounded(rest, index - width);
    }
}

/// Two strings with the same UTF-8 bytes hold the same characters.
pub proof fn lemma_same_bytes_same_text(a: Seq<char>, b: Seq<char>)
    requires
        encode_utf8(a) == encode_utf8(b),
    ensures
        a == b,
{
    encode_utf8_decode_utf8(a);
    encode_utf8_decode_utf8(b);
}

/// The bytes of `text` from `from` up to `to`, as a string of their own.
/// Both ends have to lie between characters.
pub fn substring(text: &str, from: usize, to: usize) -> (part: String)
    requires
        from <= to <= encode_utf8(text@).len(),
        is_char_boundary(encode_utf8(text@), from as int),
        is_char_boundary(encode_utf8(text@), to as int),
    ensures
        encode_utf8(part@) == encode_utf8(text@).subrange(from as int, to as int),
{
    let (head, _) = text.split_at(to);
    proof {
        let bytes = text.spec_bytes();
        let prefix = head.spec_bytes();
        encode_utf8_valid_utf8(text@);
        encode_utf8_valid_utf8(head@);
        if from == to {
            is_char_boundary_start_end_of_seq(prefix);
        } else {
            is_char_boundary_iff_not_is_continuation_byte(bytes, from as int);
            is_char_boundary_iff_not_is_continuation_byte(prefix, from as int);
        }
    }
    let (_, part) = head.split_at(from);
    assert(part.spec_bytes() == text.spec_bytes().subrange(from as int, to as int));
    part.to_owned()
}

/// The character that writes the decimal digit `d`.
pub open spec fn digit_char(d: nat) -> char
    recommends
        d < 10,
{
    ((0x30 + d) as u8) as char
}

/// The decimal notation of `n`, without leading zeros.
pub open spec fn decimal(n: nat) -> Seq<char>
    decreases n,
{
    if n < 10 {
        seq![digit_char(n)]
    } else {
        decimal(n / 10).push(digit_char(n % 10))
    }
}

/// Appends the decimal notation of `n` to `text`.
pub fn push_decimal(text: &mut String, n: usize)
    ensures
        final(text)@ == old(text)@ + decimal(n as nat),
    decreases n,
{
    if n >= 10 {
        push_decimal(text, n / 10);
    }
    let d: u8 = (n % 10) as u8;
    text.push((0x30 + d) as char);
    assert(text@ == old(text)@ + decimal(n as nat)) by {
        if n >= 10 {
            assert(old(text)@ + decimal(n as nat / 10).push(digit_char(n as nat % 10)) =~= (old(
                text,
            )@ + decimal(n as nat / 10)).push(digit_char(n as nat % 10)));
        }
    }
}

/// A source position as it appears in messages: line, colon, column.
pub open spec fn position_text(line: usize, column: usize) -> Seq<char> {
    decimal(line as nat) + seq![':'] + decimal(column as nat)
}

/// Appends a source position to `text`.
pub fn push_position(text: &mut String, line: usize, column: usize)
    ensures
        final(text)@ == old(text)@ + position_text(line, column),
{
    push_decimal(text, line);
    text.push(':');
    push_decimal(text, column);
    assert(text@ =~= old(text)@ + position_text(line, column));
}

/// Appends to `text` the character whose code is `byte`.
pub fn push_byte(text: &mut String, byte: u8)
    ensures
        final(text)@ == old(text)@.push(byte as char),
{
    text.push(byte as char);
}

} // verus!
