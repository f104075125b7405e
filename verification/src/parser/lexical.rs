//! The lexical grammar: which tokens a text consists of.
//!
//! A text is read from left to right. At each offset at which a token may
//! start, [`step`] says what stands there: something to skip, a token, or a
//! fault. [`tokens_from`] follows the steps to the end of the text.

use super::error::Fault;
use super::position::{clip, column_at, line_at};
use super::tokens::{keyword, LiteralView, TokenType, TokenView};
use super::utils::{
    alpha, alphanumeric, digit, BACKSLASH, CARRIAGE_RETURN, COLON, COMMA, DOT, DOUBLE_QUOTE,
    LEFT_BRACE, LEFT_SQUARE_BRACKET, LOWER_E, MINUS, NEWLINE, PLUS, RIGHT_BRACE,
    RIGHT_SQUARE_BRACKET, SINGLE_QUOTE, SLASH, SPACE, STAR, TAB, UPPER_E,
};
use super::Options;
use vstd::prelude::*;

verus! {

/// The byte at `offset`, and zero where the text has none.
pub open spec fn byte_at(source: Seq<u8>, offset: int) -> u8 {
    if 0 <= offset < source.len() {
        source[offset]
    } else {
        0
    }
}

/// The end of the longest run of digits that starts at `pos`.
pub open spec fn digits_end(source: Seq<u8>, pos: int) -> int
    decreases source.len() - pos,
{
    if 0 <= pos < source.len() && digit(source[pos]) {
        digits_end(source, pos + 1)
    } else {
        pos
    }
}

/// The end of the longest run of letters, digits and underscores that starts
/// at `pos`.
pub open spec fn word_end(source: Seq<u8>, pos: int) -> int
    decreases source.len() - pos,
{
    if 0 <= pos < source.len() && alphanumeric(source[pos]) {
        word_end(source, pos + 1)
    } else {
        pos
    }
}

/// The offset of the first newline at or after `pos`, or the end of the text.
pub open spec fn line_end(source: Seq<u8>, pos: int) -> int
    decreases source.len() - pos,
{
    if 0 <= pos < source.len() && source[pos] != NEWLINE {
        line_end(source, pos + 1)
    } else {
        pos
    }
}

/// The offset of the quote that closes a string: the first `quote` at or
/// after `pos` that no backslash stands directly before.
pub open spec fn closing_quote(source: Seq<u8>, pos: int, quote: u8) -> Option<int>
    decreases source.len() - pos,
{
    if pos < 1 || pos >= source.len() {
        None
    } else if source[pos] == quote && source[pos - 1] != BACKSLASH {
        Some(pos)
    } else {
        closing_quote(source, pos + 1, quote)
    }
}

/// Whether the two bytes `first`, `second` stand at `pos`.
pub open spec fn pair_at(source: Seq<u8>, pos: int, first: u8, second: u8) -> bool {
    0 <= pos && pos + 1 < source.len() && source[pos] == first && source[pos + 1] == second
}

/// The offset just behind a block comment, seen from `pos` inside it, with
/// `depth` comments open there. Each `*/` closes one comment and each `/*`
/// opens one more; the slash of an opener is passed alone, so that its star
/// may close a comment again. `None` where the text ends first.
pub open spec fn block_comment_end(source: Seq<u8>, pos: int, depth: nat) -> Option<int>
    decreases source.len() - pos,
{
    if pos < 0 || pos >= source.len() {
        None
    } else if pair_at(source, pos, STAR, SLASH) {
        if depth <= 1 {
            Some(pos + 2)
        } else {
            block_comment_end(source, pos + 2, (depth - 1) as nat)
        }
    } else if pair_at(source, pos, SLASH, STAR) {
        block_comment_end(source, pos + 1, depth + 1)
    } else {
        block_comment_end(source, pos + 1, depth)
    }
}

/// Where the digits before the point start in the number at `pos`: behind
/// its sign, if it has one.
pub open spec fn integer_start(source: Seq<u8>, pos: int) -> int {
    if byte_at(source, pos) == MINUS {
        pos + 1
    } else {
        pos
    }
}

/// Where the digits before the point end in the number at `pos`.
pub open spec fn integer_end(source: Seq<u8>, pos: int) -> int {
    digits_end(source, integer_start(source, pos))
}

/// Where the fraction ends in the number at `pos`. A point belongs to the
/// number only if a digit follows it.
pub open spec fn fraction_end(source: Seq<u8>, pos: int) -> int {
    let end = integer_end(source, pos);
    if byte_at(source, end) == DOT && digit(byte_at(source, end + 1)) {
        digits_end(source, end + 1)
    } else {
        end
    }
}

/// Whether the number at `pos` has an exponent mark.
pub open spec fn has_exponent(source: Seq<u8>, pos: int) -> bool {
    let mark = byte_at(source, fraction_end(source, pos));
    mark == LOWER_E || mark == UPPER_E
}

/// Where the digits of the exponent start in the number at `pos`: behind the
/// mark and its sign.
pub open spec fn exponent_start(source: Seq<u8>, pos: int) -> int {
    let mark = fraction_end(source, pos);
    let sign = byte_at(source, mark + 1);
    if sign == PLUS || sign == MINUS {
        mark + 2
    } else {
        mark + 1
    }
}

/// Where the number at `pos` ends.
pub open spec fn number_end(source: Seq<u8>, pos: int) -> int {
    if has_exponent(source, pos) {
        digits_end(source, exponent_start(source, pos))
    } else {
        fraction_end(source, pos)
    }
}

/// Whether the number at `pos` has the digits it needs: at least one before
/// the point and, where it has an exponent mark, at least one behind it.
pub open spec fn number_is_complete(source: Seq<u8>, pos: int) -> bool {
    &&& integer_start(source, pos) < integer_end(source, pos)
    &&& has_exponent(source, pos) ==> exponent_start(source, pos) < number_end(source, pos)
}

/// What stands at an offset at which a token may start.
pub enum Step {
    /// White space or a comment, up to `end`.
    Skip { end: int },
    /// A token, up to `end`.
    Emit { typ: TokenType, end: int, literal: Option<LiteralView> },
    /// Nothing that the grammar allows.
    Fail { fault: Fault },
}

/// The line of `offset` as a token records it.
pub open spec fn line_of(source: Seq<u8>, offset: int) -> usize {
    clip(line_at(source, offset))
}

/// The column of `offset` as a token records it.
pub open spec fn column_of(source: Seq<u8>, options: Options, offset: int) -> usize {
    clip(column_at(source, offset, options.tab_width))
}

/// What stands at `pos` when comments are switched on and a slash is there.
pub open spec fn comment_step(source: Seq<u8>, options: Options, pos: int) -> Step {
    if byte_at(source, pos + 1) == SLASH {
        Step::Skip { end: line_end(source, pos + 2) }
    } else if byte_at(source, pos + 1) == STAR {
        match block_comment_end(source, pos + 2, 1) {
            Some(end) => Step::Skip { end },
            None => Step::Fail {
                fault: Fault::UnterminatedComment {
                    line: line_of(source, pos),
                    column: column_of(source, options, pos),
                },
            },
        }
    } else {
        Step::Fail {
            fault: Fault::UnexpectedToken {
                byte: SLASH,
                line: line_of(source, pos),
                column: column_of(source, options, pos),
            },
        }
    }
}

/// What stands at `pos` when a quote opens a string there.
pub open spec fn string_step(source: Seq<u8>, options: Options, pos: int) -> Step {
    match closing_quote(source, pos + 1, source[pos]) {
        Some(close) => Step::Emit {
            typ: TokenType::String,
            end: close + 1,
            literal: Some(LiteralView::String(source.subrange(pos + 1, close))),
        },
        None => Step::Fail {
            fault: Fault::UnclosedQuote {
                quote: source[pos],
                line: line_of(source, pos),
                column: column_of(source, options, pos),
            },
        },
    }
}

/// What stands at `pos` when a digit or a minus sign is there.
pub open spec fn number_step(source: Seq<u8>, options: Options, pos: int) -> Step {
    if number_is_complete(source, pos) {
        Step::Emit {
            typ: TokenType::Number,
            end: number_end(source, pos),
            literal: Some(LiteralView::Number(source.subrange(pos, number_end(source, pos)))),
        }
    } else {
        Step::Fail {
            fault: Fault::MalformedNumber {
                line: line_of(source, pos),
                column: column_of(source, options, pos),
            },
        }
    }
}

/// What stands at `pos` when a letter or an underscore is there.
pub open spec fn word_step(source: Seq<u8>, options: Options, pos: int) -> Step {
    let end = word_end(source, pos);
    let word = source.subrange(pos, end);
    match keyword(word) {
        Some(typ) => Step::Emit { typ, end, literal: None },
        None => if options.allow_unquoted_identifier {
            Step::Emit { typ: TokenType::Identifier, end, literal: None }
        } else {
            Step::Fail {
                fault: Fault::UnquotedIdentifier {
                    name: word,
                    line: line_of(source, pos),
                    column: column_of(source, options, pos),
                },
            }
        },
    }
}

/// The kind of the token that the single byte `c` is, if it is one.
pub open spec fn punctuation(c: u8) -> Option<TokenType> {
    if c == LEFT_BRACE {
        Some(TokenType::LeftBrace)
    } else if c == RIGHT_BRACE {
        Some(TokenType::RightBrace)
    } else if c == COLON {
        Some(TokenType::Colon)
    } else if c == COMMA {
        Some(TokenType::Comma)
    } else if c == LEFT_SQUARE_BRACKET {
        Some(TokenType::LeftSquareBracket)
    } else if c == RIGHT_SQUARE_BRACKET {
        Some(TokenType::RightSquareBracket)
    } else {
        None
    }
}

/// Whether `c` is white space.
pub open spec fn blank(c: u8) -> bool {
    c == NEWLINE || c == SPACE || c == CARRIAGE_RETURN || c == TAB
}

/// Whether `c` opens a string under `options`.
pub open spec fn opens_string(c: u8, options: Options) -> bool {
    c == DOUBLE_QUOTE || (c == SINGLE_QUOTE && options.allow_single_quotes)
}

/// What stands at `pos`, an offset inside the text at which a token may
/// start.
pub open spec fn step(source: Seq<u8>, options: Options, pos: int) -> Step
    recommends
        0 <= pos < source.len(),
{
    let c = source[pos];
    if punctuation(c) is Some {
        Step::Emit { typ: punctuation(c)->0, end: pos + 1, literal: None }
    } else if c == SLASH && options.allow_comments {
        comment_step(source, options, pos)
    } else if opens_string(c, options) {
        string_step(source, options, pos)
    } else if blank(c) {
        Step::Skip { end: pos + 1 }
    } else if digit(c) || c == MINUS {
        number_step(source, options, pos)
    } else if alpha(c) {
        word_step(source, options, pos)
    } else {
        Step::Fail {
            fault: Fault::UnexpectedToken {
                byte: c,
                line: line_of(source, pos),
                column: column_of(source, options, pos),
            },
        }
    }
}

/// The token of kind `typ` that spans the bytes from `start` to `end`.
pub open spec fn token_at(
    source: Seq<u8>,
    options: Options,
    start: int,
    end: int,
    typ: TokenType,
    literal: Option<LiteralView>,
) -> TokenView {
    TokenView {
        typ,
        lexeme: source.subrange(start, end),
        line: line_of(source, start),
        column: column_of(source, options, start),
        literal,
    }
}

/// The token that marks the end of the text.
pub open spec fn end_of_input(source: Seq<u8>, options: Options) -> TokenView {
    TokenView {
        typ: TokenType::Eof,
        lexeme: seq![0u8],
        line: line_of(source, source.len() as int),
        column: column_of(source, options, source.len() as int),
        literal: None,
    }
}

/// `tokens` in front of what a scan of the rest gave.
pub open spec fn prepend(tokens: Seq<TokenView>, rest: Result<Seq<TokenView>, Fault>) -> Result<
    Seq<TokenView>,
    Fault,
> {
    match rest {
        Ok(more) => Ok(tokens + more),
        Err(fault) => Err(fault),
    }
}

/// The tokens of the text from `pos` on, the end token last, or the first
/// fault met.
pub open spec fn tokens_from(source: Seq<u8>, options: Options, pos: int) -> Result<
    Seq<TokenView>,
    Fault,
>
    decreases source.len() - pos,
    via tokens_from_decreases
{
    if pos < 0 || pos >= source.len() {
        Ok(seq![end_of_input(source, options)])
    } else {
        match step(source, options, pos) {
            Step::Skip { end } => tokens_from(source, options, end),
            Step::Emit { typ, end, literal } => prepend(
                seq![token_at(source, options, pos, end, typ, literal)],
                tokens_from(source, options, end),
            ),
            Step::Fail { fault } => Err(fault),
        }
    }
}

#[via_fn]
proof fn tokens_from_decreases(source: Seq<u8>, options: Options, pos: int) {
    if 0 <= pos < source.len() {
        lemma_step_advances(source, options, pos);
    }
}

/// The tokens of a whole text.
pub open spec fn scan_text(source: Seq<u8>, options: Options) -> Result<Seq<TokenView>, Fault> {
    tokens_from(source, options, 0)
}

/// A scan that succeeds gives exactly one token that marks the end of the
/// text, and gives it last.
pub proof fn lemma_tokens_end(source: Seq<u8>, options: Options, pos: int)
    ensures
        tokens_from(source, options, pos) matches Ok(tokens) ==> {
            &&& tokens.len() > 0
            &&& tokens.last().typ == TokenType::Eof
            &&& forall|i: int|
                0 <= i < tokens.len() - 1 ==> (#[trigger] tokens[i]).typ != TokenType::Eof
        },
    decreases source.len() - pos,
{
    if 0 <= pos < source.len() {
        lemma_step_advances(source, options, pos);
        match step(source, options, pos) {
            Step::Skip { end } => lemma_tokens_end(source, options, end),
            Step::Emit { end, .. } => lemma_tokens_end(source, options, end),
            Step::Fail { .. } => {},
        }
    }
}

/// A run of digits ends inside the text, at the first byte that is no digit.
pub proof fn lemma_digits_end_bounds(source: Seq<u8>, pos: int)
    requires
        0 <= pos <= source.len(),
    ensures
        pos <= digits_end(source, pos) <= source.len(),
        digits_end(source, pos) > pos <==> digit(byte_at(source, pos)),
        !digit(byte_at(source, digits_end(source, pos))),
        forall|i: int| pos <= i < digits_end(source, pos) ==> digit(#[trigger] source[i]),
    decreases source.len() - pos,
{
    if pos < source.len() && digit(source[pos]) {
        lemma_digits_end_bounds(source, pos + 1);
    }
}

/// A word ends inside the text, and all its bytes are letters, digits or
/// underscores.
pub proof fn lemma_word_end_bounds(source: Seq<u8>, pos: int)
    requires
        0 <= pos <= source.len(),
    ensures
        pos <= word_end(source, pos) <= source.len(),
        word_end(source, pos) > pos <==> alphanumeric(byte_at(source, pos)),
        forall|i: int| pos <= i < word_end(source, pos) ==> alphanumeric(#[trigger] source[i]),
    decreases source.len() - pos,
{
    if pos < source.len() && alphanumeric(source[pos]) {
        lemma_word_end_bounds(source, pos + 1);
    }
}

/// A line ends inside the text.
pub proof fn lemma_line_end_bounds(source: Seq<u8>, pos: int)
    requires
        0 <= pos <= source.len(),
    ensures
        pos <= line_end(source, pos) <= source.len(),
    decreases source.len() - pos,
{
    if pos < source.len() && source[pos] != NEWLINE {
        lemma_line_end_bounds(source, pos + 1);
    }
}

/// The quote that closes a string stands inside the text.
pub proof fn lemma_closing_quote_bounds(source: Seq<u8>, pos: int, quote: u8)
    requires
        1 <= pos,
    ensures
        closing_quote(source, pos, quote) matches Some(close) ==> pos <= close < source.len()
            && source[close] == quote,
    decreases source.len() - pos,
{
    if pos < source.len() && !(source[pos] == quote && source[pos - 1] != BACKSLASH) {
        lemma_closing_quote_bounds(source, pos + 1, quote);
    }
}

/// A block comment ends inside the text, behind a slash.
pub proof fn lemma_block_comment_end_bounds(source: Seq<u8>, pos: int, depth: nat)
    requires
        0 <= pos,
    ensures
        block_comment_end(source, pos, depth) matches Some(end) ==> pos + 2 <= end
            <= source.len() && source[end - 1] == SLASH,
    decreases source.len() - pos,
{
    if pos < source.len() {
        if pair_at(source, pos, STAR, SLASH) {
            if depth > 1 {
                lemma_block_comment_end_bounds(source, pos + 2, (depth - 1) as nat);
            }
        } else if pair_at(source, pos, SLASH, STAR) {
            lemma_block_comment_end_bounds(source, pos + 1, depth + 1);
        } else {
            lemma_block_comment_end_bounds(source, pos + 1, depth);
        }
    }
}

/// The parts of a number follow each other inside the text, and a complete
/// number ends in a digit.
pub proof fn lemma_number_bounds(source: Seq<u8>, pos: int)
    requires
        0 <= pos < source.len(),
    ensures
        pos <= integer_start(source, pos) <= integer_end(source, pos) <= fraction_end(
            source,
            pos,
        ) <= number_end(source, pos) <= source.len(),
        has_exponent(source, pos) ==> fraction_end(source, pos) < exponent_start(source, pos)
            <= number_end(source, pos),
        number_is_complete(source, pos) ==> pos < number_end(source, pos) && digit(
            source[number_end(source, pos) - 1],
        ),
{
    lemma_digits_end_bounds(source, integer_start(source, pos));
    let end = integer_end(source, pos);
    if byte_at(source, end) == DOT && digit(byte_at(source, end + 1)) {
        lemma_digits_end_bounds(source, end + 1);
    }
    if has_exponent(source, pos) {
        lemma_digits_end_bounds(source, exponent_start(source, pos));
    }
}

/// Every step that does not fail ends behind its start and inside the text.
pub proof fn lemma_step_advances(source: Seq<u8>, options: Options, pos: int)
    requires
        0 <= pos < source.len(),
    ensures
        match step(source, options, pos) {
            Step::Skip { end } => pos < end <= source.len(),
            Step::Emit { end, .. } => pos < end <= source.len(),
            Step::Fail { .. } => true,
        },
{
    if pos + 2 <= source.len() {
        lemma_line_end_bounds(source, pos + 2);
    }
    lemma_block_comment_end_bounds(source, pos + 2, 1);
    lemma_closing_quote_bounds(source, pos + 1, source[pos]);
    lemma_number_bounds(source, pos);
    lemma_word_end_bounds(source, pos);
}

} // verus!
