//! The grammar of values: which value a sequence of tokens spells.
//!
//! ```text
//! value      := object | array | literal
//! object     := '{' ( property (',' property)* [','] )? '}'
//! property   := identifier ':' value
//! identifier := Identifier | String
//! array      := '[' ( value (',' value)* [','] )? ']'
//! literal    := 'null' | 'true' | 'false' | String | Number
//! ```
//!
//! Each function reads the tokens from an offset on and gives what it read
//! together with the offset behind it, or the first fault.

use super::error::Fault;
use super::lexical::scan_text;
use super::tokens::{LiteralView, TokenType, TokenView};
use super::{Options, ValueView};
use vstd::prelude::*;

verus! {

/// The kind of the token at `pos`; behind the last token the text has ended.
pub open spec fn kind_at(tokens: Seq<TokenView>, pos: int) -> TokenType {
    if 0 <= pos < tokens.len() {
        tokens[pos].typ
    } else {
        TokenType::Eof
    }
}

/// How many tokens stand at or behind `pos`.
pub open spec fn remaining(tokens: Seq<TokenView>, pos: int) -> nat {
    if 0 <= pos <= tokens.len() {
        (tokens.len() - pos) as nat
    } else {
        0
    }
}

/// The literal that the token at `pos` spells.
pub open spec fn literal_at(tokens: Seq<TokenView>, pos: int) -> Result<(ValueView, int), Fault> {
    match kind_at(tokens, pos) {
        TokenType::Null => Ok((ValueView::Literal(LiteralView::Null), pos + 1)),
        TokenType::True => Ok((ValueView::Literal(LiteralView::True), pos + 1)),
        TokenType::False => Ok((ValueView::Literal(LiteralView::False), pos + 1)),
        TokenType::String => match tokens[pos].literal {
            Some(LiteralView::String(text)) => Ok(
                (ValueView::Literal(LiteralView::String(text)), pos + 1),
            ),
            _ => Err(Fault::ExpectedValue),
        },
        TokenType::Number => match tokens[pos].literal {
            Some(LiteralView::Number(text)) => Ok(
                (ValueView::Literal(LiteralView::Number(text)), pos + 1),
            ),
            _ => Err(Fault::ExpectedValue),
        },
        _ => Err(Fault::ExpectedValue),
    }
}

/// The key that the token at `pos` spells: the name of an identifier, or
/// the content of a string.
pub open spec fn key_at(tokens: Seq<TokenView>, pos: int) -> Result<Seq<u8>, Fault> {
    match kind_at(tokens, pos) {
        TokenType::Identifier => Ok(tokens[pos].lexeme),
        TokenType::String => match tokens[pos].literal {
            Some(LiteralView::String(text)) => Ok(text),
            _ => Err(Fault::ExpectedKey),
        },
        _ => Err(Fault::ExpectedKey),
    }
}

/// Whether one of `properties` has the key `key`.
pub open spec fn has_key(properties: Seq<(Seq<u8>, ValueView)>, key: Seq<u8>) -> bool {
    exists|i: int| 0 <= i < properties.len() && (#[trigger] properties[i]).0 == key
}

/// How a list of elements ends at `pos`, where `close` or the end of the
/// text stands: a comma left open is a fault unless trailing commas are
/// allowed, and so is a missing `close`.
pub open spec fn closing_at(
    tokens: Seq<TokenView>,
    options: Options,
    pos: int,
    close: TokenType,
    had_comma: bool,
    unclosed: Fault,
) -> Result<int, Fault> {
    if had_comma && !options.allow_trailing_comma {
        Err(Fault::TrailingComma)
    } else if kind_at(tokens, pos) == close {
        Ok(pos + 1)
    } else {
        Err(unclosed)
    }
}

/// Whether a list of elements goes on at `pos`: neither `close` nor the end
/// of the text stands there.
pub open spec fn goes_on(tokens: Seq<TokenView>, pos: int, close: TokenType) -> bool {
    kind_at(tokens, pos) != close && kind_at(tokens, pos) != TokenType::Eof
}

/// The value that starts at `pos`.
pub open spec fn value_at(tokens: Seq<TokenView>, options: Options, pos: int) -> Result<
    (ValueView, int),
    Fault,
>
    decreases remaining(tokens, pos), 0nat,
{
    match kind_at(tokens, pos) {
        TokenType::LeftBrace => members_from(tokens, options, pos + 1, Seq::empty(), false),
        TokenType::LeftSquareBracket => elements_from(
            tokens,
            options,
            pos + 1,
            Seq::empty(),
            false,
        ),
        _ => literal_at(tokens, pos),
    }
}

/// The array whose first values are `items` and whose further values start
/// at `pos`; `had_comma` says whether a comma stands directly before `pos`.
pub open spec fn elements_from(
    tokens: Seq<TokenView>,
    options: Options,
    pos: int,
    items: Seq<ValueView>,
    had_comma: bool,
) -> Result<(ValueView, int), Fault>
    decreases remaining(tokens, pos), 1nat,
{
    if !goes_on(tokens, pos, TokenType::RightSquareBracket) {
        match closing_at(
            tokens,
            options,
            pos,
            TokenType::RightSquareBracket,
            had_comma,
            Fault::UnclosedArray,
        ) {
            Ok(next) => Ok((ValueView::Array(items), next)),
            Err(fault) => Err(fault),
        }
    } else if items.len() > 0 && !had_comma {
        Err(Fault::MissingCommaInArray)
    } else {
        match value_at(tokens, options, pos) {
            Err(fault) => Err(fault),
            Ok((value, next)) => if next <= pos {
                // a value spans at least one token
                Err(Fault::ExpectedValue)
            } else if kind_at(tokens, next) == TokenType::Comma {
                elements_from(tokens, options, next + 1, items.push(value), true)
            } else {
                elements_from(tokens, options, next, items.push(value), false)
            },
        }
    }
}

/// The property that starts at `pos`: its key, its value and the offset
/// behind it.
pub open spec fn property_at(tokens: Seq<TokenView>, options: Options, pos: int) -> Result<
    (Seq<u8>, ValueView, int),
    Fault,
>
    decreases remaining(tokens, pos), 1nat,
{
    match key_at(tokens, pos) {
        Err(fault) => Err(fault),
        Ok(key) => if kind_at(tokens, pos + 1) != TokenType::Colon {
            Err(Fault::ExpectedColon)
        } else {
            match value_at(tokens, options, pos + 2) {
                Err(fault) => Err(fault),
                Ok((value, next)) => Ok((key, value, next)),
            }
        },
    }
}

/// The object whose first properties are `properties` and whose further
/// properties start at `pos`; `had_comma` says whether a comma stands
/// directly before `pos`.
pub open spec fn members_from(
    tokens: Seq<TokenView>,
    options: Options,
    pos: int,
    properties: Seq<(Seq<u8>, ValueView)>,
    had_comma: bool,
) -> Result<(ValueView, int), Fault>
    decreases remaining(tokens, pos), 2nat,
{
    if !goes_on(tokens, pos, TokenType::RightBrace) {
        match closing_at(
            tokens,
            options,
            pos,
            TokenType::RightBrace,
            had_comma,
            Fault::UnclosedObject,
        ) {
            Ok(next) => Ok((ValueView::Object(properties), next)),
            Err(fault) => Err(fault),
        }
    } else if properties.len() > 0 && !had_comma {
        Err(
            Fault::MissingCommaInObject {
                line: tokens[pos - 1].line,
                column: tokens[pos - 1].column,
            },
        )
    } else {
        match property_at(tokens, options, pos) {
            Err(fault) => Err(fault),
            Ok((key, value, next)) => if next <= pos {
                // a property spans at least three tokens
                Err(Fault::ExpectedValue)
            } else if has_key(properties, key) {
                Err(Fault::DuplicateKey { key })
            } else if kind_at(tokens, next) == TokenType::Comma {
                members_from(tokens, options, next + 1, properties.push((key, value)), true)
            } else {
                members_from(tokens, options, next, properties.push((key, value)), false)
            },
        }
    }
}

/// The value that a whole text spells: the first value of its tokens.
pub open spec fn parse_text(source: Seq<u8>, options: Options) -> Result<ValueView, Fault> {
    match scan_text(source, options) {
        Err(fault) => Err(fault),
        Ok(tokens) => match value_at(tokens, options, 0) {
            Err(fault) => Err(fault),
            Ok((value, _)) => Ok(value),
        },
    }
}

} // verus!
