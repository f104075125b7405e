//! What holds of every text: laws of the grammar, proved from its
//! definition.

use super::error::Fault;
use super::lexical::{
    block_comment_end, byte_at, closing_quote, column_of, digits_end, end_of_input,
    exponent_start, fraction_end, has_exponent, integer_end, integer_start,
    lemma_closing_quote_bounds, lemma_digits_end_bounds, lemma_number_bounds, lemma_step_advances,
    line_of, number_end, number_is_complete, opens_string, pair_at, scan_text, step, token_at,
    tokens_from, word_end, Step,
};
use super::position::{column_at, line_at};
use super::syntax::{
    elements_from, goes_on, has_key, kind_at, members_from, parse_text, property_at, remaining,
    value_at,
};
use super::tokens::{
    all_tokens_well_formed, false_text, is_digits, is_exponent, is_fraction, is_number, is_sign, keyword, null_text,
    number_text, true_text, LiteralView, TokenType, TokenView,
};
use super::utils::{
    alpha, digit, BACKSLASH, DOT, DOUBLE_QUOTE, LOWER_E, MINUS, PLUS, SINGLE_QUOTE, SLASH, STAR,
    UPPER_E,
};
use super::{distinct_keys, permissive, strict, Options, ValueView};
use vstd::prelude::*;
use vstd::string::*;
use vstd::utf8::*;

verus! {

/// The strict preset switches all four relaxations off, the permissive
/// preset switches all four on, and both give a tab the same width.
pub proof fn presets()
    ensures
        !strict().allow_unquoted_identifier && !strict().allow_trailing_comma
            && !strict().allow_single_quotes && !strict().allow_comments,
        permissive().allow_unquoted_identifier && permissive().allow_trailing_comma
            && permissive().allow_single_quotes && permissive().allow_comments,
        strict().tab_width == permissive().tab_width,
{
}

/// A slash starts a comment only where comments are switched on: where they
/// are off, a slash at the start of a token is a fault.
pub proof fn comments_are_gated(source: Seq<u8>, options: Options, pos: int)
    requires
        0 <= pos < source.len(),
        source[pos] == SLASH,
        !options.allow_comments,
    ensures
        step(source, options, pos) == (Step::Fail {
            fault: Fault::UnexpectedToken {
                byte: SLASH,
                line: line_of(source, pos),
                column: column_of(source, options, pos),
            },
        }),
{
}

/// A single quote opens a string only where single quotes are switched on:
/// where they are off, a single quote at the start of a token is a fault.
pub proof fn single_quotes_are_gated(source: Seq<u8>, options: Options, pos: int)
    requires
        0 <= pos < source.len(),
        source[pos] == SINGLE_QUOTE,
        !options.allow_single_quotes,
    ensures
        step(source, options, pos) == (Step::Fail {
            fault: Fault::UnexpectedToken {
                byte: SINGLE_QUOTE,
                line: line_of(source, pos),
                column: column_of(source, options, pos),
            },
        }),
{
}

/// A word that is no keyword is an identifier where identifiers are switched
/// on, and a fault where they are off.
pub proof fn identifiers_are_gated(source: Seq<u8>, options: Options, pos: int)
    requires
        0 <= pos < source.len(),
        alpha(source[pos]),
        keyword(source.subrange(pos, word_end(source, pos))) is None,
    ensures
        options.allow_unquoted_identifier ==> step(source, options, pos) == (Step::Emit {
            typ: TokenType::Identifier,
            end: word_end(source, pos),
            literal: None,
        }),
        !options.allow_unquoted_identifier ==> step(source, options, pos) == (Step::Fail {
            fault: Fault::UnquotedIdentifier {
                name: source.subrange(pos, word_end(source, pos)),
                line: line_of(source, pos),
                column: column_of(source, options, pos),
            },
        }),
{
}

/// A comma directly before the closing bracket of an array or the closing
/// brace of an object is accepted where trailing commas are switched on, and
/// a fault where they are off.
pub proof fn trailing_commas_are_gated(
    tokens: Seq<TokenView>,
    options: Options,
    pos: int,
    items: Seq<ValueView>,
    properties: Seq<(Seq<u8>, ValueView)>,
)
    ensures
        kind_at(tokens, pos) == TokenType::RightSquareBracket ==> elements_from(
            tokens,
            options,
            pos,
            items,
            true,
        ) == if options.allow_trailing_comma {
            Ok::<(ValueView, int), Fault>((ValueView::Array(items), pos + 1))
        } else {
            Err::<(ValueView, int), Fault>(Fault::TrailingComma)
        },
        kind_at(tokens, pos) == TokenType::RightBrace ==> members_from(
            tokens,
            options,
            pos,
            properties,
            true,
        ) == if options.allow_trailing_comma {
            Ok::<(ValueView, int), Fault>((ValueView::Object(properties), pos + 1))
        } else {
            Err::<(ValueView, int), Fault>(Fault::TrailingComma)
        },
{
}

/// A property whose key the object already has is a fault: a second
/// occurrence of a key is rejected, it never replaces the first.
pub proof fn duplicate_keys_are_rejected(
    tokens: Seq<TokenView>,
    options: Options,
    pos: int,
    properties: Seq<(Seq<u8>, ValueView)>,
    had_comma: bool,
)
    requires
        goes_on(tokens, pos, TokenType::RightBrace),
        properties.len() == 0 || had_comma,
        property_at(tokens, options, pos) matches Ok((key, _, _)) && has_key(properties, key),
    ensures
        members_from(tokens, options, pos, properties, had_comma) == Err::<
            (ValueView, int),
            Fault,
        >(Fault::DuplicateKey { key: property_at(tokens, options, pos)->Ok_0.0 }),
{
    value_spans_tokens(tokens, options, pos);
}

/// Behind the first value of an array and the first property of an object,
/// each further one needs a comma before it.
pub proof fn separators_are_required(
    tokens: Seq<TokenView>,
    options: Options,
    pos: int,
    items: Seq<ValueView>,
    properties: Seq<(Seq<u8>, ValueView)>,
)
    ensures
        goes_on(tokens, pos, TokenType::RightSquareBracket) && items.len() > 0 ==> elements_from(
            tokens,
            options,
            pos,
            items,
            false,
        ) == Err::<(ValueView, int), Fault>(Fault::MissingCommaInArray),
        goes_on(tokens, pos, TokenType::RightBrace) && properties.len() > 0 ==> members_from(
            tokens,
            options,
            pos,
            properties,
            false,
        ) == Err::<(ValueView, int), Fault>(
            Fault::MissingCommaInObject {
                line: tokens[pos - 1].line,
                column: tokens[pos - 1].column,
            },
        ),
{
}

/// A text that ends inside a string, a block comment, an array or an object
/// has no value: scanning or parsing it fails.
pub proof fn unterminated_input_fails(
    source: Seq<u8>,
    tokens: Seq<TokenView>,
    options: Options,
    pos: int,
    items: Seq<ValueView>,
    properties: Seq<(Seq<u8>, ValueView)>,
    had_comma: bool,
)
    ensures
        0 <= pos < source.len() && opens_string(source[pos], options) && closing_quote(
            source,
            pos + 1,
            source[pos],
        ) is None ==> step(source, options, pos) is Fail,
        0 <= pos < source.len() && options.allow_comments && pair_at(source, pos, SLASH, STAR)
            && block_comment_end(source, pos + 2, 1) is None ==> step(source, options, pos)
            is Fail,
        0 <= pos < source.len() && step(source, options, pos) is Fail ==> tokens_from(
            source,
            options,
            pos,
        ) is Err,
        kind_at(tokens, pos) == TokenType::Eof ==> {
            &&& value_at(tokens, options, pos) is Err
            &&& elements_from(tokens, options, pos, items, had_comma) is Err
            &&& members_from(tokens, options, pos, properties, had_comma) is Err
        },
{
}

/// Whether `more` allows every relaxation that `fewer` allows, and gives a
/// tab the same width.
pub open spec fn allows_more(more: Options, fewer: Options) -> bool {
    &&& fewer.allow_unquoted_identifier ==> more.allow_unquoted_identifier
    &&& fewer.allow_trailing_comma ==> more.allow_trailing_comma
    &&& fewer.allow_single_quotes ==> more.allow_single_quotes
    &&& fewer.allow_comments ==> more.allow_comments
    &&& fewer.tab_width == more.tab_width
}

/// Relaxations only add: the tokens that a text has under some options, it
/// has under all options that allow more.
pub proof fn relaxations_keep_tokens(source: Seq<u8>, fewer: Options, more: Options, pos: int)
    requires
        allows_more(more, fewer),
        tokens_from(source, fewer, pos) is Ok,
    ensures
        tokens_from(source, more, pos) == tokens_from(source, fewer, pos),
    decreases source.len() - pos,
{
    if 0 <= pos < source.len() {
        lemma_step_advances(source, fewer, pos);
        assert(step(source, more, pos) == step(source, fewer, pos));
        match step(source, fewer, pos) {
            Step::Skip { end } => relaxations_keep_tokens(source, fewer, more, end),
            Step::Emit { end, .. } => relaxations_keep_tokens(source, fewer, more, end),
            Step::Fail { .. } => {},
        }
    }
}

/// Relaxations only add: the value that tokens spell under some options,
/// they spell under all options that allow more.
pub proof fn relaxations_keep_values(
    tokens: Seq<TokenView>,
    fewer: Options,
    more: Options,
    pos: int,
)
    requires
        allows_more(more, fewer),
        value_at(tokens, fewer, pos) is Ok,
    ensures
        value_at(tokens, more, pos) == value_at(tokens, fewer, pos),
    decreases remaining(tokens, pos), 0nat,
{
    match kind_at(tokens, pos) {
        TokenType::LeftBrace => relaxations_keep_members(
            tokens,
            fewer,
            more,
            pos + 1,
            Seq::empty(),
            false,
        ),
        TokenType::LeftSquareBracket => relaxations_keep_elements(
            tokens,
            fewer,
            more,
            pos + 1,
            Seq::empty(),
            false,
        ),
        _ => {},
    }
}

/// Relaxations only add, for the values of an array.
pub proof fn relaxations_keep_elements(
    tokens: Seq<TokenView>,
    fewer: Options,
    more: Options,
    pos: int,
    items: Seq<ValueView>,
    had_comma: bool,
)
    requires
        allows_more(more, fewer),
        elements_from(tokens, fewer, pos, items, had_comma) is Ok,
    ensures
        elements_from(tokens, more, pos, items, had_comma) == elements_from(
            tokens,
            fewer,
            pos,
            items,
            had_comma,
        ),
    decreases remaining(tokens, pos), 1nat,
{
    if goes_on(tokens, pos, TokenType::RightSquareBracket) {
        relaxations_keep_values(tokens, fewer, more, pos);
        if let Ok((value, next)) = value_at(tokens, fewer, pos) {
            if kind_at(tokens, next) == TokenType::Comma {
                relaxations_keep_elements(tokens, fewer, more, next + 1, items.push(value), true);
            } else {
                relaxations_keep_elements(tokens, fewer, more, next, items.push(value), false);
            }
        }
    }
}

/// Relaxations only add, for the properties of an object.
pub proof fn relaxations_keep_members(
    tokens: Seq<TokenView>,
    fewer: Options,
    more: Options,
    pos: int,
    properties: Seq<(Seq<u8>, ValueView)>,
    had_comma: bool,
)
    requires
        allows_more(more, fewer),
        members_from(tokens, fewer, pos, properties, had_comma) is Ok,
    ensures
        members_from(tokens, more, pos, properties, had_comma) == members_from(
            tokens,
            fewer,
            pos,
            properties,
            had_comma,
        ),
    decreases remaining(tokens, pos), 2nat,
{
    if goes_on(tokens, pos, TokenType::RightBrace) {
        if let Ok((key, value, next)) = property_at(tokens, fewer, pos) {
            relaxations_keep_values(tokens, fewer, more, pos + 2);
            assert(property_at(tokens, more, pos) == property_at(tokens, fewer, pos));
            if kind_at(tokens, next) == TokenType::Comma {
                relaxations_keep_members(
                    tokens,
                    fewer,
                    more,
                    next + 1,
                    properties.push((key, value)),
                    true,
                );
            } else {
                relaxations_keep_members(
                    tokens,
                    fewer,
                    more,
                    next,
                    properties.push((key, value)),
                    false,
                );
            }
        }
    }
}

/// Relaxations only add: a text that parses under some options parses to
/// the same value under all options that allow more. So all that the strict
/// preset accepts, the permissive preset accepts too.
pub proof fn relaxations_only_add(source: Seq<u8>, fewer: Options, more: Options)
    requires
        allows_more(more, fewer),
        parse_text(source, fewer) is Ok,
    ensures
        parse_text(source, more) == parse_text(source, fewer),
        allows_more(permissive(), strict()),
{
    relaxations_keep_tokens(source, fewer, more, 0);
    relaxations_keep_values(scan_text(source, fewer)->Ok_0, fewer, more, 0);
}

/// What the scanner takes for a number is written by the grammar
/// `[-]digits[.digits][(e|E)[+|-]digits]`.
pub proof fn numbers_follow_the_grammar(source: Seq<u8>, pos: int)
    requires
        0 <= pos < source.len(),
        digit(source[pos]) || source[pos] == MINUS,
        number_is_complete(source, pos),
    ensures
        is_number(source.subrange(pos, number_end(source, pos))),
{
    lemma_number_bounds(source, pos);
    let a = integer_start(source, pos);
    let b = integer_end(source, pos);
    let c = fraction_end(source, pos);
    let d = number_end(source, pos);
    let sign = source.subrange(pos, a);
    let whole = source.subrange(a, b);
    let fraction = source.subrange(b, c);
    let exponent = source.subrange(c, d);
    lemma_digits_end_bounds(source, a);
    assert(is_sign(sign)) by {
        if a > pos {
            assert(sign =~= seq![MINUS]);
        }
    }
    assert(is_digits(whole));
    assert(is_fraction(fraction)) by {
        if c > b {
            lemma_digits_end_bounds(source, b + 1);
            let digits = fraction.subrange(1, fraction.len() as int);
            assert forall|i: int| 0 <= i < digits.len() implies digit(#[trigger] digits[i]) by {
                assert(digits[i] == source[b + 1 + i]);
            }
        }
    }
    assert(is_exponent(exponent)) by {
        if has_exponent(source, pos) {
            let start = exponent_start(source, pos);
            lemma_digits_end_bounds(source, start);
            let digits = exponent.subrange(start - c, exponent.len() as int);
            assert forall|i: int| 0 <= i < digits.len() implies digit(#[trigger] digits[i]) by {
                assert(digits[i] == source[start + i]);
            }
            assert(exponent[0] == source[c]);
            if start == c + 2 {
                assert(exponent[1] == source[c + 1]);
            }
        }
    }
    assert(number_text(sign, whole, fraction, exponent) =~= source.subrange(pos, d));
}

/// Every token of a text is well formed: it carries the literal that its
/// kind asks for, and the text of a number is written by the grammar of
/// numbers.
pub proof fn tokens_are_well_formed(source: Seq<u8>, options: Options, pos: int)
    ensures
        tokens_from(source, options, pos) matches Ok(tokens) ==> all_tokens_well_formed(tokens),
    decreases source.len() - pos,
{
    if 0 <= pos < source.len() {
        lemma_step_advances(source, options, pos);
        match step(source, options, pos) {
            Step::Skip { end } => tokens_are_well_formed(source, options, end),
            Step::Emit { typ, end, literal } => {
                tokens_are_well_formed(source, options, end);
                let token = token_at(source, options, pos, end, typ, literal);
                if typ == TokenType::String {
                    lemma_closing_quote_bounds(source, pos + 1, source[pos]);
                    assert(token.lexeme.subrange(1, token.lexeme.len() - 1) =~= source.subrange(
                        pos + 1,
                        end - 1,
                    ));
                }
                if typ == TokenType::Number {
                    numbers_follow_the_grammar(source, pos);
                }
                assert(token.well_formed());
                if let Ok(rest) = tokens_from(source, options, end) {
                    let tokens = seq![token] + rest;
                    assert forall|i: int| 0 <= i < tokens.len() implies (
                    #[trigger] tokens[i]).well_formed() by {
                        if i > 0 {
                            assert(tokens[i] == rest[i - 1]);
                        }
                    }
                }
            },
            Step::Fail { .. } => {},
        }
    }
}

/// A text that is one token from its first byte to its last scans to that
/// token and the end token.
pub proof fn single_token(source: Seq<u8>, options: Options)
    requires
        source.len() > 0,
        step(source, options, 0) matches Step::Emit { end, .. } && end == source.len(),
    ensures
        scan_text(source, options) == Ok::<Seq<TokenView>, Fault>(
            seq![
                token_at(
                    source,
                    options,
                    0,
                    source.len() as int,
                    step(source, options, 0)->typ,
                    step(source, options, 0)->literal,
                ),
                end_of_input(source, options),
            ],
        ),
{
    reveal_with_fuel(tokens_from, 2);
    let token = token_at(
        source,
        options,
        0,
        source.len() as int,
        step(source, options, 0)->typ,
        step(source, options, 0)->literal,
    );
    assert(seq![token] + seq![end_of_input(source, options)] =~= seq![
        token,
        end_of_input(source, options),
    ]);
}

/// Each keyword, alone in a text, parses to its literal, whatever the
/// options; and the three texts are the bytes of `true`, `false` and `null`.
pub proof fn keywords_round_trip(options: Options)
    ensures
        parse_text(true_text(), options) == Ok::<ValueView, Fault>(
            ValueView::Literal(LiteralView::True),
        ),
        parse_text(false_text(), options) == Ok::<ValueView, Fault>(
            ValueView::Literal(LiteralView::False),
        ),
        parse_text(null_text(), options) == Ok::<ValueView, Fault>(
            ValueView::Literal(LiteralView::Null),
        ),
        encode_utf8("true"@) == true_text(),
        encode_utf8("false"@) == false_text(),
        encode_utf8("null"@) == null_text(),
{
    reveal_strlit("null");
    reveal_strlit("true");
    reveal_strlit("false");
    is_ascii_chars_encode_utf8("null"@);
    is_ascii_chars_encode_utf8("true"@);
    is_ascii_chars_encode_utf8("false"@);
    assert(encode_utf8("null"@) =~= null_text());
    assert(encode_utf8("true"@) =~= true_text());
    assert(encode_utf8("false"@) =~= false_text());
    reveal_with_fuel(word_end, 6);
    assert(true_text().subrange(0, 4) =~= true_text());
    assert(false_text().subrange(0, 5) =~= false_text());
    assert(null_text().subrange(0, 4) =~= null_text());
    single_token(true_text(), options);
    single_token(false_text(), options);
    single_token(null_text(), options);
}

/// Whether every `quote` in `content` stands directly behind a backslash,
/// and no backslash ends `content`.
pub open spec fn escapes_quotes(content: Seq<u8>, quote: u8) -> bool {
    &&& forall|i: int|
        0 <= i < content.len() && #[trigger] content[i] == quote ==> i > 0 && content[i - 1]
            == BACKSLASH
    &&& content.len() > 0 ==> content.last() != BACKSLASH
}

/// A text between two quotes, in which every quote of that kind is escaped
/// and which no backslash ends, parses to the string literal with exactly
/// that text.
pub proof fn strings_round_trip(content: Seq<u8>, quote: u8, options: Options)
    requires
        quote == DOUBLE_QUOTE || quote == SINGLE_QUOTE,
        opens_string(quote, options),
        escapes_quotes(content, quote),
    ensures
        parse_text(seq![quote] + content + seq![quote], options) == Ok::<ValueView, Fault>(
            ValueView::Literal(LiteralView::String(content)),
        ),
{
    let source = seq![quote] + content + seq![quote];
    let last = source.len() - 1;
    assert forall|i: int| 1 <= i < last implies !(#[trigger] source[i] == quote && source[i - 1]
        != BACKSLASH) by {
        assert(source[i] == content[i - 1]);
        if i > 1 {
            assert(source[i - 1] == content[i - 2]);
        }
    }
    assert(source[last] == quote);
    assert(source[last - 1] != BACKSLASH) by {
        if content.len() > 0 {
            assert(source[last - 1] == content.last());
        }
    }
    closing_quote_is_first(source, 1, last, quote);
    assert(source.subrange(1, last) =~= content);
    single_token(source, options);
}

/// The same for a text of ASCII characters: between two double quotes, with
/// every double quote in it escaped and no backslash at its end, it parses
/// to the string literal that holds exactly these characters.
pub proof fn ascii_strings_round_trip(content: Seq<char>, options: Options)
    requires
        is_ascii_chars(content),
        forall|i: int|
            0 <= i < content.len() && #[trigger] content[i] == '"' ==> i > 0 && content[i - 1]
                == '\\',
        content.len() > 0 ==> content.last() != '\\',
    ensures
        parse_text(encode_utf8(seq!['"'] + content + seq!['"']), options) == Ok::<
            ValueView,
            Fault,
        >(ValueView::Literal(LiteralView::String(encode_utf8(content)))),
{
    let text = seq!['"'] + content + seq!['"'];
    let bytes = encode_utf8(content);
    assert(is_ascii_chars(text)) by {
        assert forall|i: int| 0 <= i < text.len() implies '\0' <= #[trigger] text[i]
            <= '\u{7f}' by {
            if 0 < i < text.len() - 1 {
                assert(text[i] == content[i - 1]);
            }
        }
    }
    is_ascii_chars_encode_utf8(content);
    is_ascii_chars_encode_utf8(text);
    assert(encode_utf8(text) =~= seq![DOUBLE_QUOTE] + bytes + seq![DOUBLE_QUOTE]) by {
        assert forall|i: int| 0 <= i < text.len() implies encode_utf8(text)[i] == (seq![
            DOUBLE_QUOTE,
        ] + bytes + seq![DOUBLE_QUOTE])[i] by {
            assert(encode_utf8(text)[i] == text[i] as u8);
            if 0 < i < text.len() - 1 {
                assert(text[i] == content[i - 1]);
                assert(bytes[i - 1] == content[i - 1] as u8);
            }
        }
    }
    assert(escapes_quotes(bytes, DOUBLE_QUOTE)) by {
        assert forall|i: int| 0 <= i < bytes.len() && #[trigger] bytes[i] == DOUBLE_QUOTE implies i
            > 0 && bytes[i - 1] == BACKSLASH by {
            assert(bytes[i] == content[i] as u8);
            assert(content[i] == '"');
            assert(bytes[i - 1] == content[i - 1] as u8);
        }
        if content.len() > 0 {
            assert(bytes.last() == content.last() as u8);
        }
    }
    strings_round_trip(bytes, DOUBLE_QUOTE, options);
}

/// Lines and columns count from one.
pub proof fn positions_count_from_one(source: Seq<u8>, options: Options, offset: int)
    ensures
        line_at(source, offset) >= 1,
        column_at(source, offset, options.tab_width) >= 1,
        line_of(source, offset) >= 1,
        column_of(source, options, offset) >= 1,
    decreases offset,
{
    if offset > 0 {
        positions_count_from_one(source, options, offset - 1);
    }
}

/// Where no quote closes a string before `close` and one does at `close`,
/// the string that starts at `pos` closes at `close`.
pub proof fn closing_quote_is_first(source: Seq<u8>, pos: int, close: int, quote: u8)
    requires
        1 <= pos <= close < source.len(),
        forall|i: int|
            pos <= i < close ==> !(#[trigger] source[i] == quote && source[i - 1] != BACKSLASH),
        source[close] == quote,
        source[close - 1] != BACKSLASH,
    ensures
        closing_quote(source, pos, quote) == Some(close),
    decreases close - pos,
{
    if pos < close {
        closing_quote_is_first(source, pos + 1, close, quote);
    }
}

/// Where the bytes from `from` up to `to` are digits and no digit follows
/// them, the run of digits that starts at `from` ends at `to`.
pub proof fn digits_run(source: Seq<u8>, from: int, to: int)
    requires
        0 <= from <= to <= source.len(),
        forall|i: int| from <= i < to ==> digit(#[trigger] source[i]),
        !digit(byte_at(source, to)),
    ensures
        digits_end(source, from) == to,
    decreases to - from,
{
    if from < to {
        digits_run(source, from + 1, to);
    }
}

/// A number written by the grammar `[-]digits[.digits][(e|E)[+|-]digits]`,
/// alone in a text, parses to the number literal with exactly that text,
/// whatever the options.
pub proof fn numbers_round_trip(
    sign: Seq<u8>,
    whole: Seq<u8>,
    fraction: Seq<u8>,
    exponent: Seq<u8>,
    options: Options,
)
    requires
        is_sign(sign),
        is_digits(whole),
        is_fraction(fraction),
        is_exponent(exponent),
    ensures
        parse_text(sign + whole + fraction + exponent, options) == Ok::<ValueView, Fault>(
            ValueView::Literal(LiteralView::Number(sign + whole + fraction + exponent)),
        ),
{
    let source = sign + whole + fraction + exponent;
    let a = sign.len() as int;
    let b = a + whole.len();
    let c = b + fraction.len();
    let d = c + exponent.len();
    assert(source.len() == d);
    assert forall|i: int| a <= i < b implies digit(#[trigger] source[i]) by {
        assert(source[i] == whole[i - a]);
    }
    if sign.len() > 0 {
        assert(source[0] == sign[0]);
    } else {
        assert(source[0] == whole[0]);
    }
    assert(integer_start(source, 0) == a);
    if fraction.len() > 0 {
        let digits = fraction.subrange(1, fraction.len() as int);
        assert(source[b] == fraction[0]);
        assert forall|i: int| b + 1 <= i < c implies digit(#[trigger] source[i]) by {
            assert(source[i] == fraction[i - b]);
            assert(fraction[i - b] == digits[i - b - 1]);
        }
        assert(source[b + 1] == fraction[1]);
        assert(fraction[1] == digits[0]);
    }
    if exponent.len() > 0 {
        assert(source[c] == exponent[0]);
    }
    digits_run(source, a, b);
    if fraction.len() > 0 {
        digits_run(source, b + 1, c);
    }
    assert(fraction_end(source, 0) == c);
    if exponent.len() > 0 {
        let start = exponent_start(source, 0);
        if is_digits(exponent.subrange(1, exponent.len() as int)) {
            let digits = exponent.subrange(1, exponent.len() as int);
            assert(source[c + 1] == exponent[1]);
            assert(exponent[1] == digits[0]);
            assert(start == c + 1);
            assert forall|i: int| c + 1 <= i < d implies digit(#[trigger] source[i]) by {
                assert(source[i] == exponent[i - c]);
                assert(exponent[i - c] == digits[i - c - 1]);
            }
        } else {
            let digits = exponent.subrange(2, exponent.len() as int);
            assert(source[c + 1] == exponent[1]);
            assert(start == c + 2);
            assert forall|i: int| c + 2 <= i < d implies digit(#[trigger] source[i]) by {
                assert(source[i] == exponent[i - c]);
                assert(exponent[i - c] == digits[i - c - 2]);
            }
        }
        digits_run(source, start, d);
    }
    assert(number_end(source, 0) == d);
    assert(number_is_complete(source, 0));
    assert(source.subrange(0, d) =~= source);
    single_token(source, options);
}

/// A value spans at least one token: where a value is read at `pos`, the
/// offset behind it is greater than `pos`.
pub proof fn value_spans_tokens(tokens: Seq<TokenView>, options: Options, pos: int)
    ensures
        value_at(tokens, options, pos) matches Ok((_, next)) ==> pos < next,
        property_at(tokens, options, pos) matches Ok((_, _, next)) ==> pos + 2 < next,
{
    if let Ok(_) = value_at(tokens, options, pos) {
        match kind_at(tokens, pos) {
            TokenType::LeftBrace => members_span_tokens(
                tokens,
                options,
                pos + 1,
                Seq::empty(),
                false,
            ),
            TokenType::LeftSquareBracket => elements_span_tokens(
                tokens,
                options,
                pos + 1,
                Seq::empty(),
                false,
            ),
            _ => {},
        }
    }
    if let Ok(_) = property_at(tokens, options, pos) {
        if let Ok(_) = value_at(tokens, options, pos + 2) {
            match kind_at(tokens, pos + 2) {
                TokenType::LeftBrace => members_span_tokens(
                    tokens,
                    options,
                    pos + 3,
                    Seq::empty(),
                    false,
                ),
                TokenType::LeftSquareBracket => elements_span_tokens(
                    tokens,
                    options,
                    pos + 3,
                    Seq::empty(),
                    false,
                ),
                _ => {},
            }
        }
    }
}

/// An array ends behind the offset at which its further values start.
pub proof fn elements_span_tokens(
    tokens: Seq<TokenView>,
    options: Options,
    pos: int,
    items: Seq<ValueView>,
    had_comma: bool,
)
    ensures
        elements_from(tokens, options, pos, items, had_comma) matches Ok((_, next)) ==> pos
            < next,
    decreases remaining(tokens, pos),
{
    if let Ok(_) = elements_from(tokens, options, pos, items, had_comma) {
        if let Ok((value, next)) = value_at(tokens, options, pos) {
            if pos < next && 0 <= pos < tokens.len() {
                if tokens[pos].typ != TokenType::RightSquareBracket && tokens[pos].typ
                    != TokenType::Eof {
                    if next < tokens.len() && tokens[next].typ == TokenType::Comma {
                        elements_span_tokens(tokens, options, next + 1, items.push(value), true);
                    } else {
                        elements_span_tokens(tokens, options, next, items.push(value), false);
                    }
                }
            }
        }
    }
}

/// An object ends behind the offset at which its further properties start.
pub proof fn members_span_tokens(
    tokens: Seq<TokenView>,
    options: Options,
    pos: int,
    properties: Seq<(Seq<u8>, ValueView)>,
    had_comma: bool,
)
    ensures
        members_from(tokens, options, pos, properties, had_comma) matches Ok((_, next)) ==> pos
            < next,
    decreases remaining(tokens, pos),
{
    if let Ok(_) = members_from(tokens, options, pos, properties, had_comma) {
        if let Ok((key, value, next)) = property_at(tokens, options, pos) {
            if pos < next && 0 <= pos < tokens.len() {
                if tokens[pos].typ != TokenType::RightBrace && tokens[pos].typ != TokenType::Eof {
                    if next < tokens.len() && tokens[next].typ == TokenType::Comma {
                        members_span_tokens(
                            tokens,
                            options,
                            next + 1,
                            properties.push((key, value)),
                            true,
                        );
                    } else {
                        members_span_tokens(
                            tokens,
                            options,
                            next,
                            properties.push((key, value)),
                            false,
                        );
                    }
                }
            }
        }
    }
}

/// Whether every value of `items` is well formed.
pub open spec fn all_well_formed(items: Seq<ValueView>) -> bool {
    forall|i: int| 0 <= i < items.len() ==> (#[trigger] items[i]).well_formed()
}

/// Whether `properties` has no key twice and well-formed values only.
pub open spec fn properties_well_formed(properties: Seq<(Seq<u8>, ValueView)>) -> bool {
    &&& distinct_keys(properties)
    &&& forall|i: int| 0 <= i < properties.len() ==> (#[trigger] properties[i]).1.well_formed()
}

/// A value read from well-formed tokens is well formed: none of its objects
/// has a key twice, and each of its numbers is written by the grammar of
/// numbers.
pub proof fn values_are_well_formed(tokens: Seq<TokenView>, options: Options, pos: int)
    requires
        all_tokens_well_formed(tokens),
    ensures
        value_at(tokens, options, pos) matches Ok((value, _)) ==> value.well_formed(),
    decreases remaining(tokens, pos), 0nat,
{
    match kind_at(tokens, pos) {
        TokenType::LeftBrace => members_are_well_formed(
            tokens,
            options,
            pos + 1,
            Seq::empty(),
            false,
        ),
        TokenType::LeftSquareBracket => elements_are_well_formed(
            tokens,
            options,
            pos + 1,
            Seq::empty(),
            false,
        ),
        _ => {},
    }
}

/// An array of well-formed values stays well formed as further values are
/// read.
pub proof fn elements_are_well_formed(
    tokens: Seq<TokenView>,
    options: Options,
    pos: int,
    items: Seq<ValueView>,
    had_comma: bool,
)
    requires
        all_tokens_well_formed(tokens),
        all_well_formed(items),
    ensures
        elements_from(tokens, options, pos, items, had_comma) matches Ok((value, _))
            ==> value.well_formed(),
    decreases remaining(tokens, pos), 1nat,
{
    if let Ok(_) = elements_from(tokens, options, pos, items, had_comma) {
        if 0 <= pos < tokens.len() && tokens[pos].typ != TokenType::RightSquareBracket
            && tokens[pos].typ != TokenType::Eof {
            values_are_well_formed(tokens, options, pos);
            if let Ok((value, next)) = value_at(tokens, options, pos) {
                if pos < next {
                    if next < tokens.len() && tokens[next].typ == TokenType::Comma {
                        elements_are_well_formed(
                            tokens,
                            options,
                            next + 1,
                            items.push(value),
                            true,
                        );
                    } else {
                        elements_are_well_formed(tokens, options, next, items.push(value), false);
                    }
                }
            }
        }
    }
}

/// An object of distinct keys and well-formed values stays so as further
/// properties are read.
pub proof fn members_are_well_formed(
    tokens: Seq<TokenView>,
    options: Options,
    pos: int,
    properties: Seq<(Seq<u8>, ValueView)>,
    had_comma: bool,
)
    requires
        all_tokens_well_formed(tokens),
        properties_well_formed(properties),
    ensures
        members_from(tokens, options, pos, properties, had_comma) matches Ok((value, _))
            ==> value.well_formed(),
    decreases remaining(tokens, pos), 2nat,
{
    if let Ok(_) = members_from(tokens, options, pos, properties, had_comma) {
        if 0 <= pos < tokens.len() && tokens[pos].typ != TokenType::RightBrace && tokens[pos].typ
            != TokenType::Eof {
            if let Ok((key, value, next)) = property_at(tokens, options, pos) {
                values_are_well_formed(tokens, options, pos + 2);
                if pos < next && !has_key(properties, key) {
                    let more = properties.push((key, value));
                    assert(properties_well_formed(more)) by {
                        assert forall|i: int, j: int| 0 <= i < j < more.len() implies (
                        #[trigger] more[i]).0 != (#[trigger] more[j]).0 by {
                            if j == properties.len() {
                                assert(properties[i].0 != key);
                            } else {
                                assert(more[i] == properties[i]);
                                assert(more[j] == properties[j]);
                            }
                        }
                        assert forall|i: int| 0 <= i < more.len() implies (
                        #[trigger] more[i]).1.well_formed() by {
                            if i < properties.len() {
                                assert(more[i] == properties[i]);
                            }
                        }
                    }
                    if next < tokens.len() && tokens[next].typ == TokenType::Comma {
                        members_are_well_formed(tokens, options, next + 1, more, true);
                    } else {
                        members_are_well_formed(tokens, options, next, more, false);
                    }
                }
            }
        }
    }
}

/// Every value that a text parses to is well formed: none of its objects has
/// a key twice, and each of its numbers is written by the grammar of numbers.
pub proof fn parsed_values_are_well_formed(source: Seq<u8>, options: Options)
    ensures
        parse_text(source, options) matches Ok(value) ==> value.well_formed(),
{
    if let Ok(tokens) = scan_text(source, options) {
        tokens_are_well_formed(source, options, 0);
        values_are_well_formed(tokens, options, 0);
    }
}

} // verus!
