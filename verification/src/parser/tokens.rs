//! Tokens, the literals they carry and the keyword table.

use super::utils::{digit, DOT, LOWER_E, MINUS, PLUS, UPPER_E};
use vstd::prelude::*;
use vstd::string::*;
use vstd::utf8::*;

verus! {

#[derive(Debug, Clone)]
pub struct Token {
    pub typ: TokenType,
    pub lexeme: String,
    pub line: usize,
    pub column: usize,
    pub literal: Option<Literal>,
}

#[derive(Debug, Clone, Copy, PartialEq, Eq, Structural)]
pub enum TokenType {
    // Single character tokens
    LeftBrace,
    RightBrace,
    DoubleQuote,
    Colon,
    LeftSquareBracket,
    RightSquareBracket,
    Comma,
    Eof,
    // Literals
    Number,
    String,
    Null,
    True,
    False,
    Identifier,
}

/// What a literal token stands for. A number is kept as the text that
/// spells it, a string as the text between its quotes.
#[derive(Debug, Clone)]
pub enum Literal {
    String(String),
    Number(String),
    True,
    False,
    Null,
}

/// A literal, with its texts as UTF-8 bytes.
pub enum LiteralView {
    String(Seq<u8>),
    Number(Seq<u8>),
    True,
    False,
    Null,
}

/// A token, with its texts as UTF-8 bytes.
pub struct TokenView {
    pub typ: TokenType,
    pub lexeme: Seq<u8>,
    pub line: usize,
    pub column: usize,
    pub literal: Option<LiteralView>,
}

impl View for Literal {
    type V = LiteralView;

    open spec fn view(&self) -> LiteralView {
        match self {
            Literal::String(text) => LiteralView::String(encode_utf8(text@)),
            Literal::Number(text) => LiteralView::Number(encode_utf8(text@)),
            Literal::True => LiteralView::True,
            Literal::False => LiteralView::False,
            Literal::Null => LiteralView::Null,
        }
    }
}

impl View for Token {
    type V = TokenView;

    open spec fn view(&self) -> TokenView {
        TokenView {
            typ: self.typ,
            lexeme: encode_utf8(self.lexeme@),
            line: self.line,
            column: self.column,
            literal: match self.literal {
                Some(literal) => Some(literal@),
                None => None,
            },
        }
    }
}

/// Whether `text` is one digit or more.
pub open spec fn is_digits(text: Seq<u8>) -> bool {
    &&& text.len() > 0
    &&& forall|i: int| 0 <= i < text.len() ==> digit(#[trigger] text[i])
}

/// Whether `text` is nothing or a minus sign.
pub open spec fn is_sign(text: Seq<u8>) -> bool {
    text.len() == 0 || text == seq![MINUS]
}

/// Whether `text` is nothing, or a point and digits.
pub open spec fn is_fraction(text: Seq<u8>) -> bool {
    text.len() == 0 || (text.len() >= 2 && text[0] == DOT && is_digits(
        text.subrange(1, text.len() as int),
    ))
}

/// Whether `text` is nothing, or an exponent mark, an optional sign and
/// digits.
pub open spec fn is_exponent(text: Seq<u8>) -> bool {
    ||| text.len() == 0
    ||| {
        &&& text.len() >= 2
        &&& text[0] == LOWER_E || text[0] == UPPER_E
        &&& is_digits(text.subrange(1, text.len() as int))
    }
    ||| {
        &&& text.len() >= 3
        &&& text[0] == LOWER_E || text[0] == UPPER_E
        &&& text[1] == PLUS || text[1] == MINUS
        &&& is_digits(text.subrange(2, text.len() as int))
    }
}

/// The text of a number, put together from its sign, the digits before the
/// point, its fraction and its exponent.
pub open spec fn number_text(
    sign: Seq<u8>,
    whole: Seq<u8>,
    fraction: Seq<u8>,
    exponent: Seq<u8>,
) -> Seq<u8> {
    sign + whole + fraction + exponent
}

/// Whether `text` is written by the grammar of numbers,
/// `[-]digits[.digits][(e|E)[+|-]digits]`.
pub open spec fn is_number(text: Seq<u8>) -> bool {
    exists|sign: Seq<u8>, whole: Seq<u8>, fraction: Seq<u8>, exponent: Seq<u8>|
        #[trigger] number_text(sign, whole, fraction, exponent) == text && is_sign(sign)
            && is_digits(whole) && is_fraction(fraction) && is_exponent(exponent)
}

impl LiteralView {
    /// Whether the literal, if it is a number, is written by the grammar of
    /// numbers.
    pub open spec fn well_formed(self) -> bool {
        self matches LiteralView::Number(text) ==> is_number(text)
    }
}

/// Whether `token` carries the literal that its kind asks for: a string its
/// lexeme without the two quotes, a number its lexeme, any other token
/// none.
pub open spec fn carries_its_literal(token: TokenView) -> bool {
    match token.typ {
        TokenType::String => {
            &&& token.lexeme.len() >= 2
            &&& token.literal == Some(
                LiteralView::String(token.lexeme.subrange(1, token.lexeme.len() - 1)),
            )
        },
        TokenType::Number => token.literal == Some(LiteralView::Number(token.lexeme)),
        _ => token.literal is None,
    }
}

impl TokenView {
    /// Whether the token carries the literal that its kind asks for, and
    /// that literal is well formed.
    pub open spec fn well_formed(self) -> bool {
        &&& carries_its_literal(self)
        &&& self.literal matches Some(literal) ==> literal.well_formed()
    }
}

/// Whether every token of `tokens` is well formed.
pub open spec fn all_tokens_well_formed(tokens: Seq<TokenView>) -> bool {
    forall|i: int| 0 <= i < tokens.len() ==> (#[trigger] tokens[i]).well_formed()
}

/// The views of a sequence of tokens, in the same order.
pub open spec fn token_views(tokens: Seq<Token>) -> Seq<TokenView> {
    Seq::new(tokens.len(), |i: int| tokens[i]@)
}

impl Literal {
    /// A literal with the same content.
    pub fn duplicate(&self) -> (copy: Literal)
        ensures
            copy@ == self@,
    {
        match self {
            Literal::String(text) => Literal::String(text.clone()),
            Literal::Number(text) => Literal::Number(text.clone()),
            Literal::True => Literal::True,
            Literal::False => Literal::False,
            Literal::Null => Literal::Null,
        }
    }
}

impl Token {
    /// A token with the same content.
    pub fn duplicate(&self) -> (copy: Token)
        ensures
            copy@ == self@,
    {
        Token {
            typ: self.typ,
            lexeme: self.lexeme.clone(),
            line: self.line,
            column: self.column,
            literal: match &self.literal {
                Some(literal) => Some(literal.duplicate()),
                None => None,
            },
        }
    }
}

/// Copies a sequence of tokens.
pub fn duplicate_tokens(tokens: &Vec<Token>) -> (copy: Vec<Token>)
    ensures
        token_views(copy@) == token_views(tokens@),
{
    let mut copy: Vec<Token> = Vec::new();
    let mut i: usize = 0;
    while i < tokens.len()
        invariant
            i <= tokens.len(),
            copy.len() == i,
            forall|k: int| 0 <= k < i ==> copy@[k]@ == tokens@[k]@,
        decreases tokens.len() - i,
    {
        copy.push(tokens[i].duplicate());
        i += 1;
    }
    assert(token_views(copy@) =~= token_views(tokens@));
    copy
}

/// The spelling of `null`.
pub open spec fn null_text() -> Seq<u8> {
    seq![0x6e, 0x75, 0x6c, 0x6c]
}

/// The spelling of `true`.
pub open spec fn true_text() -> Seq<u8> {
    seq![0x74, 0x72, 0x75, 0x65]
}

/// The spelling of `false`.
pub open spec fn false_text() -> Seq<u8> {
    seq![0x66, 0x61, 0x6c, 0x73, 0x65]
}

/// The kind of token that the word `text` is, if it is a keyword.
pub open spec fn keyword(text: Seq<u8>) -> Option<TokenType> {
    if text == null_text() {
        Some(TokenType::Null)
    } else if text == true_text() {
        Some(TokenType::True)
    } else if text == false_text() {
        Some(TokenType::False)
    } else {
        None
    }
}

/// The keyword table: each keyword with the kind of its token.
pub fn keywords() -> (table: Vec<(&'static str, TokenType)>)
    ensures
        table@.len() == 3,
        encode_utf8(table@[0].0@) == null_text() && table@[0].1 == TokenType::Null,
        encode_utf8(table@[1].0@) == true_text() && table@[1].1 == TokenType::True,
        encode_utf8(table@[2].0@) == false_text() && table@[2].1 == TokenType::False,
{
    let mut table: Vec<(&'static str, TokenType)> = Vec::new();
    table.push(("null", TokenType::Null));
    table.push(("true", TokenType::True));
    table.push(("false", TokenType::False));
    proof {
        reveal_strlit("null");
        reveal_strlit("true");
        reveal_strlit("false");
        is_ascii_chars_encode_utf8("null"@);
        is_ascii_chars_encode_utf8("true"@);
        is_ascii_chars_encode_utf8("false"@);
        assert(encode_utf8("null"@) =~= null_text());
        assert(encode_utf8("true"@) =~= true_text());
        assert(encode_utf8("false"@) =~= false_text());
    }
    table
}

/// Whether two byte strings are the same.
pub fn same_bytes(a: &[u8], b: &[u8]) -> (same: bool)
    ensures
        same == (a@ == b@),
{
    if a.len() != b.len() {
        return false;
    }
    let mut i: usize = 0;
    while i < a.len()
        invariant
            a.len() == b.len(),
            i <= a.len(),
            forall|k: int| 0 <= k < i ==> a@[k] == b@[k],
        decreases a.len() - i,
    {
        if a[i] != b[i] {
            return false;
        }
        i += 1;
    }
    assert(a@ =~= b@);
    true
}

/// Looks `text` up in the keyword table.
pub fn lookup_keyword(text: &str) -> (found: Option<TokenType>)
    ensures
        found == keyword(encode_utf8(text@)),
{
    let table = keywords();
    let mut i: usize = 0;
    while i < table.len()
        invariant
            i <= table.len(),
            table@.len() == 3,
            encode_utf8(table@[0].0@) == null_text() && table@[0].1 == TokenType::Null,
            encode_utf8(table@[1].0@) == true_text() && table@[1].1 == TokenType::True,
            encode_utf8(table@[2].0@) == false_text() && table@[2].1 == TokenType::False,
            forall|k: int| 0 <= k < i ==> encode_utf8(table@[k].0@) != encode_utf8(text@),
        decreases table.len() - i,
    {
        if same_bytes(table[i].0.as_bytes(), text.as_bytes()) {
            return Some(table[i].1);
        }
        i += 1;
    }
    None
}

} // verus!
