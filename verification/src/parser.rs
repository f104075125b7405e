//! Scanning and parsing of JSON text.

use error::{Error, Fault};
use laws::parsed_values_are_well_formed;
use lexical::{lemma_tokens_end, scan_text};
use scanner::Scanner;
use syntax::{
    elements_from, has_key, key_at, kind_at, literal_at, members_from, parse_text, property_at,
    value_at,
};
use text::lemma_same_bytes_same_text;
use tokens::{token_views, Literal, LiteralView, Token, TokenType, TokenView};
use vstd::prelude::*;
use vstd::string::*;
use vstd::utf8::*;

pub mod error;
pub mod laws;
pub mod lexical;
pub mod position;
pub mod scanner;
pub mod syntax;
pub mod text;
pub mod tokens;
pub mod utils;

verus! {

#[derive(Debug, Clone, Copy)]
pub struct Options {
    /// Allows keys to not be quoted such as in JavaScript
    ///
    /// # Example
    /// ```json
    /// {
    ///   foo: "bar"
    /// }
    /// ```
    pub allow_unquoted_identifier: bool,
    /// Allows trailing commas such as in JavaScript
    ///
    /// # Example
    /// ```json
    /// {
    ///   "foo": "bar",
    /// }
    /// ```
    pub allow_trailing_comma: bool,
    /// Allows single quote strings as in JavaScript.
    ///
    /// # Example
    /// ```json
    /// {
    ///    'foo': 'bar',
    /// }
    /// ```
    pub allow_single_quotes: bool,
    /// Allows comments such as in JavaScript
    ///
    /// # Example
    /// ```json
    /// {
    ///   // foo bar
    ///   "foo": "bar"
    /// }
    /// ```
    ///
    /// ```json
    /// {
    ///   /* foo bar */
    ///   "foo": "bar"
    /// }
    /// ```
    pub allow_comments: bool,
    /// If the JSON is formatted sets the width of the tab.
    /// This can be helpful to keep error messages in sync with the correct column.
    ///
    /// # Example
    /// ```json
    /// {
    /// // 4
    /// ----"foo": "bar"
    /// }
    /// ```
    ///
    /// ```json
    /// {
    /// // 2
    /// --"foo": "bar"
    /// }
    /// ```
    pub tab_width: usize,
}

/// The strict preset: plain JSON, no relaxation, tabs four columns wide.
pub open spec fn strict() -> Options {
    Options {
        allow_unquoted_identifier: false,
        allow_single_quotes: false,
        allow_trailing_comma: false,
        allow_comments: false,
        tab_width: 4,
    }
}

/// The permissive preset: every relaxation, tabs four columns wide.
pub open spec fn permissive() -> Options {
    Options {
        allow_unquoted_identifier: true,
        allow_single_quotes: true,
        allow_trailing_comma: true,
        allow_comments: true,
        tab_width: 4,
    }
}

impl Options {
    pub fn new(
        allow_unquoted_identifier: bool,
        allow_trailing_comma: bool,
        allow_single_quotes: bool,
        allow_comments: bool,
        tab_width: usize,
    ) -> (options: Self)
        ensures
            options == (Options {
                allow_unquoted_identifier,
                allow_trailing_comma,
                allow_single_quotes,
                allow_comments,
                tab_width,
            }),
    {
        Self {
            allow_unquoted_identifier,
            allow_single_quotes,
            allow_trailing_comma,
            allow_comments,
            tab_width,
        }
    }

    /// Default strict options for parsing JSON
    ///
    /// ```
    /// {
    ///   allow_unquoted_identifier: false,
    ///   allow_single_quotes: false,
    ///   allow_trailing_comma: false,
    ///   allow_comments: false,
    ///   tab_width: 4,
    /// }
    /// ```
    pub fn default() -> (options: Self)
        ensures
            options == strict(),
    {
        Self {
            allow_unquoted_identifier: false,
            allow_single_quotes: false,
            allow_trailing_comma: false,
            allow_comments: false,
            tab_width: 4,
        }
    }

    /// JavaScript style loose parsing for JSON
    ///
    /// ```
    /// {
    ///   allow_unquoted_identifier: true,
    ///   allow_single_quotes: true,
    ///   allow_trailing_comma: true,
    ///   allow_comments: true,
    ///   tab_width: 4,
    /// }
    /// ```
    pub fn js() -> (options: Self)
        ensures
            options == permissive(),
    {
        Self {
            allow_unquoted_identifier: true,
            allow_single_quotes: true,
            allow_trailing_comma: true,
            allow_comments: true,
            tab_width: 4,
        }
    }
}

/// A parsed value. An object holds its properties in the order of the
/// text, and no key twice.
#[derive(Debug)]
pub enum Value {
    Object(Vec<(String, Box<Value>)>),
    Array(Vec<Box<Value>>),
    Literal(Literal),
}

/// A value, with its texts as UTF-8 bytes.
pub enum ValueView {
    Object(Seq<(Seq<u8>, ValueView)>),
    Array(Seq<ValueView>),
    Literal(LiteralView),
}

/// Whether no two of `properties` have the same key.
pub open spec fn distinct_keys(properties: Seq<(Seq<u8>, ValueView)>) -> bool {
    forall|i: int, j: int|
        0 <= i < j < properties.len() ==> (#[trigger] properties[i]).0 != (
        #[trigger] properties[j]).0
}

impl ValueView {
    /// Whether no object in the value, at any depth, has a key twice, and
    /// every number in it is written by the grammar of numbers.
    pub open spec fn well_formed(self) -> bool
        decreases self,
    {
        match self {
            ValueView::Object(properties) => {
                &&& distinct_keys(properties)
                &&& forall|i: int|
                    0 <= i < properties.len() ==> (#[trigger] properties[i]).1.well_formed()
            },
            ValueView::Array(values) => forall|i: int|
                0 <= i < values.len() ==> (#[trigger] values[i]).well_formed(),
            ValueView::Literal(literal) => literal.well_formed(),
        }
    }
}

impl Value {
    /// The value with its texts as UTF-8 bytes.
    pub open spec fn view(&self) -> ValueView
        decreases self,
    {
        match self {
            Value::Object(properties) => ValueView::Object(
                Seq::new(
                    properties@.len(),
                    |i: int|
                        if 0 <= i < properties@.len() {
                            (encode_utf8(properties@[i].0@), properties@[i].1.view())
                        } else {
                            (Seq::empty(), ValueView::Literal(LiteralView::Null))
                        },
                ),
            ),
            Value::Array(values) => ValueView::Array(
                Seq::new(
                    values@.len(),
                    |i: int|
                        if 0 <= i < values@.len() {
                            values@[i].view()
                        } else {
                            ValueView::Literal(LiteralView::Null)
                        },
                ),
            ),
            Value::Literal(literal) => ValueView::Literal(literal@),
        }
    }
}

/// The views of the values of an array, in the same order.
pub open spec fn array_views(values: Seq<Box<Value>>) -> Seq<ValueView> {
    Seq::new(values.len(), |i: int| values[i].view())
}

/// The views of the properties of an object, in the same order.
pub open spec fn property_views(properties: Seq<(String, Box<Value>)>) -> Seq<
    (Seq<u8>, ValueView),
> {
    Seq::new(properties.len(), |i: int| (encode_utf8(properties[i].0@), properties[i].1.view()))
}

/// The view of an array is made of the views of its values.
pub proof fn lemma_array_view(values: Vec<Box<Value>>)
    ensures
        Value::Array(values)@ == ValueView::Array(array_views(values@)),
{
    assert(Value::Array(values)@->Array_0 =~= array_views(values@));
}

/// The view of an object is made of the views of its properties.
pub proof fn lemma_object_view(properties: Vec<(String, Box<Value>)>)
    ensures
        Value::Object(properties)@ == ValueView::Object(property_views(properties@)),
{
    assert(Value::Object(properties)@->Object_0 =~= property_views(properties@));
}

/// Reads the tokens of a text by recursive descent and builds its value.
#[derive(Debug, Clone)]
pub struct Parser {
    pub source: String,
    pub tokens: Vec<Token>,
    pub options: Options,
    pub current: usize,
}

/// Whether `result` is what a parse has to return where the grammar gives
/// `expected`: the same value, or an error that reports the same fault.
pub open spec fn parsed(result: Result<Value, Error>, expected: Result<ValueView, Fault>) -> bool {
    match (result, expected) {
        (Ok(value), Ok(view)) => value@ == view,
        (Err(error), Err(fault)) => error.reports(fault),
        _ => false,
    }
}

/// Whether `properties` holds the key `key`.
pub fn contains_key(properties: &Vec<(String, Box<Value>)>, key: &String) -> (found: bool)
    ensures
        found == has_key(property_views(properties@), encode_utf8(key@)),
{
    let mut i: usize = 0;
    while i < properties.len()
        invariant
            i <= properties.len(),
            forall|k: int| 0 <= k < i ==> property_views(properties@)[k].0 != encode_utf8(key@),
        decreases properties.len() - i,
    {
        if properties[i].0 == *key {
            assert(property_views(properties@)[i as int].0 == encode_utf8(key@));
            return true;
        }
        proof {
            if encode_utf8(properties@[i as int].0@) == encode_utf8(key@) {
                lemma_same_bytes_same_text(properties@[i as int].0@, key@);
            }
        }
        i += 1;
    }
    false
}

impl Parser {
    /// The tokens to parse.
    pub open spec fn views(&self) -> Seq<TokenView> {
        token_views(self.tokens@)
    }

    /// The tokens end with the end of the text and the cursor is at one of
    /// them.
    pub open spec fn ready(&self) -> bool {
        &&& self.tokens@.len() > 0
        &&& self.tokens@.last().typ == TokenType::Eof
        &&& self.current < self.tokens@.len()
    }

    /// Text, tokens and options are those of `before`.
    pub open spec fn keeps(&self, before: &Parser) -> bool {
        &&& self.source == before.source
        &&& self.tokens == before.tokens
        &&& self.options == before.options
    }

    /// The parser has read, from the state `before`, what the grammar gives
    /// as `expected`, and `result` says so.
    pub open spec fn read(
        &self,
        before: &Parser,
        result: Result<Value, Error>,
        expected: Result<(ValueView, int), Fault>,
    ) -> bool {
        &&& self.keeps(before)
        &&& match (result, expected) {
            (Ok(value), Ok((view, next))) => {
                &&& value@ == view
                &&& self.current == next
                &&& self.current > before.current
                &&& self.ready()
            },
            (Err(error), Err(fault)) => error.reports(fault),
            _ => false,
        }
    }

    /// A parser under `options`, with nothing to parse yet.
    pub fn new(options: Options) -> (parser: Self)
        ensures
            parser.options == options,
            parser.source@ == Seq::<char>::empty(),
            parser.tokens@ == Seq::<Token>::empty(),
            parser.current == 0,
    {
        Self { source: String::new(), tokens: Vec::new(), options, current: 0 }
    }

    /// Parses `source` from its start, whatever was parsed before.
    pub fn parse(&mut self, source: String) -> (result: Result<Value, Error>)
        ensures
            final(self).options == old(self).options,
            final(self).source@ == source@,
            parsed(result, parse_text(encode_utf8(source@), old(self).options)),
            result matches Ok(value) ==> value@.well_formed(),
            scan_text(encode_utf8(source@), old(self).options) matches Ok(tokens)
                ==> final(self).views() == tokens,
    {
        proof {
            parsed_values_are_well_formed(encode_utf8(source@), self.options);
        }
        self.source = source;
        self.current = 0;
        let mut scanner = Scanner::new(self.source.clone(), self.options);
        match scanner.scan() {
            Err(error) => Err(error),
            Ok(tokens) => {
                self.tokens = tokens;
                proof {
                    lemma_tokens_end(encode_utf8(source@), self.options, 0);
                }
                self.value()
            },
        }
    }

    /// Reads the value at the cursor.
    fn value(&mut self) -> (result: Result<Value, Error>)
        requires
            old(self).ready(),
        ensures
            final(self).read(
                old(self),
                result,
                value_at(old(self).views(), old(self).options, old(self).current as int),
            ),
        decreases old(self).tokens@.len() - old(self).current, 0nat,
    {
        if self.mat(vec![TokenType::LeftBrace]) {
            return self.object();
        }
        if self.mat(vec![TokenType::LeftSquareBracket]) {
            return self.array();
        }
        match self.literal() {
            Ok(literal) => Ok(Value::Literal(literal)),
            Err(error) => Err(error),
        }
    }

    /// Reads the rest of an array, the cursor being behind its opening
    /// bracket.
    fn array(&mut self) -> (result: Result<Value, Error>)
        requires
            old(self).ready(),
            old(self).current > 0,
        ensures
            final(self).read(
                old(self),
                result,
                elements_from(
                    old(self).views(),
                    old(self).options,
                    old(self).current as int,
                    Seq::empty(),
                    false,
                ),
            ),
        decreases old(self).tokens@.len() - old(self).current, 1nat,
    {
        let mut values: Vec<Box<Value>> = Vec::new();

        let mut had_comma = false;

        let ghost expected = elements_from(
            self.views(),
            self.options,
            self.current as int,
            Seq::empty(),
            false,
        );
        assert(array_views(values@) =~= Seq::empty());
        while !self.check(TokenType::RightSquareBracket) && !self.is_at_end()
            invariant
                self.ready(),
                self.keeps(old(self)),
                self.current >= old(self).current,
                elements_from(
                    self.views(),
                    self.options,
                    self.current as int,
                    array_views(values@),
                    had_comma,
                ) == expected,
                expected == elements_from(
                    old(self).views(),
                    old(self).options,
                    old(self).current as int,
                    Seq::empty(),
                    false,
                ),
            decreases self.tokens@.len() - self.current,
        {
            if values.len() > 0 && !had_comma {
                return Err(Error::plain("Expected ',' before next value in array."));
            }
            had_comma = false;

            let ghost items = array_views(values@);
            let value = match self.value() {
                Ok(value) => value,
                Err(error) => {
                    return Err(error);
                },
            };

            values.push(Box::new(value));
            assert(array_views(values@) =~= items.push(value@));

            if self.check(TokenType::Comma) {
                had_comma = true;
                match self.consume(
                    TokenType::Comma,
                    String::from_str("Expected ',' before next value in array."),
                ) {
                    Ok(_) => {},
                    Err(error) => {
                        return Err(error);
                    },
                }
            }
        }

        if had_comma {
            if self.options.allow_trailing_comma {
                // do nothing it has already been consumed
            } else {
                return Err(Error::plain("Trailing commas are not allowed."));
            }
        }
        match self.consume(
            TokenType::RightSquareBracket,
            String::from_str("Expected ']' at the end of an array."),
        ) {
            Ok(_) => {},
            Err(error) => {
                return Err(error);
            },
        }

        proof {
            lemma_array_view(values);
        }
        Ok(Value::Array(values))
    }

    /// Reads the rest of an object, the cursor being behind its opening
    /// brace.
    fn object(&mut self) -> (result: Result<Value, Error>)
        requires
            old(self).ready(),
            old(self).current > 0,
        ensures
            final(self).read(
                old(self),
                result,
                members_from(
                    old(self).views(),
                    old(self).options,
                    old(self).current as int,
                    Seq::empty(),
                    false,
                ),
            ),
        decreases old(self).tokens@.len() - old(self).current, 2nat,
    {
        let mut properties: Vec<(String, Box<Value>)> = Vec::new();

        let mut had_comma = false;

        let ghost expected = members_from(
            self.views(),
            self.options,
            self.current as int,
            Seq::empty(),
            false,
        );
        assert(property_views(properties@) =~= Seq::empty());
        while !self.check(TokenType::RightBrace) && !self.is_at_end()
            invariant
                self.ready(),
                self.keeps(old(self)),
                self.current >= old(self).current,
                old(self).current > 0,
                members_from(
                    self.views(),
                    self.options,
                    self.current as int,
                    property_views(properties@),
                    had_comma,
                ) == expected,
                expected == members_from(
                    old(self).views(),
                    old(self).options,
                    old(self).current as int,
                    Seq::empty(),
                    false,
                ),
            decreases self.tokens@.len() - self.current,
        {
            if properties.len() > 0 && !had_comma {
                let last_token = self.previous();
                return Err(Error::missing_comma_in_object(last_token.line, last_token.column));
            }
            had_comma = false;

            let ghost known = property_views(properties@);
            let property = match self.property() {
                Ok(property) => property,
                Err(error) => {
                    return Err(error);
                },
            };

            if contains_key(&properties, &property.0) {
                return Err(Error::duplicate_key(property.0.as_str()));
            }
            properties.push((property.0, Box::new(property.1)));
            assert(property_views(properties@) =~= known.push(
                (encode_utf8(property.0@), property.1@),
            ));

            if self.check(TokenType::Comma) {
                had_comma = true;
                match self.consume(
                    TokenType::Comma,
                    String::from_str("Expected ',' before next property in object."),
                ) {
                    Ok(_) => {},
                    Err(error) => {
                        return Err(error);
                    },
                }
            }
        }

        if had_comma {
            if self.options.allow_trailing_comma {
                // do nothing its already been consumed
            } else {
                return Err(Error::plain("Trailing commas are not allowed."));
            }
        }
        match self.consume(
            TokenType::RightBrace,
            String::from_str("Expected '}' at the end of an object."),
        ) {
            Ok(_) => {},
            Err(error) => {
                return Err(error);
            },
        }

        proof {
            lemma_object_view(properties);
        }
        Ok(Value::Object(properties))
    }

    /// Reads the property at the cursor: a key, a colon and a value.
    fn property(&mut self) -> (result: Result<(String, Value), Error>)
        requires
            old(self).ready(),
        ensures
            final(self).keeps(old(self)),
            match (
                result,
                property_at(old(self).views(), old(self).options, old(self).current as int),
            ) {
                (Ok((key, value)), Ok((name, view, next))) => {
                    &&& encode_utf8(key@) == name
                    &&& value@ == view
                    &&& final(self).current == next
                    &&& final(self).current > old(self).current
                    &&& final(self).ready()
                },
                (Err(error), Err(fault)) => error.reports(fault),
                _ => false,
            },
        decreases old(self).tokens@.len() - old(self).current, 1nat,
    {
        let identifier = match self.identifier() {
            Ok(identifier) => identifier,
            Err(error) => {
                return Err(error);
            },
        };

        match self.consume(TokenType::Colon, String::from_str("Expected ':' after identifier.")) {
            Ok(_) => {},
            Err(error) => {
                return Err(error);
            },
        }

        let value = match self.value() {
            Ok(value) => value,
            Err(error) => {
                return Err(error);
            },
        };

        Ok((identifier, value))
    }

    /// Reads the key at the cursor: an identifier or a string.
    fn identifier(&mut self) -> (result: Result<String, Error>)
        requires
            old(self).ready(),
        ensures
            final(self).keeps(old(self)),
            match (result, key_at(old(self).views(), old(self).current as int)) {
                (Ok(key), Ok(name)) => {
                    &&& encode_utf8(key@) == name
                    &&& final(self).current == old(self).current + 1
                    &&& final(self).ready()
                },
                (Err(error), Err(fault)) => error.reports(fault),
                _ => false,
            },
    {
        // this will not make it past the scanner if not configured to take identifiers
        if self.mat(vec![TokenType::Identifier]) {
            return Ok(self.previous().lexeme.clone());
        }
        if self.mat(vec![TokenType::String]) {
            match &self.previous().literal {
                Some(Literal::String(str)) => {
                    return Ok(str.clone());
                },
                _ => {},
            }
        }
        Err(Error::plain("Expected key for key value pair."))
    }

    /// Reads the literal at the cursor.
    fn literal(&mut self) -> (result: Result<Literal, Error>)
        requires
            old(self).ready(),
        ensures
            final(self).keeps(old(self)),
            match (result, literal_at(old(self).views(), old(self).current as int)) {
                (Ok(literal), Ok((view, next))) => {
                    &&& ValueView::Literal(literal@) == view
                    &&& final(self).current == next
                    &&& final(self).current > old(self).current
                    &&& final(self).ready()
                },
                (Err(error), Err(fault)) => error.reports(fault),
                _ => false,
            },
    {
        if self.check(TokenType::Null) {
            self.advance();
            return Ok(Literal::Null);
        }
        if self.check(TokenType::True) {
            self.advance();
            return Ok(Literal::True);
        }
        if self.check(TokenType::False) {
            self.advance();
            return Ok(Literal::False);
        }
        if self.check(TokenType::String) {
            match &self.peek().literal {
                Some(Literal::String(str)) => {
                    let text = str.clone();
                    self.advance();
                    return Ok(Literal::String(text));
                },
                _ => {},
            }
        }
        if self.check(TokenType::Number) {
            match &self.peek().literal {
                Some(Literal::Number(num)) => {
                    let text = num.clone();
                    self.advance();
                    return Ok(Literal::Number(text));
                },
                _ => {},
            }
        }
        Err(Error::plain("Expected value."))
    }

    /// Passes the token at the cursor if its kind is one of `types`, and
    /// says whether it did.
    fn mat(&mut self, types: Vec<TokenType>) -> (matched: bool)
        requires
            old(self).ready(),
        ensures
            final(self).keeps(old(self)),
            final(self).ready(),
            matched == (kind_at(old(self).views(), old(self).current as int) != TokenType::Eof
                && types@.contains(kind_at(old(self).views(), old(self).current as int))),
            final(self).current == if matched {
                old(self).current + 1
            } else {
                old(self).current as int
            },
    {
        let mut i: usize = 0;
        while i < types.len()
            invariant
                i <= types.len(),
                self == old(self),
                self.ready(),
                forall|k: int|
                    0 <= k < i ==> !(kind_at(self.views(), self.current as int) != TokenType::Eof
                        && types@[k] == kind_at(self.views(), self.current as int)),
            decreases types.len() - i,
        {
            if self.check(types[i]) {
                self.advance();
                return true;
            }
            i += 1;
        }
        return false;
    }

    /// Whether a token of kind `typ` stands at the cursor. The end of the
    /// text is never such a token.
    fn check(&self, typ: TokenType) -> (found: bool)
        requires
            self.ready(),
        ensures
            found == (kind_at(self.views(), self.current as int) != TokenType::Eof && kind_at(
                self.views(),
                self.current as int,
            ) == typ),
    {
        if self.is_at_end() {
            return false;
        }
        self.peek().typ == typ
    }

    /// The token at the cursor.
    fn peek(&self) -> (token: &Token)
        requires
            self.current < self.tokens@.len(),
        ensures
            *token == self.tokens@[self.current as int],
    {
        &self.tokens[self.current]
    }

    /// The token before the cursor.
    fn previous(&self) -> (token: &Token)
        requires
            0 < self.current <= self.tokens@.len(),
        ensures
            *token == self.tokens@[self.current - 1],
    {
        &self.tokens[self.current - 1]
    }

    /// Whether the cursor is at the end of the text.
    fn is_at_end(&self) -> (at_end: bool)
        requires
            self.ready(),
        ensures
            at_end == (kind_at(self.views(), self.current as int) == TokenType::Eof),
    {
        self.peek().typ == TokenType::Eof
    }

    /// Passes the token at the cursor, which is not the end of the text.
    fn advance(&mut self) -> (token: Token)
        requires
            old(self).ready(),
            kind_at(old(self).views(), old(self).current as int) != TokenType::Eof,
        ensures
            final(self).keeps(old(self)),
            final(self).ready(),
            final(self).current == old(self).current + 1,
            token@ == old(self).views()[old(self).current as int],
    {
        let count = self.tokens.len();
        assert(self.current < count);
        self.current = self.current + 1;

        self.previous().duplicate()
    }

    /// Passes the token at the cursor if it is of kind `typ`, and fails with
    /// `msg` if it is not.
    fn consume(&mut self, typ: TokenType, msg: String) -> (result: Result<Token, Error>)
        requires
            old(self).ready(),
        ensures
            final(self).keeps(old(self)),
            final(self).ready(),
            match result {
                Ok(token) => {
                    &&& kind_at(old(self).views(), old(self).current as int) == typ
                    &&& typ != TokenType::Eof
                    &&& final(self).current == old(self).current + 1
                    &&& token@ == old(self).views()[old(self).current as int]
                },
                Err(error) => {
                    &&& !(kind_at(old(self).views(), old(self).current as int) == typ && typ
                        != TokenType::Eof)
                    &&& final(self).current == old(self).current
                    &&& error.message() == msg@
                },
            },
    {
        if self.check(typ) {
            return Ok(self.advance());
        }
        Err(Error::SyntaxError(msg))
    }
}

/// A clone is a value with the same view.
impl Clone for Value {
    fn clone(&self) -> (copy: Self)
        ensures
            copy@ == self@,
        decreases self,
    {
        match self {
            Value::Object(properties) => {
                let mut copies: Vec<(String, Box<Value>)> = Vec::new();
                let mut i: usize = 0;
                while i < properties.len()
                    invariant
                        i <= properties.len(),
                        copies.len() == i,
                        self == Value::Object(*properties),
                        forall|k: int|
                            0 <= k < i ==> copies@[k].0@ == properties@[k].0@ && copies@[k].1@
                                == properties@[k].1@,
                    decreases properties.len() - i,
                {
                    let property = &properties[i];
                    assert(decreases_to!(self => self->Object_0));
                    assert(decreases_to!(self->Object_0 => self->Object_0@));
                    assert(decreases_to!(self->Object_0@ => self->Object_0@[i as int]));
                    assert(decreases_to!(self->Object_0@[i as int] => self->Object_0@[i as int].1));
                    copies.push((property.0.clone(), Box::new((*property.1).clone())));
                    i += 1;
                }
                proof {
                    lemma_object_view(copies);
                    lemma_object_view(*properties);
                    assert(property_views(copies@) =~= property_views(properties@));
                }
                let copy = Value::Object(copies);
                copy
            },
            Value::Array(values) => {
                let mut copies: Vec<Box<Value>> = Vec::new();
                let mut i: usize = 0;
                while i < values.len()
                    invariant
                        i <= values.len(),
                        copies.len() == i,
                        self == Value::Array(*values),
                        forall|k: int| 0 <= k < i ==> copies@[k]@ == values@[k]@,
                    decreases values.len() - i,
                {
                    assert(decreases_to!(self => self->Array_0));
                    assert(decreases_to!(self->Array_0 => self->Array_0@));
                    assert(decreases_to!(self->Array_0@ => self->Array_0@[i as int]));
                    copies.push(Box::new((*values[i]).clone()));
                    i += 1;
                }
                proof {
                    lemma_array_view(copies);
                    lemma_array_view(*values);
                    assert(array_views(copies@) =~= array_views(values@));
                }
                let copy = Value::Array(copies);
                copy
            },
            Value::Literal(literal) => Value::Literal(literal.duplicate()),
        }
    }
}

} // verus!
