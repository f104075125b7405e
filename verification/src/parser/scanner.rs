//! The scanner: from a text to its tokens.

use super::error::{Error, Fault};
use super::laws::tokens_are_well_formed;
use super::lexical::{
    block_comment_end, byte_at, closing_quote, column_of, comment_step, digits_end, end_of_input,
    lemma_number_bounds, lemma_step_advances, lemma_word_end_bounds, line_end, line_of, number_step,
    prepend, punctuation, scan_text, step, string_step, token_at, tokens_from, word_end, word_step,
    Step,
};
use super::position::width_of;
use super::text::{lemma_ascii_is_bounded, substring};
use super::tokens::{
    all_tokens_well_formed, duplicate_tokens, lookup_keyword, token_views, Literal, Token, TokenType, TokenView,
};
use super::utils::{
    alpha, digit, is_alpha, is_alphanumeric, is_digit, BACKSLASH, COLON, COMMA, DOT, DOUBLE_QUOTE,
    LEFT_BRACE, LEFT_SQUARE_BRACKET, LOWER_E, MINUS, NEWLINE, PLUS, RIGHT_BRACE,
    RIGHT_SQUARE_BRACKET, SINGLE_QUOTE, SLASH, STAR, TAB, UPPER_E,
};
use super::Options;
use vstd::prelude::*;
use vstd::string::*;
use vstd::utf8::*;

verus! {

/// Reads a text byte by byte and makes tokens of it.
pub struct Scanner {
    source: String,
    tokens: Vec<Token>,
    current: usize,
    line: usize,
    column: usize,
    start: usize,
    options: Options,
}

/// Whether `result` is what a scan has to return where the grammar gives
/// `expected`: the same tokens, or an error that reports the same fault.
pub open spec fn scanned(
    result: Result<Vec<Token>, Error>,
    expected: Result<Seq<TokenView>, Fault>,
) -> bool {
    match (result, expected) {
        (Ok(tokens), Ok(views)) => token_views(tokens@) == views,
        (Err(error), Err(fault)) => error.reports(fault),
        _ => false,
    }
}

impl Scanner {
    /// The text to scan, as bytes.
    pub closed spec fn text(&self) -> Seq<u8> {
        encode_utf8(self.source@)
    }

    /// The options to scan under.
    pub closed spec fn options(&self) -> Options {
        self.options
    }

    /// The cursor is inside the text or at its end, and line and column are
    /// those of the cursor.
    spec fn located(&self) -> bool {
        &&& self.current <= self.text().len()
        &&& self.line == line_of(self.text(), self.current as int)
        &&& self.column == column_of(self.text(), self.options, self.current as int)
    }

    /// Text, options and tokens are those of `before`.
    spec fn keeps(&self, before: &Scanner) -> bool {
        &&& self.source == before.source
        &&& self.options == before.options
        &&& self.tokens == before.tokens
        &&& self.start == before.start
    }

    /// The scanner has done, from the state `before`, what `outcome` asks
    /// for, and `result` says so.
    spec fn took(&self, before: &Scanner, outcome: Step, result: Result<(), Error>) -> bool {
        &&& self.source == before.source
        &&& self.options == before.options
        &&& match outcome {
            Step::Skip { end } => {
                &&& result is Ok
                &&& self.located()
                &&& self.current == end
                &&& token_views(self.tokens@) == token_views(before.tokens@)
            },
            Step::Emit { typ, end, literal } => {
                &&& result is Ok
                &&& self.located()
                &&& self.current == end
                &&& token_views(self.tokens@) == token_views(before.tokens@).push(
                    token_at(self.text(), self.options, before.current as int, end, typ, literal),
                )
            },
            Step::Fail { fault } => result matches Err(error) && error.reports(fault),
        }
    }

    /// A scanner for `source` under `options`.
    pub fn new(source: String, options: Options) -> (scanner: Self)
        ensures
            scanner.text() == encode_utf8(source@),
            scanner.options() == options,
    {
        Self { source, current: 0, line: 1, column: 1, start: 0, tokens: Vec::new(), options }
    }

    /// Scans the whole text, whatever was scanned before.
    pub fn scan(&mut self) -> (result: Result<Vec<Token>, Error>)
        ensures
            final(self).text() == old(self).text(),
            final(self).options() == old(self).options(),
            scanned(result, scan_text(old(self).text(), old(self).options())),
            result matches Ok(tokens) ==> all_tokens_well_formed(token_views(tokens@)),
    {
        proof {
            tokens_are_well_formed(self.text(), self.options, 0);
        }
        self.current = 0;
        self.line = 1;
        self.column = 1;
        self.start = 0;
        self.tokens = Vec::new();
        assert(token_views(self.tokens@) =~= Seq::empty());
        assert(prepend(Seq::empty(), scan_text(self.text(), self.options)) == scan_text(
            self.text(),
            self.options,
        )) by {
            match scan_text(self.text(), self.options) {
                Ok(more) => assert(Seq::<TokenView>::empty() + more =~= more),
                Err(_) => {},
            }
        }
        while !self.is_at_end()
            invariant
                self.located(),
                self.source == old(self).source,
                self.options == old(self).options,
                prepend(
                    token_views(self.tokens@),
                    tokens_from(self.text(), self.options, self.current as int),
                ) == scan_text(self.text(), self.options),
            decreases self.text().len() - self.current,
        {
            let ghost before = *self;
            proof {
                lemma_step_advances(self.text(), self.options, self.current as int);
            }
            match self.scan_token() {
                Ok(()) => {
                    proof {
                        let outcome = step(before.text(), before.options, before.current as int);
                        let rest = tokens_from(self.text(), self.options, self.current as int);
                        if let Step::Emit { typ, end, literal } = outcome {
                            let token = token_at(
                                self.text(),
                                self.options,
                                before.current as int,
                                end,
                                typ,
                                literal,
                            );
                            if let Ok(more) = rest {
                                assert(token_views(before.tokens@) + (seq![token] + more)
                                    =~= token_views(before.tokens@).push(token) + more);
                            }
                        }
                    }
                },
                Err(error) => {
                    return Err(error);
                },
            }
        }
        let ghost found = token_views(self.tokens@);
        self.tokens.push(
            Token {
                typ: TokenType::Eof,
                line: self.line,
                column: self.column,
                lexeme: String::from_str("\0"),
                literal: None,
            },
        );
        proof {
            reveal_strlit("\0");
            is_ascii_chars_encode_utf8("\0"@);
            assert(encode_utf8("\0"@) =~= seq![0u8]);
            assert(token_views(self.tokens@) =~= found + seq![
                end_of_input(self.text(), self.options),
            ]);
        }
        Ok(duplicate_tokens(&self.tokens))
    }

    /// Takes what stands at the cursor: skips it, makes a token of it, or
    /// fails on it.
    fn scan_token(&mut self) -> (result: Result<(), Error>)
        requires
            old(self).located(),
            old(self).current < old(self).text().len(),
        ensures
            final(self).took(
                old(self),
                step(old(self).text(), old(self).options, old(self).current as int),
                result,
            ),
    {
        self.start = self.current;
        let c = self.peek();
        if c == LEFT_BRACE {
            self.add_token(TokenType::LeftBrace);
            Ok(())
        } else if c == RIGHT_BRACE {
            self.add_token(TokenType::RightBrace);
            Ok(())
        } else if c == COLON {
            self.add_token(TokenType::Colon);
            Ok(())
        } else if c == COMMA {
            self.add_token(TokenType::Comma);
            Ok(())
        } else if c == LEFT_SQUARE_BRACKET {
            self.add_token(TokenType::LeftSquareBracket);
            Ok(())
        } else if c == RIGHT_SQUARE_BRACKET {
            self.add_token(TokenType::RightSquareBracket);
            Ok(())
        } else if c == SLASH && self.options.allow_comments {
            self.comment()
        } else if c == DOUBLE_QUOTE || (c == SINGLE_QUOTE && self.options.allow_single_quotes) {
            self.string(c)
        } else if c == NEWLINE || c == 0x20 || c == 0x0d || c == TAB {
            self.pass();
            assert(token_views(self.tokens@) == token_views(old(self).tokens@));
            Ok(())
        } else if is_digit(&c) || c == MINUS {
            self.number()
        } else if is_alpha(&c) {
            self.identifier()
        } else {
            Err(Error::unexpected_token(c, self.line, self.column))
        }
    }

    /// Skips the comment that starts at the cursor, or fails where none
    /// starts there or the comment does not end.
    fn comment(&mut self) -> (result: Result<(), Error>)
        requires
            old(self).located(),
            old(self).current < old(self).text().len(),
            old(self).start == old(self).current,
            old(self).text()[old(self).current as int] == SLASH,
        ensures
            final(self).took(
                old(self),
                comment_step(old(self).text(), old(self).options, old(self).current as int),
                result,
            ),
    {
        let start_line = self.line;
        let start_column = self.column;
        if self.peek_next() == SLASH {
            self.pass();
            self.pass();
            while !self.is_at_end() && self.peek() != NEWLINE
                invariant
                    self.located(),
                    self.keeps(old(self)),
                    self.current >= old(self).current + 2,
                    line_end(self.text(), self.current as int) == line_end(
                        self.text(),
                        old(self).current + 2,
                    ),
                decreases self.text().len() - self.current,
            {
                self.pass();
            }
            Ok(())
        } else if self.peek_next() == STAR {
            // the depth allows for possibly nested comments
            let mut depth: usize = 1;
            let mut open = true;
            self.pass();
            self.pass();
            let ghost target = block_comment_end(self.text(), old(self).current + 2, 1);
            while open && !self.is_at_end()
                invariant
                    self.located(),
                    self.keeps(old(self)),
                    self.current >= old(self).current + 2,
                    open ==> 1 <= depth <= self.current - old(self).current - 1,
                    open ==> block_comment_end(self.text(), self.current as int, depth as nat)
                        == target,
                    !open ==> target == Some(self.current as int),
                decreases self.text().len() - self.current,
            {
                if self.peek() == STAR && self.peek_next() == SLASH {
                    // a comment ends here
                    depth = depth - 1;
                    self.pass();
                    self.pass();
                    if depth == 0 {
                        open = false;
                    }
                } else {
                    // a nested comment starts here
                    if self.peek() == SLASH && self.peek_next() == STAR {
                        depth = depth + 1;
                    }
                    self.pass();
                }
            }
            if open {
                Err(Error::unterminated_comment(start_line, start_column))
            } else {
                Ok(())
            }
        } else {
            Err(Error::unexpected_token(SLASH, start_line, start_column))
        }
    }

    /// Takes the string that the quote at the cursor opens.
    fn string(&mut self, quote: u8) -> (result: Result<(), Error>)
        requires
            old(self).located(),
            old(self).current < old(self).text().len(),
            old(self).start == old(self).current,
            old(self).text()[old(self).current as int] == quote,
            quote == DOUBLE_QUOTE || quote == SINGLE_QUOTE,
        ensures
            final(self).took(
                old(self),
                string_step(old(self).text(), old(self).options, old(self).current as int),
                result,
            ),
    {
        let start_line = self.line;
        let start_column = self.column;
        self.pass();
        // a quote behind a backslash does not close the string
        while !self.is_at_end() && !(self.peek() == quote && self.peek_last() != BACKSLASH)
            invariant
                self.located(),
                self.keeps(old(self)),
                self.current > old(self).current,
                closing_quote(self.text(), self.current as int, quote) == closing_quote(
                    self.text(),
                    old(self).current + 1,
                    quote,
                ),
            decreases self.text().len() - self.current,
        {
            self.pass();
        }
        if self.is_at_end() {
            return Err(Error::unclosed_quote(quote, start_line, start_column));
        }
        proof {
            encode_utf8_valid_utf8(self.source@);
            lemma_ascii_is_bounded(self.text(), self.start as int);
            lemma_ascii_is_bounded(self.text(), self.current as int);
        }
        let content = substring(self.source.as_str(), self.start + 1, self.current);
        // go past the closing quote
        self.pass();
        self.emit(TokenType::String, start_line, start_column, Some(Literal::String(content)));
        Ok(())
    }

    /// Takes the number that starts at the cursor.
    fn number(&mut self) -> (result: Result<(), Error>)
        requires
            old(self).located(),
            old(self).current < old(self).text().len(),
            old(self).start == old(self).current,
            digit(old(self).text()[old(self).current as int]) || old(self).text()[old(
                self,
            ).current as int] == MINUS,
        ensures
            final(self).took(
                old(self),
                number_step(old(self).text(), old(self).options, old(self).current as int),
                result,
            ),
    {
        let start_line = self.line;
        let start_column = self.column;
        proof {
            lemma_number_bounds(self.text(), self.current as int);
        }
        if self.peek() == MINUS {
            self.pass();
        }
        let integer = self.current;
        self.digits();
        let mut complete = self.current > integer;
        if self.peek() == DOT && is_digit(&self.peek_next()) {
            self.pass();
            self.digits();
        }
        if self.peek() == LOWER_E || self.peek() == UPPER_E {
            self.pass();
            if self.peek() == PLUS || self.peek() == MINUS {
                self.pass();
            }
            let exponent = self.current;
            self.digits();
            complete = complete && self.current > exponent;
        }
        if !complete {
            return Err(Error::malformed_number(start_line, start_column));
        }
        proof {
            encode_utf8_valid_utf8(self.source@);
            lemma_ascii_is_bounded(self.text(), self.start as int);
            lemma_ascii_is_bounded(self.text(), self.current - 1);
        }
        let literal = substring(self.source.as_str(), self.start, self.current);
        self.emit(TokenType::Number, start_line, start_column, Some(Literal::Number(literal)));
        Ok(())
    }

    /// Takes the keyword or identifier that starts at the cursor.
    fn identifier(&mut self) -> (result: Result<(), Error>)
        requires
            old(self).located(),
            old(self).current < old(self).text().len(),
            old(self).start == old(self).current,
            alpha(old(self).text()[old(self).current as int]),
        ensures
            final(self).took(
                old(self),
                word_step(old(self).text(), old(self).options, old(self).current as int),
                result,
            ),
    {
        let start_line = self.line;
        let start_column = self.column;
        proof {
            lemma_word_end_bounds(self.text(), self.current as int);
        }
        while is_alphanumeric(&self.peek())
            invariant
                self.located(),
                self.keeps(old(self)),
                self.current >= old(self).current,
                word_end(self.text(), self.current as int) == word_end(
                    self.text(),
                    old(self).current as int,
                ),
            decreases self.text().len() - self.current,
        {
            self.pass();
        }
        proof {
            encode_utf8_valid_utf8(self.source@);
            lemma_ascii_is_bounded(self.text(), self.start as int);
            lemma_ascii_is_bounded(self.text(), self.current - 1);
        }
        let word = substring(self.source.as_str(), self.start, self.current);
        match lookup_keyword(word.as_str()) {
            Some(typ) => {
                self.emit(typ, start_line, start_column, None);
                Ok(())
            },
            None => {
                if self.options.allow_unquoted_identifier {
                    // allow option
                    self.emit(TokenType::Identifier, start_line, start_column, None);
                    Ok(())
                } else {
                    Err(Error::unquoted_identifier(word.as_str(), start_line, start_column))
                }
            },
        }
    }

    /// Passes the digits at the cursor.
    fn digits(&mut self)
        requires
            old(self).located(),
        ensures
            final(self).located(),
            final(self).keeps(old(self)),
            final(self).current == digits_end(old(self).text(), old(self).current as int),
    {
        while is_digit(&self.peek())
            invariant
                self.located(),
                self.keeps(old(self)),
                digits_end(self.text(), self.current as int) == digits_end(
                    self.text(),
                    old(self).current as int,
                ),
            decreases self.text().len() - self.current,
        {
            self.pass();
        }
    }

    /// Appends the token that spans the text from `start` to the cursor.
    fn emit(&mut self, typ: TokenType, line: usize, column: usize, literal: Option<Literal>)
        requires
            old(self).start < old(self).current <= old(self).text().len(),
            old(self).text()[old(self).start as int] <= 0x7f,
            old(self).text()[old(self).current - 1] <= 0x7f,
        ensures
            final(self).source == old(self).source,
            final(self).options == old(self).options,
            final(self).current == old(self).current,
            final(self).line == old(self).line,
            final(self).column == old(self).column,
            final(self).start == old(self).start,
            token_views(final(self).tokens@) == token_views(old(self).tokens@).push(
                TokenView {
                    typ,
                    lexeme: old(self).text().subrange(
                        old(self).start as int,
                        old(self).current as int,
                    ),
                    line,
                    column,
                    literal: match literal {
                        Some(literal) => Some(literal@),
                        None => None,
                    },
                },
            ),
    {
        proof {
            encode_utf8_valid_utf8(self.source@);
            lemma_ascii_is_bounded(self.text(), self.start as int);
            lemma_ascii_is_bounded(self.text(), self.current - 1);
        }
        let lexeme = substring(self.source.as_str(), self.start, self.current);
        let token = Token { typ, lexeme, line, column, literal };
        self.tokens.push(token);
        assert(token_views(self.tokens@) =~= token_views(old(self).tokens@).push(token@));
    }

    /// Appends the one-byte token at the cursor and passes it.
    fn add_token(&mut self, typ: TokenType)
        requires
            old(self).located(),
            old(self).current < old(self).text().len(),
            old(self).start == old(self).current,
            punctuation(old(self).text()[old(self).current as int]) == Some(typ),
        ensures
            final(self).took(
                old(self),
                Step::Emit { typ, end: old(self).current + 1, literal: None },
                Ok(()),
            ),
    {
        let line = self.line;
        let column = self.column;
        self.advance(1);
        self.emit(typ, line, column, None);
    }

    /// Passes the byte at the cursor, which takes `columns` columns and ends
    /// no line.
    fn advance(&mut self, columns: usize) -> (byte: u8)
        requires
            old(self).located(),
            old(self).current < old(self).text().len(),
            old(self).text()[old(self).current as int] != NEWLINE,
            columns == width_of(
                old(self).text()[old(self).current as int],
                old(self).options.tab_width,
            ),
        ensures
            final(self).located(),
            final(self).keeps(old(self)),
            final(self).current == old(self).current + 1,
            byte == old(self).text()[old(self).current as int],
    {
        let byte = self.peek();
        self.current = self.current + 1;
        self.column = self.column.saturating_add(columns);
        byte
    }

    /// Passes the newline at the cursor.
    fn new_line(&mut self)
        requires
            old(self).located(),
            old(self).current < old(self).text().len(),
            old(self).text()[old(self).current as int] == NEWLINE,
        ensures
            final(self).located(),
            final(self).keeps(old(self)),
            final(self).current == old(self).current + 1,
    {
        let _ = self.peek();
        self.line = self.line.saturating_add(1);
        self.column = 1;
        self.current = self.current + 1;
    }

    /// Passes the byte at the cursor, whatever it is.
    fn pass(&mut self)
        requires
            old(self).located(),
            old(self).current < old(self).text().len(),
        ensures
            final(self).located(),
            final(self).keeps(old(self)),
            final(self).current == old(self).current + 1,
    {
        let c = self.peek();
        if c == NEWLINE {
            self.new_line();
        } else if c == TAB {
            self.advance(self.options.tab_width);
        } else {
            self.advance(1);
        }
    }

    /// The byte before the cursor, zero at the start of the text.
    fn peek_last(&self) -> (byte: u8)
        ensures
            byte == byte_at(self.text(), self.current - 1),
    {
        let bytes = self.source.as_str().as_bytes();
        if 0 < self.current && self.current <= bytes.len() {
            bytes[self.current - 1]
        } else {
            0
        }
    }

    /// The byte at the cursor, zero at the end of the text.
    fn peek(&self) -> (byte: u8)
        ensures
            byte == byte_at(self.text(), self.current as int),
            self.text().len() <= usize::MAX,
    {
        let bytes = self.source.as_str().as_bytes();
        if self.current < bytes.len() {
            bytes[self.current]
        } else {
            0
        }
    }

    /// The byte behind the one at the cursor, zero where the text has none.
    fn peek_next(&self) -> (byte: u8)
        ensures
            byte == byte_at(self.text(), self.current + 1),
    {
        let bytes = self.source.as_str().as_bytes();
        if self.current < bytes.len() && self.current + 1 < bytes.len() {
            bytes[self.current + 1]
        } else {
            0
        }
    }

    /// Whether the cursor is behind the last byte.
    fn is_at_end(&self) -> (at_end: bool)
        ensures
            at_end == (self.current >= self.text().len()),
    {
        self.current >= self.source.as_str().as_bytes().len()
    }
}

} // verus!
