//! The one error that scanning and parsing report, and the faults it stands
//! for.

use super::text::{position_text, push_byte, push_position};
use vstd::prelude::*;
use vstd::string::*;
use vstd::utf8::*;

verus! {

#[derive(Debug)]
pub enum Error {
    /// Error occurs during the parsing step
    SyntaxError(String),
}

/// What can be wrong with a text. Every fault is reported as
/// [`Error::SyntaxError`]; the faults differ in the message only.
pub enum Fault {
    /// No token starts with this byte.
    UnexpectedToken { byte: u8, line: usize, column: usize },
    /// The block comment that opens here is never closed.
    UnterminatedComment { line: usize, column: usize },
    /// The string that opens here with `quote` is never closed.
    UnclosedQuote { quote: u8, line: usize, column: usize },
    /// A bare identifier stands here and identifiers are switched off.
    UnquotedIdentifier { name: Seq<u8>, line: usize, column: usize },
    /// What starts here like a number lacks digits.
    MalformedNumber { line: usize, column: usize },
    /// Two values of an array follow each other without a comma.
    MissingCommaInArray,
    /// Two properties of an object follow each other without a comma; the
    /// position is that of the token before the second property.
    MissingCommaInObject { line: usize, column: usize },
    /// A comma stands before a closing bracket and trailing commas are
    /// switched off.
    TrailingComma,
    /// An object names this key twice.
    DuplicateKey { key: Seq<u8> },
    /// A property starts with something that is no key.
    ExpectedKey,
    /// No colon follows the key of a property.
    ExpectedColon,
    /// A value is due and none starts here.
    ExpectedValue,
    /// The text ends inside an array.
    UnclosedArray,
    /// The text ends inside an object.
    UnclosedObject,
}

impl Fault {
    /// The message that reports this fault.
    pub open spec fn message(self) -> Seq<char> {
        match self {
            Fault::UnexpectedToken { byte, line, column } => "Unexpected token '"@.push(
                byte as char,
            ) + "' at "@ + position_text(line, column) + "."@,
            Fault::UnterminatedComment { line, column } => position_text(line, column)
                + ": Unterminated comment."@,
            Fault::UnclosedQuote { quote, line, column } => (position_text(line, column)
                + " Unclosed '"@).push(quote as char) + "'"@,
            Fault::UnquotedIdentifier {
                name,
                line,
                column,
            } => "Unquoted identifiers are not allowed '"@ + decode_utf8(name) + "' at "@
                + position_text(line, column) + "."@,
            Fault::MalformedNumber { line, column } => position_text(line, column)
                + ": Malformed number."@,
            Fault::MissingCommaInArray => "Expected ',' before next value in array."@,
            Fault::MissingCommaInObject { line, column } => position_text(line, column)
                + ": Expected ',' before next property in object."@,
            Fault::TrailingComma => "Trailing commas are not allowed."@,
            Fault::DuplicateKey { key } => "Duplicate key "@ + decode_utf8(key)
                + " found in object."@,
            Fault::ExpectedKey => "Expected key for key value pair."@,
            Fault::ExpectedColon => "Expected ':' after identifier."@,
            Fault::ExpectedValue => "Expected value."@,
            Fault::UnclosedArray => "Expected ']' at the end of an array."@,
            Fault::UnclosedObject => "Expected '}' at the end of an object."@,
        }
    }
}

impl Error {
    /// The text that the error carries.
    pub open spec fn message(&self) -> Seq<char> {
        match self {
            Error::SyntaxError(message) => message@,
        }
    }

    /// Whether this error is the report of `fault`.
    pub open spec fn reports(&self, fault: Fault) -> bool {
        self.message() == fault.message()
    }

    /// The error as a line for the user.
    pub fn to_string(&self) -> (line: String)
        ensures
            line@ == "Syntax Error: "@ + self.message(),
    {
        match self {
            Error::SyntaxError(message) => String::from_str("Syntax Error: ").concat(
                message.as_str(),
            ),
        }
    }

    /// An error with a fixed message.
    pub fn plain(message: &str) -> (error: Error)
        ensures
            error.message() == message@,
    {
        Error::SyntaxError(String::from_str(message))
    }

    /// The report of a byte with which no token starts.
    pub fn unexpected_token(byte: u8, line: usize, column: usize) -> (error: Error)
        ensures
            error.reports(Fault::UnexpectedToken { byte, line, column }),
    {
        let mut message = String::from_str("Unexpected token '");
        push_byte(&mut message, byte);
        message.append("' at ");
        push_position(&mut message, line, column);
        message.append(".");
        Error::SyntaxError(message)
    }

    /// The report of a block comment that is never closed.
    pub fn unterminated_comment(line: usize, column: usize) -> (error: Error)
        ensures
            error.reports(Fault::UnterminatedComment { line, column }),
    {
        let mut message = String::new();
        push_position(&mut message, line, column);
        message.append(": Unterminated comment.");
        assert(message@ =~= (Fault::UnterminatedComment { line, column }).message());
        Error::SyntaxError(message)
    }

    /// The report of a string that is never closed.
    pub fn unclosed_quote(quote: u8, line: usize, column: usize) -> (error: Error)
        ensures
            error.reports(Fault::UnclosedQuote { quote, line, column }),
    {
        let mut message = String::new();
        push_position(&mut message, line, column);
        message.append(" Unclosed '");
        push_byte(&mut message, quote);
        message.append("'");
        assert(message@ =~= (Fault::UnclosedQuote { quote, line, column }).message());
        Error::SyntaxError(message)
    }

    /// The report of an identifier where identifiers are switched off.
    pub fn unquoted_identifier(name: &str, line: usize, column: usize) -> (error: Error)
        ensures
            error.reports(
                Fault::UnquotedIdentifier { name: encode_utf8(name@), line, column },
            ),
    {
        let mut message = String::from_str("Unquoted identifiers are not allowed '");
        message.append(name);
        message.append("' at ");
        push_position(&mut message, line, column);
        message.append(".");
        proof {
            encode_utf8_decode_utf8(name@);
        }
        Error::SyntaxError(message)
    }

    /// The report of a number that lacks digits.
    pub fn malformed_number(line: usize, column: usize) -> (error: Error)
        ensures
            error.reports(Fault::MalformedNumber { line, column }),
    {
        let mut message = String::new();
        push_position(&mut message, line, column);
        message.append(": Malformed number.");
        assert(message@ =~= (Fault::MalformedNumber { line, column }).message());
        Error::SyntaxError(message)
    }

    /// The report of two properties without a comma between them.
    pub fn missing_comma_in_object(line: usize, column: usize) -> (error: Error)
        ensures
            error.reports(Fault::MissingCommaInObject { line, column }),
    {
        let mut message = String::new();
        push_position(&mut message, line, column);
        message.append(": Expected ',' before next property in object.");
        assert(message@ =~= (Fault::MissingCommaInObject { line, column }).message());
        Error::SyntaxError(message)
    }

    /// The report of a key that an object names twice.
    pub fn duplicate_key(key: &str) -> (error: Error)
        ensures
            error.reports(Fault::DuplicateKey { key: encode_utf8(key@) }),
    {
        let mut message = String::from_str("Duplicate key ");
        message.append(key);
        message.append(" found in object.");
        proof {
            encode_utf8_decode_utf8(key@);
        }
        Error::SyntaxError(message)
    }
}

} // verus!
