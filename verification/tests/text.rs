use json::parser::error::Error;
use json::parser::text::{push_byte, push_decimal, push_position, substring};
use json::parser::tokens::{
    duplicate_tokens, lookup_keyword, same_bytes, Literal, Token, TokenType,
};
use json::parser::contains_key;
use json::parser::Value;

fn text_of(error: Error) -> String {
    match error {
        Error::SyntaxError(message) => message,
    }
}

#[test]
fn substring_takes_the_bytes_between_two_offsets() {
    assert_eq!(substring("hello", 1, 3), "el");
    assert_eq!(substring("hello", 0, 5), "hello");
    assert_eq!(substring("hello", 2, 2), "");
    assert_eq!(substring("h\u{e9}llo", 1, 3), "\u{e9}");
    assert_eq!(substring("h\u{e9}llo", 3, 6), "llo");
}

#[test]
fn decimal_notation_has_no_leading_zeros() {
    for (n, expected) in [
        (0usize, "0"),
        (7, "7"),
        (9, "9"),
        (10, "10"),
        (101, "101"),
        (12345, "12345"),
        (4294967295, "4294967295"),
    ] {
        let mut text = String::from("n=");
        push_decimal(&mut text, n);
        assert_eq!(text, format!("n={}", expected));
    }
    let mut text = String::new();
    push_decimal(&mut text, usize::MAX);
    assert_eq!(text, usize::MAX.to_string());
}

#[test]
fn position_is_line_colon_column() {
    let mut text = String::from("at ");
    push_position(&mut text, 12, 3);
    assert_eq!(text, "at 12:3");
}

#[test]
fn byte_is_pushed_as_the_character_of_its_code() {
    let mut text = String::new();
    push_byte(&mut text, b'a');
    push_byte(&mut text, 0xe9);
    push_byte(&mut text, 0);
    assert_eq!(text, "a\u{e9}\u{0}");
}

#[test]
fn errors_spell_their_fault() {
    assert_eq!(text_of(Error::plain("Expected value.")), "Expected value.");
    assert_eq!(text_of(Error::unexpected_token(b'#', 3, 14)), "Unexpected token '#' at 3:14.");
    assert_eq!(text_of(Error::unterminated_comment(1, 2)), "1:2: Unterminated comment.");
    assert_eq!(text_of(Error::unclosed_quote(b'"', 10, 20)), "10:20 Unclosed '\"'");
    assert_eq!(text_of(Error::unclosed_quote(b'\'', 1, 1)), "1:1 Unclosed '''");
    assert_eq!(
        text_of(Error::unquoted_identifier("foo", 2, 5)),
        "Unquoted identifiers are not allowed 'foo' at 2:5."
    );
    assert_eq!(text_of(Error::malformed_number(7, 8)), "7:8: Malformed number.");
    assert_eq!(
        text_of(Error::missing_comma_in_object(1, 6)),
        "1:6: Expected ',' before next property in object."
    );
    assert_eq!(text_of(Error::duplicate_key("k\u{e9}y")), "Duplicate key k\u{e9}y found in object.");
    assert_eq!(Error::plain("x").to_string(), "Syntax Error: x");
}

#[test]
fn keywords_are_looked_up_by_exact_text() {
    assert_eq!(lookup_keyword("null"), Some(TokenType::Null));
    assert_eq!(lookup_keyword("true"), Some(TokenType::True));
    assert_eq!(lookup_keyword("false"), Some(TokenType::False));
    for word in ["", "nul", "nulll", "Null", "TRUE", "fals", "_", "n"] {
        assert_eq!(lookup_keyword(word), None);
    }
}

#[test]
fn byte_strings_are_compared_byte_by_byte() {
    assert!(same_bytes(b"", b""));
    assert!(same_bytes(b"abc", b"abc"));
    assert!(!same_bytes(b"abc", b"abd"));
    assert!(!same_bytes(b"abc", b"ab"));
    assert!(!same_bytes(b"", b"a"));
}

#[test]
fn duplicate_keeps_every_field() {
    let token = Token {
        typ: TokenType::String,
        lexeme: "\"a\"".to_string(),
        line: 3,
        column: 9,
        literal: Some(Literal::String("a".to_string())),
    };
    let number = Token {
        typ: TokenType::Number,
        lexeme: "1.5".to_string(),
        line: 1,
        column: 2,
        literal: Some(Literal::Number("1.5".to_string())),
    };
    let copy = token.duplicate();
    assert_eq!(format!("{:?}", copy), format!("{:?}", token));
    let all = vec![token, number];
    let copies = duplicate_tokens(&all);
    assert_eq!(format!("{:?}", copies), format!("{:?}", all));
    assert_eq!(format!("{:?}", Literal::Null.duplicate()), "Null");
    assert_eq!(format!("{:?}", Literal::True.duplicate()), "True");
    assert_eq!(format!("{:?}", Literal::False.duplicate()), "False");
}

#[test]
fn key_is_found_among_properties() {
    let properties = vec![
        ("a".to_string(), Box::new(Value::Literal(Literal::Null))),
        ("b".to_string(), Box::new(Value::Literal(Literal::True))),
    ];
    assert!(contains_key(&properties, &"a".to_string()));
    assert!(contains_key(&properties, &"b".to_string()));
    assert!(!contains_key(&properties, &"c".to_string()));
    assert!(!contains_key(&properties, &"".to_string()));
    assert!(!contains_key(&Vec::new(), &"a".to_string()));
}
