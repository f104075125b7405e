use json::parser::error::Error;
use json::parser::scanner::Scanner;
use json::parser::tokens::{keywords, Literal, Token, TokenType};
use json::parser::utils::{is_alpha, is_alphanumeric, is_digit};
use json::parser::Options;

fn scan(text: &str, options: Options) -> Result<Vec<Token>, Error> {
    Scanner::new(text.to_string(), options).scan()
}

fn tokens(text: &str, options: Options) -> Vec<Token> {
    match scan(text, options) {
        Ok(tokens) => tokens,
        Err(Error::SyntaxError(message)) => panic!("scan failed: {}", message),
    }
}

fn message(text: &str, options: Options) -> String {
    match scan(text, options) {
        Ok(_) => panic!("scan succeeded"),
        Err(Error::SyntaxError(message)) => message,
    }
}

fn kinds(tokens: &[Token]) -> Vec<TokenType> {
    tokens.iter().map(|token| token.typ).collect()
}

fn string_of(token: &Token) -> String {
    match &token.literal {
        Some(Literal::String(text)) => text.clone(),
        _ => panic!("no string literal"),
    }
}

fn number_of(token: &Token) -> String {
    match &token.literal {
        Some(Literal::Number(text)) => text.clone(),
        _ => panic!("no number literal"),
    }
}

#[test]
fn digits_are_the_ten_ascii_digits() {
    for c in 0..=255u8 {
        assert_eq!(is_digit(&c), (b'0'..=b'9').contains(&c));
    }
}

#[test]
fn letters_and_underscore_are_alpha() {
    for c in 0..=255u8 {
        assert_eq!(is_alpha(&c), c.is_ascii_alphabetic() || c == b'_');
        assert_eq!(is_alphanumeric(&c), c.is_ascii_alphanumeric() || c == b'_');
    }
}

#[test]
fn keyword_table_holds_the_three_keywords() {
    let table = keywords();
    assert_eq!(
        table,
        vec![("null", TokenType::Null), ("true", TokenType::True), ("false", TokenType::False)]
    );
}

#[test]
fn empty_text_is_one_end_token() {
    let found = tokens("", Options::default());
    assert_eq!(found.len(), 1);
    assert_eq!(found[0].typ, TokenType::Eof);
    assert_eq!(found[0].lexeme, "\0");
    assert_eq!((found[0].line, found[0].column), (1, 1));
    assert!(found[0].literal.is_none());
}

#[test]
fn punctuation_is_one_token_each() {
    let found = tokens("{}:,[]", Options::default());
    assert_eq!(
        kinds(&found),
        vec![
            TokenType::LeftBrace,
            TokenType::RightBrace,
            TokenType::Colon,
            TokenType::Comma,
            TokenType::LeftSquareBracket,
            TokenType::RightSquareBracket,
            TokenType::Eof,
        ]
    );
    let lexemes: Vec<&str> = found.iter().map(|token| token.lexeme.as_str()).collect();
    assert_eq!(lexemes, vec!["{", "}", ":", ",", "[", "]", "\0"]);
    let columns: Vec<usize> = found.iter().map(|token| token.column).collect();
    assert_eq!(columns, vec![1, 2, 3, 4, 5, 6, 7]);
    assert!(found.iter().all(|token| token.line == 1 && token.literal.is_none()));
}

#[test]
fn exactly_one_end_token_and_it_is_last() {
    let found = tokens("[1, 2, {\"a\": null}]", Options::default());
    let ends = found.iter().filter(|token| token.typ == TokenType::Eof).count();
    assert_eq!(ends, 1);
    assert_eq!(found.last().map(|token| token.typ), Some(TokenType::Eof));
}

#[test]
fn newline_starts_a_line_at_column_one() {
    let found = tokens("1\n 2\n\n3", Options::default());
    let places: Vec<(usize, usize)> = found.iter().map(|t| (t.line, t.column)).collect();
    assert_eq!(places, vec![(1, 1), (2, 2), (4, 1), (4, 2)]);
}

#[test]
fn tab_takes_the_configured_width() {
    let four = tokens("\t1\t2", Options::default());
    assert_eq!((four[0].line, four[0].column), (1, 5));
    assert_eq!((four[1].line, four[1].column), (1, 10));
    let two = tokens("\t1\t2", Options::new(false, false, false, false, 2));
    assert_eq!(two[0].column, 3);
    assert_eq!(two[1].column, 6);
    let none = tokens("\t1\t2", Options::new(false, false, false, false, 0));
    assert_eq!(none[0].column, 1);
    assert_eq!(none[1].column, 2);
}

#[test]
fn carriage_return_and_space_take_one_column() {
    let found = tokens(" \r 1", Options::default());
    assert_eq!((found[0].line, found[0].column), (1, 4));
}

#[test]
fn huge_tab_width_saturates_the_column() {
    let found = tokens("\t\t1", Options::new(false, false, false, false, usize::MAX));
    assert_eq!(found[0].column, usize::MAX);
    assert_eq!(found[0].line, 1);
}

#[test]
fn string_token_keeps_quotes_in_lexeme_only() {
    let found = tokens("  \"ab c\"", Options::default());
    assert_eq!(kinds(&found), vec![TokenType::String, TokenType::Eof]);
    assert_eq!(found[0].lexeme, "\"ab c\"");
    assert_eq!(string_of(&found[0]), "ab c");
    assert_eq!((found[0].line, found[0].column), (1, 3));
    assert_eq!(found[1].column, 9);
}

#[test]
fn empty_string_has_empty_content() {
    let found = tokens("\"\"", Options::default());
    assert_eq!(found[0].lexeme, "\"\"");
    assert_eq!(string_of(&found[0]), "");
}

#[test]
fn quote_behind_backslash_does_not_close() {
    let found = tokens("\"a\\\"b\" 1", Options::default());
    assert_eq!(kinds(&found), vec![TokenType::String, TokenType::Number, TokenType::Eof]);
    assert_eq!(found[0].lexeme, "\"a\\\"b\"");
    assert_eq!(string_of(&found[0]), "a\\\"b");
}

#[test]
fn string_ending_in_backslash_is_unclosed() {
    assert_eq!(message("\"abc\\\"", Options::default()), "1:1 Unclosed '\"'");
}

#[test]
fn unclosed_string_reports_where_it_opened() {
    assert_eq!(message("[\n  \"unterminated", Options::default()), "2:3 Unclosed '\"'");
    assert_eq!(message("'abc", Options::js()), "1:1 Unclosed '''");
}

#[test]
fn string_may_hold_newlines_and_other_quotes() {
    let found = tokens("\"a\nb'c\" 1", Options::js());
    assert_eq!(string_of(&found[0]), "a\nb'c");
    assert_eq!((found[1].line, found[1].column), (2, 6));
}

#[test]
fn single_quotes_need_their_switch() {
    let found = tokens("'a\"b'", Options::js());
    assert_eq!(kinds(&found), vec![TokenType::String, TokenType::Eof]);
    assert_eq!(found[0].lexeme, "'a\"b'");
    assert_eq!(string_of(&found[0]), "a\"b");
    assert_eq!(message("'a'", Options::default()), "Unexpected token ''' at 1:1.");
}

#[test]
fn text_beyond_ascii_passes_through_strings() {
    let found = tokens("\"h\u{e9}llo \u{1f600}\" 1", Options::default());
    assert_eq!(string_of(&found[0]), "h\u{e9}llo \u{1f600}");
    assert_eq!(found[0].lexeme, "\"h\u{e9}llo \u{1f600}\"");
    // columns count bytes: 2 quotes, 6 ASCII bytes, 2 + 4 bytes, 1 space
    assert_eq!(found[1].column, 15);
}

#[test]
fn byte_beyond_ascii_outside_a_string_is_unexpected() {
    assert_eq!(message("\u{e9}", Options::js()), "Unexpected token '\u{c3}' at 1:1.");
}

#[test]
fn line_comment_runs_to_the_end_of_the_line() {
    let found = tokens("// one\n1 // two", Options::js());
    assert_eq!(kinds(&found), vec![TokenType::Number, TokenType::Eof]);
    assert_eq!((found[0].line, found[0].column), (2, 1));
    assert_eq!((found[1].line, found[1].column), (2, 9));
}

#[test]
fn block_comments_nest() {
    let found = tokens("/* a /* b */ c */ 1", Options::js());
    assert_eq!(kinds(&found), vec![TokenType::Number, TokenType::Eof]);
    assert_eq!(found[0].column, 19);
    assert_eq!(message("/* a /* b */ c 1", Options::js()), "1:1: Unterminated comment.");
}

#[test]
fn block_comment_keeps_count_of_lines() {
    let found = tokens("1 /* a\n\tb\n*/ 2", Options::js());
    assert_eq!((found[1].line, found[1].column), (3, 4));
}

#[test]
fn star_of_a_nested_opener_may_close_it() {
    let found = tokens("/*/*/ */1", Options::js());
    assert_eq!(kinds(&found), vec![TokenType::Number, TokenType::Eof]);
    assert_eq!(found[0].column, 9);
}

#[test]
fn opener_of_a_comment_does_not_close_it() {
    assert_eq!(message("/*/", Options::js()), "1:1: Unterminated comment.");
    assert_eq!(message("  /*", Options::js()), "1:3: Unterminated comment.");
}

#[test]
fn comments_need_their_switch() {
    assert_eq!(message("// a", Options::default()), "Unexpected token '/' at 1:1.");
    assert_eq!(message("1 /* a */", Options::default()), "Unexpected token '/' at 1:3.");
}

#[test]
fn lone_slash_is_unexpected() {
    assert_eq!(message("/ 1", Options::js()), "Unexpected token '/' at 1:1.");
    assert_eq!(message("/", Options::js()), "Unexpected token '/' at 1:1.");
}

#[test]
fn numbers_follow_the_grammar() {
    for text in ["0", "7", "-1", "12.5", "-0.25", "1e5", "1E5", "2e+10", "3.5E-7", "007", "-12.50e03"] {
        let found = tokens(text, Options::default());
        assert_eq!(kinds(&found), vec![TokenType::Number, TokenType::Eof], "{}", text);
        assert_eq!(found[0].lexeme, text);
        assert_eq!(number_of(&found[0]), text);
        assert!(text.parse::<f64>().is_ok());
    }
}

#[test]
fn point_without_digit_is_not_part_of_the_number() {
    assert_eq!(message("1.", Options::default()), "Unexpected token '.' at 1:2.");
    assert_eq!(message("1.e5", Options::default()), "Unexpected token '.' at 1:2.");
}

#[test]
fn number_without_digits_is_malformed() {
    assert_eq!(message("-", Options::default()), "1:1: Malformed number.");
    assert_eq!(message(" -x", Options::js()), "1:2: Malformed number.");
    assert_eq!(message("1e", Options::default()), "1:1: Malformed number.");
    assert_eq!(message("1e+", Options::default()), "1:1: Malformed number.");
    assert_eq!(message("[1.5E-]", Options::default()), "1:2: Malformed number.");
    assert_eq!(message("-.5", Options::default()), "1:1: Malformed number.");
}

#[test]
fn minus_inside_starts_a_new_number() {
    let found = tokens("1-2", Options::default());
    assert_eq!(kinds(&found), vec![TokenType::Number, TokenType::Number, TokenType::Eof]);
    assert_eq!(number_of(&found[0]), "1");
    assert_eq!(number_of(&found[1]), "-2");
}

#[test]
fn keywords_are_found_by_their_exact_text() {
    let found = tokens("null true false", Options::default());
    assert_eq!(
        kinds(&found),
        vec![TokenType::Null, TokenType::True, TokenType::False, TokenType::Eof]
    );
    assert!(found.iter().all(|token| token.literal.is_none()));
    assert_eq!(found[2].lexeme, "false");
    let words = tokens("nulls True _false null1", Options::js());
    assert!(words[..4].iter().all(|token| token.typ == TokenType::Identifier));
}

#[test]
fn identifiers_need_their_switch() {
    let found = tokens("foo_1 bar", Options::js());
    assert_eq!(kinds(&found), vec![TokenType::Identifier, TokenType::Identifier, TokenType::Eof]);
    assert_eq!(found[0].lexeme, "foo_1");
    assert!(found[0].literal.is_none());
    assert_eq!(
        message("{\n\tfoo: 1}", Options::default()),
        "Unquoted identifiers are not allowed 'foo' at 2:5."
    );
}

#[test]
fn anything_else_is_unexpected() {
    assert_eq!(message("@", Options::js()), "Unexpected token '@' at 1:1.");
    assert_eq!(message("[1,\n +2]", Options::js()), "Unexpected token '+' at 2:2.");
    assert_eq!(message("\u{0}", Options::js()), "Unexpected token '\u{0}' at 1:1.");
}

#[test]
fn first_fault_in_the_text_is_reported() {
    assert_eq!(message("@ \"open", Options::js()), "Unexpected token '@' at 1:1.");
    assert_eq!(message("\"open @", Options::js()), "1:1 Unclosed '\"'");
}

#[test]
fn positions_beyond_nine_are_written_in_full() {
    let text = format!("{}\n{}@", "\n".repeat(11), " ".repeat(122));
    assert_eq!(message(&text, Options::js()), "Unexpected token '@' at 13:123.");
}

#[test]
fn scanning_again_gives_the_same_tokens() {
    let mut scanner = Scanner::new("[1, \"a\"]".to_string(), Options::default());
    let first = scanner.scan().ok().expect("first scan");
    let second = scanner.scan().ok().expect("second scan");
    assert_eq!(first.len(), 6);
    assert_eq!(kinds(&first), kinds(&second));
    for (a, b) in first.iter().zip(second.iter()) {
        assert_eq!(a.lexeme, b.lexeme);
        assert_eq!((a.line, a.column), (b.line, b.column));
    }
}

#[test]
fn error_line_names_the_kind() {
    match scan("@", Options::default()) {
        Err(error) => assert_eq!(error.to_string(), "Syntax Error: Unexpected token '@' at 1:1."),
        Ok(_) => panic!("scan succeeded"),
    }
}
