use json::parser::error::Error;
use json::parser::tokens::Literal;
use json::parser::{Options, Parser, Value};

fn parse(text: &str, options: Options) -> Result<Value, Error> {
    Parser::new(options).parse(text.to_string())
}

fn value(text: &str, options: Options) -> Value {
    match parse(text, options) {
        Ok(value) => value,
        Err(Error::SyntaxError(message)) => panic!("parse failed: {}", message),
    }
}

fn message(text: &str, options: Options) -> String {
    match parse(text, options) {
        Ok(_) => panic!("parse succeeded"),
        Err(Error::SyntaxError(message)) => message,
    }
}

fn number(value: &Value) -> f64 {
    match value {
        Value::Literal(Literal::Number(text)) => text.parse::<f64>().expect("a float"),
        _ => panic!("no number"),
    }
}

fn string(value: &Value) -> &str {
    match value {
        Value::Literal(Literal::String(text)) => text.as_str(),
        _ => panic!("no string"),
    }
}

fn items(value: &Value) -> &Vec<Box<Value>> {
    match value {
        Value::Array(items) => items,
        _ => panic!("no array"),
    }
}

fn properties(value: &Value) -> &Vec<(String, Box<Value>)> {
    match value {
        Value::Object(properties) => properties,
        _ => panic!("no object"),
    }
}

fn keys(value: &Value) -> Vec<&str> {
    properties(value).iter().map(|property| property.0.as_str()).collect()
}

fn get<'a>(value: &'a Value, key: &str) -> &'a Value {
    let found: Vec<&(String, Box<Value>)> =
        properties(value).iter().filter(|property| property.0 == key).collect();
    assert_eq!(found.len(), 1);
    &found[0].1
}

fn numbers(value: &Value) -> Vec<f64> {
    items(value).iter().map(|item| number(item)).collect()
}

#[test]
fn keyword_literals_round_trip() {
    for options in [Options::default(), Options::js()] {
        assert!(matches!(value("true", options), Value::Literal(Literal::True)));
        assert!(matches!(value("false", options), Value::Literal(Literal::False)));
        assert!(matches!(value("null", options), Value::Literal(Literal::Null)));
    }
}

#[test]
fn floats_round_trip() {
    let floats = [
        0.0,
        -0.0,
        1.0,
        -1.5,
        0.1,
        3.141592653589793,
        1e21,
        1e-7,
        123456789.125,
        f64::MAX,
        f64::MIN,
        f64::MIN_POSITIVE,
        f64::EPSILON,
        5e-324,
    ];
    for x in floats {
        let plain = format!("{}", x);
        assert_eq!(number(&value(&plain, Options::default())).to_bits(), f64::to_bits(x));
        let exponent = format!("{:e}", x);
        assert_eq!(number(&value(&exponent, Options::default())).to_bits(), f64::to_bits(x));
    }
}

#[test]
fn strings_round_trip() {
    for text in ["", "a", "hello world", "a\\\"b", "it's", "tab\there", "{[:,]}", "h\u{e9}"] {
        let source = format!("\"{}\"", text);
        assert_eq!(string(&value(&source, Options::default())), text);
    }
    assert_eq!(string(&value("'say \"hi\"'", Options::js())), "say \"hi\"");
}

#[test]
fn object_with_number_and_array() {
    let parsed = value("{\"a\":1,\"b\":[1,2,3]}", Options::default());
    assert_eq!(keys(&parsed), vec!["a", "b"]);
    assert_eq!(number(get(&parsed, "a")), 1.0);
    assert_eq!(numbers(get(&parsed, "b")), vec![1.0, 2.0, 3.0]);
}

#[test]
fn duplicate_key_is_rejected() {
    assert_eq!(
        message("{\"a\":1,\"a\":2}", Options::default()),
        "Duplicate key a found in object."
    );
    assert_eq!(message("{a:1,'a':2}", Options::js()), "Duplicate key a found in object.");
    assert_eq!(
        message("{\"a\":1,\"b\":2,\"a\":3}", Options::js()),
        "Duplicate key a found in object."
    );
}

#[test]
fn same_key_in_nested_objects_is_fine() {
    let parsed = value("{\"a\":{\"a\":1},\"b\":{\"a\":2}}", Options::default());
    assert_eq!(number(get(get(&parsed, "a"), "a")), 1.0);
    assert_eq!(number(get(get(&parsed, "b"), "a")), 2.0);
}

#[test]
fn trailing_comma_needs_its_switch() {
    assert_eq!(message("[1,2,]", Options::default()), "Trailing commas are not allowed.");
    assert_eq!(numbers(&value("[1,2,]", Options::js())), vec![1.0, 2.0]);
    assert_eq!(message("{\"a\":1,}", Options::default()), "Trailing commas are not allowed.");
    assert_eq!(keys(&value("{\"a\":1,}", Options::js())), vec!["a"]);
    let only = Options::new(false, true, false, false, 4);
    assert_eq!(numbers(&value("[1,]", only)).len(), 1);
}

#[test]
fn comma_alone_is_no_value() {
    assert_eq!(message("[,]", Options::js()), "Expected value.");
    assert_eq!(message("[1,,2]", Options::js()), "Expected value.");
    assert_eq!(message("{,}", Options::js()), "Expected key for key value pair.");
}

#[test]
fn nested_comment_is_skipped() {
    let text = "{/* a /* b */ c */\"x\":1}";
    let parsed = value(text, Options::js());
    assert_eq!(keys(&parsed), vec!["x"]);
    assert_eq!(number(get(&parsed, "x")), 1.0);
    assert_eq!(message(text, Options::default()), "Unexpected token '/' at 1:2.");
}

#[test]
fn unquoted_key_needs_its_switch() {
    let parsed = value("{x:1}", Options::js());
    assert_eq!(keys(&parsed), vec!["x"]);
    assert_eq!(number(get(&parsed, "x")), 1.0);
    assert_eq!(
        message("{x:1}", Options::default()),
        "Unquoted identifiers are not allowed 'x' at 1:2."
    );
}

#[test]
fn unterminated_input_fails() {
    for options in [Options::default(), Options::js(), Options::new(true, false, true, false, 0)] {
        assert_eq!(message("{\"a\":", options), "Expected value.");
        assert_eq!(message("\"unterminated", options), "1:1 Unclosed '\"'");
    }
}

#[test]
fn text_that_ends_inside_a_container_fails() {
    assert_eq!(message("[", Options::default()), "Expected ']' at the end of an array.");
    assert_eq!(message("[1", Options::default()), "Expected ']' at the end of an array.");
    assert_eq!(message("[1,", Options::js()), "Expected ']' at the end of an array.");
    assert_eq!(message("[1,", Options::default()), "Trailing commas are not allowed.");
    assert_eq!(message("{", Options::default()), "Expected '}' at the end of an object.");
    assert_eq!(message("{\"a\":1", Options::default()), "Expected '}' at the end of an object.");
    assert_eq!(message("{\"a\":[1,2", Options::default()), "Expected ']' at the end of an array.");
    assert_eq!(message("[[[", Options::default()), "Expected ']' at the end of an array.");
}

#[test]
fn empty_text_has_no_value() {
    assert_eq!(message("", Options::default()), "Expected value.");
    assert_eq!(message("  \n\t", Options::default()), "Expected value.");
    assert_eq!(message("// nothing", Options::js()), "Expected value.");
}

#[test]
fn missing_comma_is_reported() {
    assert_eq!(message("[1 2]", Options::default()), "Expected ',' before next value in array.");
    assert_eq!(
        message("{\"a\":1 \"b\":2}", Options::default()),
        "1:6: Expected ',' before next property in object."
    );
    assert_eq!(
        message("{\"a\":\n  [1]\n\"b\":2}", Options::default()),
        "2:5: Expected ',' before next property in object."
    );
}

#[test]
fn property_needs_key_colon_and_value() {
    assert_eq!(message("{1:2}", Options::default()), "Expected key for key value pair.");
    assert_eq!(message("{null:2}", Options::js()), "Expected key for key value pair.");
    assert_eq!(message("{[1]:2}", Options::js()), "Expected key for key value pair.");
    assert_eq!(message("{\"a\" 1}", Options::default()), "Expected ':' after identifier.");
    assert_eq!(message("{\"a\"}", Options::default()), "Expected ':' after identifier.");
    assert_eq!(message("{\"a\":}", Options::default()), "Expected value.");
    assert_eq!(message("{\"a\"::1}", Options::default()), "Expected value.");
}

#[test]
fn closing_bracket_of_the_other_kind_is_no_value() {
    assert_eq!(message("[}", Options::default()), "Expected value.");
    assert_eq!(message("{]", Options::default()), "Expected key for key value pair.");
    assert_eq!(message("]", Options::default()), "Expected value.");
    assert_eq!(message(":", Options::default()), "Expected value.");
}

#[test]
fn identifier_is_no_value() {
    assert_eq!(message("[x]", Options::js()), "Expected value.");
    assert_eq!(message("{a:b}", Options::js()), "Expected value.");
}

#[test]
fn empty_containers() {
    assert!(items(&value("[]", Options::default())).is_empty());
    assert!(properties(&value("{}", Options::default())).is_empty());
    assert!(items(&value(" [ \n ] ", Options::default())).is_empty());
    let nested = value("[[],{},[[]]]", Options::default());
    assert_eq!(items(&nested).len(), 3);
    assert!(properties(&items(&nested)[1]).is_empty());
    assert_eq!(items(&items(&nested)[2]).len(), 1);
}

#[test]
fn values_keep_the_order_of_the_text() {
    let parsed = value("[3,1,2,\"x\",null,true,false]", Options::default());
    let list = items(&parsed);
    assert_eq!(list.len(), 7);
    assert_eq!(number(&list[0]), 3.0);
    assert_eq!(number(&list[1]), 1.0);
    assert_eq!(number(&list[2]), 2.0);
    assert_eq!(string(&list[3]), "x");
    assert!(matches!(*list[4], Value::Literal(Literal::Null)));
    assert!(matches!(*list[5], Value::Literal(Literal::True)));
    assert!(matches!(*list[6], Value::Literal(Literal::False)));
    assert_eq!(keys(&value("{\"b\":1,\"c\":2,\"a\":3}", Options::default())), vec!["b", "c", "a"]);
}

#[test]
fn key_is_the_content_whatever_the_quotes() {
    let parsed = value("{'a b':1,\"c\":2,d_1:3}", Options::js());
    assert_eq!(keys(&parsed), vec!["a b", "c", "d_1"]);
}

#[test]
fn what_follows_the_first_value_is_not_read() {
    assert_eq!(number(&value("1 2", Options::default())), 1.0);
    assert_eq!(items(&value("[] ]", Options::default())).len(), 0);
    assert!(matches!(value("true,", Options::default()), Value::Literal(Literal::True)));
}

#[test]
fn fault_of_the_scanner_comes_before_any_parsing() {
    assert_eq!(message("[1, 2] @", Options::default()), "Unexpected token '@' at 1:8.");
    assert_eq!(message("] \"open", Options::default()), "1:3 Unclosed '\"'");
}

#[test]
fn parser_can_be_used_again() {
    let mut parser = Parser::new(Options::js());
    let first = parser.parse("[1, 2, 3]".to_string()).ok().expect("first");
    assert_eq!(numbers(&first), vec![1.0, 2.0, 3.0]);
    assert!(parser.parse("[1, 2".to_string()).is_err());
    let third = parser.parse("{a: 'b'}".to_string()).ok().expect("third");
    assert_eq!(string(get(&third, "a")), "b");
    assert_eq!(parser.source, "{a: 'b'}");
}

#[test]
fn deep_nesting_is_parsed() {
    let depth = 200;
    let text = format!("{}1{}", "[".repeat(depth), "]".repeat(depth));
    let mut current = value(&text, Options::default());
    for _ in 0..depth {
        let mut inner = match current {
            Value::Array(inner) => inner,
            _ => panic!("no array"),
        };
        assert_eq!(inner.len(), 1);
        current = *inner.remove(0);
    }
    assert_eq!(number(&current), 1.0);
}

#[test]
fn clone_keeps_the_value() {
    let parsed = value("{\"a\":[1,{\"b\":\"c\"},null],\"d\":true}", Options::default());
    let copy = parsed.clone();
    assert_eq!(format!("{:?}", copy), format!("{:?}", parsed));
}

#[test]
fn javascript_style_document() {
    let text = "// settings\n{\n\tname: 'demo', /* the name */\n\t\"sizes\": [1, 2.5, -3e2,],\n\tnested: { ok: true, none: null, },\n}\n";
    let parsed = value(text, Options::js());
    assert_eq!(keys(&parsed), vec!["name", "sizes", "nested"]);
    assert_eq!(string(get(&parsed, "name")), "demo");
    assert_eq!(numbers(get(&parsed, "sizes")), vec![1.0, 2.5, -300.0]);
    assert!(matches!(*get(get(&parsed, "nested"), "ok"), Value::Literal(Literal::True)));
    assert!(matches!(*get(get(&parsed, "nested"), "none"), Value::Literal(Literal::Null)));
    assert!(parse(text, Options::default()).is_err());
}
