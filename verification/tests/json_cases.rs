use parsing::json::parser::{parse_array, parse_boolean, parse_number, parse_object, parse_string, parse_value};
use parsing::{parse_json, JsonType, ParserError, StringMap};

fn chars(s: &str) -> Vec<char> {
    s.chars().collect()
}

#[test]
fn empty_object_and_empty_array() {
    assert_eq!(parse_json("{}"), Ok(JsonType::Object(StringMap::new())));
    assert_eq!(parse_json("[]"), Ok(JsonType::Array(vec![])));
}

#[test]
fn array_of_three_integers() {
    assert_eq!(
        parse_json("[1, 2, 3]"),
        Ok(JsonType::Array(vec![JsonType::Number(1), JsonType::Number(2), JsonType::Number(3)]))
    );
}

#[test]
fn empty_and_blank_input_is_empty_input() {
    assert_eq!(parse_json(""), Err(ParserError::EmptyInput));
    assert_eq!(parse_json("   "), Err(ParserError::EmptyInput));
    assert_eq!(parse_json(" \t\r\n\u{a0}\u{3000}"), Err(ParserError::EmptyInput));
}

#[test]
fn nested_array_is_not_supported() {
    assert_eq!(
        parse_json("[[1]]"),
        Err(ParserError::NotSupported("Nested arrays not supported yet".to_string()))
    );
    assert_eq!(
        parse_json("[1, [2]]"),
        Err(ParserError::NotSupported("Nested arrays not supported yet".to_string()))
    );
}

#[test]
fn array_inside_object_inside_array_is_read() {
    let mut inner = StringMap::new();
    inner.insert("a".to_string(), JsonType::Array(vec![JsonType::Number(1)]));
    assert_eq!(parse_json(r#"[{"a": [1]}]"#), Ok(JsonType::Array(vec![JsonType::Object(inner)])));
}

#[test]
fn leading_character_decides() {
    assert_eq!(
        parse_json("x"),
        Err(ParserError::UnexpectedToken("Unexpected token: x".to_string()))
    );
    assert_eq!(
        parse_json("  \"text\""),
        Err(ParserError::UnexpectedToken("Unexpected token: \"".to_string()))
    );
    assert_eq!(
        parse_json("12"),
        Err(ParserError::UnexpectedToken("Unexpected token: 1".to_string()))
    );
}

#[test]
fn what_follows_the_value_is_ignored() {
    assert_eq!(parse_json("{} trailing"), Ok(JsonType::Object(StringMap::new())));
    assert_eq!(parse_json("[1] ]"), Ok(JsonType::Array(vec![JsonType::Number(1)])));
}

#[test]
fn duplicate_key_keeps_last_value() {
    let mut expected = StringMap::new();
    expected.insert("a".to_string(), JsonType::Number(3));
    expected.insert("b".to_string(), JsonType::Number(2));
    assert_eq!(parse_json(r#"{"a": 1, "b": 2, "a": 3}"#), Ok(JsonType::Object(expected)));
}

#[test]
fn members_are_found_in_any_order() {
    let value = parse_json(r#"{"zeta": 1, "alpha": 2, "mid": 3}"#).unwrap();
    match value {
        JsonType::Object(map) => {
            assert_eq!(map.len(), 3);
            assert_eq!(map.get("zeta"), Some(&JsonType::Number(1)));
            assert_eq!(map.get("alpha"), Some(&JsonType::Number(2)));
            assert_eq!(map.get("mid"), Some(&JsonType::Number(3)));
            assert_eq!(map.get("none"), None);
        }
        _ => panic!("expected an object"),
    }
}

#[test]
fn missing_colon_is_missing_token() {
    assert_eq!(
        parse_json(r#"{"a" 1}"#),
        Err(ParserError::MissingToken("Expected ':' after key".to_string()))
    );
    assert_eq!(
        parse_json(r#"{"a" : 1}"#),
        Err(ParserError::MissingToken("Expected ':' after key".to_string()))
    );
}

#[test]
fn unclosed_string_is_missing_token() {
    assert_eq!(
        parse_json(r#"{"a": "open}"#),
        Err(ParserError::MissingToken("Missing closing quote for string".to_string()))
    );
    assert_eq!(
        parse_json(r#"["open"#),
        Err(ParserError::MissingToken("Missing closing quote for string".to_string()))
    );
}

#[test]
fn key_without_quote_is_invalid_syntax() {
    assert_eq!(
        parse_json("{a: 1}"),
        Err(ParserError::InvalidSyntax("String must start with a quote: a: 1}".to_string()))
    );
}

#[test]
fn misspelt_boolean_is_invalid_syntax() {
    assert_eq!(
        parse_json(r#"{"a": tru}"#),
        Err(ParserError::InvalidSyntax("Invalid boolean: tru}".to_string()))
    );
    assert_eq!(
        parse_json("[fals"),
        Err(ParserError::InvalidSyntax("Invalid boolean: fals".to_string()))
    );
    assert_eq!(
        parse_json("[t\u{e9}\u{e9}x]"),
        Err(ParserError::InvalidSyntax("Invalid boolean: t\u{e9}\u{e9}x]".to_string()))
    );
}

#[test]
fn unexpected_value_character() {
    assert_eq!(
        parse_json(r#"{"a": x}"#),
        Err(ParserError::UnexpectedToken("Unexpected token in object value: x".to_string()))
    );
    assert_eq!(
        parse_json("[x]"),
        Err(ParserError::UnexpectedToken("Unexpected token in array: x".to_string()))
    );
}

#[test]
fn unexpected_separator() {
    assert_eq!(
        parse_json(r#"{"a": 1 "b": 2}"#),
        Err(ParserError::UnexpectedToken("Expected ',' or '}' in object, found: \"".to_string()))
    );
    assert_eq!(
        parse_json("[1 2]"),
        Err(ParserError::UnexpectedToken("Expected ',' or ']' in array, found: 2".to_string()))
    );
}

#[test]
fn text_that_ends_too_early_is_empty_input() {
    assert_eq!(parse_json("{"), Err(ParserError::EmptyInput));
    assert_eq!(parse_json("["), Err(ParserError::EmptyInput));
    assert_eq!(parse_json(r#"{"a""#), Err(ParserError::EmptyInput));
    assert_eq!(parse_json(r#"{"a":"#), Err(ParserError::EmptyInput));
    assert_eq!(parse_json(r#"{"a": true"#), Err(ParserError::EmptyInput));
    assert_eq!(parse_json(r#"{"a": true,"#), Err(ParserError::EmptyInput));
    assert_eq!(parse_json("[true"), Err(ParserError::EmptyInput));
    assert_eq!(parse_json("[true,  "), Err(ParserError::EmptyInput));
    assert_eq!(parse_json("[1, 2"), Err(ParserError::EmptyInput));
}

#[test]
fn trailing_comma_is_accepted() {
    let mut expected = StringMap::new();
    expected.insert("a".to_string(), JsonType::Number(1));
    assert_eq!(parse_json(r#"{"a": 1, }"#), Ok(JsonType::Object(expected)));
    assert_eq!(parse_json("[1, ]"), Ok(JsonType::Array(vec![JsonType::Number(1)])));
}

#[test]
fn bracket_in_place_of_an_item_stays_in_the_text() {
    assert_eq!(parse_array(&chars("[] x"), 0), Ok((vec![], 1)));
    assert_eq!(parse_array(&chars("[1]  x"), 0), Ok((vec![JsonType::Number(1)], 5)));
    assert_eq!(parse_array(&chars("[1, ] x"), 0), Ok((vec![JsonType::Number(1)], 4)));
    assert_eq!(
        parse_json(r#"{"a": []}"#),
        Err(ParserError::UnexpectedToken("Expected ',' or '}' in object, found: ]".to_string()))
    );
}

#[test]
fn brace_positions() {
    assert_eq!(parse_object(&chars("{}  x"), 0), Ok((StringMap::new(), 2)));
    let mut one = StringMap::new();
    one.insert("a".to_string(), JsonType::Boolean(true));
    assert_eq!(parse_object(&chars("{\"a\":true}  x"), 0), Ok((one, 12)));
    assert_eq!(
        parse_object(&chars("x"), 0),
        Err(ParserError::InvalidSyntax("Object must start with '{'".to_string()))
    );
    assert_eq!(
        parse_array(&chars("x"), 0),
        Err(ParserError::InvalidSyntax("Array must start with '['".to_string()))
    );
    assert_eq!(parse_object(&chars(""), 0), Err(ParserError::EmptyInput));
    assert_eq!(parse_array(&chars(""), 0), Err(ParserError::EmptyInput));
}

#[test]
fn escaped_quote_ends_the_string() {
    assert_eq!(parse_string(&chars(r#""a\"b""#), 0), Ok(("a\\".to_string(), 4)));
    assert_eq!(
        parse_json(r#"{"a": "x\"y"}"#),
        Err(ParserError::UnexpectedToken("Expected ',' or '}' in object, found: y".to_string()))
    );
}

#[test]
fn string_positions() {
    assert_eq!(parse_string(&chars("ab\"cd\"e"), 2), Ok(("cd".to_string(), 6)));
    assert_eq!(parse_string(&chars("\"\""), 0), Ok((String::new(), 2)));
    assert_eq!(
        parse_string(&chars("ab"), 2),
        Err(ParserError::InvalidSyntax("String must start with a quote: ".to_string()))
    );
}

#[test]
fn boolean_positions() {
    assert_eq!(parse_boolean(&chars("true"), 0), Ok((true, 4)));
    assert_eq!(parse_boolean(&chars("xfalse,"), 1), Ok((false, 6)));
    assert_eq!(parse_boolean(&chars("truex"), 0), Ok((true, 4)));
    assert_eq!(
        parse_boolean(&chars("x"), 0),
        Err(ParserError::UnexpectedToken("Expected boolean, found: x".to_string()))
    );
    assert_eq!(
        parse_boolean(&chars(""), 0),
        Err(ParserError::UnexpectedToken("Expected boolean, found:  ".to_string()))
    );
    assert_eq!(
        parse_boolean(&chars("t"), 0),
        Err(ParserError::InvalidSyntax("Invalid boolean: t".to_string()))
    );
}

#[test]
fn integers() {
    assert_eq!(parse_number(&chars("123,"), 0), Ok((JsonType::Number(123), 3)));
    assert_eq!(parse_number(&chars("-7]"), 0), Ok((JsonType::Number(-7), 2)));
    assert_eq!(parse_number(&chars("007 "), 0), Ok((JsonType::Number(7), 3)));
    assert_eq!(
        parse_number(&chars("9223372036854775807}"), 0),
        Ok((JsonType::Number(i64::MAX), 19))
    );
    assert_eq!(
        parse_number(&chars("-9223372036854775808}"), 0),
        Ok((JsonType::Number(i64::MIN), 20))
    );
    assert_eq!(
        parse_number(&chars("9223372036854775808}"), 0),
        Err(ParserError::InvalidSyntax("Invalid number: 9223372036854775808".to_string()))
    );
    assert_eq!(
        parse_number(&chars("-9223372036854775809}"), 0),
        Err(ParserError::InvalidSyntax("Invalid number: -9223372036854775809".to_string()))
    );
}

#[test]
fn sign_in_the_middle_is_taken_into_the_token() {
    assert_eq!(
        parse_number(&chars("1-2,"), 0),
        Err(ParserError::InvalidSyntax("Invalid number: 1-2".to_string()))
    );
    assert_eq!(
        parse_number(&chars("--1,"), 0),
        Err(ParserError::InvalidSyntax("Invalid number: --1".to_string()))
    );
    assert_eq!(
        parse_number(&chars("-,"), 0),
        Err(ParserError::InvalidSyntax("Invalid number: -".to_string()))
    );
}

#[test]
fn number_needs_a_character_behind_it() {
    assert_eq!(parse_number(&chars("123"), 0), Err(ParserError::EmptyInput));
    assert_eq!(parse_number(&chars(""), 0), Err(ParserError::EmptyInput));
    assert_eq!(
        parse_number(&chars("x1"), 0),
        Err(ParserError::InvalidSyntax("Invalid number: x1".to_string()))
    );
}

#[test]
fn decimals_keep_their_text() {
    assert_eq!(parse_number(&chars("56.2324,"), 0), Ok((JsonType::Decimal("56.2324".to_string()), 7)));
    assert_eq!(parse_number(&chars("-140.453,"), 0), Ok((JsonType::Decimal("-140.453".to_string()), 8)));
    assert_eq!(parse_number(&chars("5.,"), 0), Ok((JsonType::Decimal("5.".to_string()), 2)));
    assert_eq!(parse_number(&chars("-.5,"), 0), Ok((JsonType::Decimal("-.5".to_string()), 3)));
    assert_eq!(
        parse_number(&chars(".,"), 0),
        Err(ParserError::InvalidSyntax("Invalid number: .".to_string()))
    );
    assert_eq!(
        parse_number(&chars("1.2.3,"), 0),
        Err(ParserError::InvalidSyntax("Invalid number: 1.2.3".to_string()))
    );
    assert_eq!(
        parse_number(&chars("1.5-,"), 0),
        Err(ParserError::InvalidSyntax("Invalid number: 1.5-".to_string()))
    );
}

#[test]
fn decimal_text_reads_as_the_written_number() {
    match parse_json(r#"{"latitude": 56.2324, "longitude": -140.453}"#).unwrap() {
        JsonType::Object(map) => {
            match map.get("latitude") {
                Some(JsonType::Decimal(text)) => assert_eq!(text.parse::<f64>(), Ok(56.2324)),
                other => panic!("expected a decimal, found {:?}", other),
            }
            match map.get("longitude") {
                Some(JsonType::Decimal(text)) => assert_eq!(text.parse::<f64>(), Ok(-140.453)),
                other => panic!("expected a decimal, found {:?}", other),
            }
        }
        _ => panic!("expected an object"),
    }
}

#[test]
fn negative_number_in_array() {
    assert_eq!(
        parse_json("[-1, 2]"),
        Ok(JsonType::Array(vec![JsonType::Number(-1), JsonType::Number(2)]))
    );
}

#[test]
fn value_dispatch() {
    assert_eq!(parse_value(&chars("true "), 0, false), Ok((JsonType::Boolean(true), 4)));
    assert_eq!(parse_value(&chars("\"s\""), 0, true), Ok((JsonType::String("s".to_string()), 3)));
    assert_eq!(parse_value(&chars("[1]"), 0, false), Ok((JsonType::Array(vec![JsonType::Number(1)]), 3)));
    assert_eq!(
        parse_value(&chars("[1]"), 0, true),
        Err(ParserError::NotSupported("Nested arrays not supported yet".to_string()))
    );
    assert_eq!(parse_value(&chars("{}"), 0, true), Ok((JsonType::Object(StringMap::new()), 2)));
    assert_eq!(parse_value(&chars(""), 0, false), Err(ParserError::EmptyInput));
}

#[test]
fn white_space_between_tokens() {
    let text = "\n {\t\"a\" :1}";
    assert_eq!(
        parse_json(text),
        Err(ParserError::MissingToken("Expected ':' after key".to_string()))
    );
    let mut expected = StringMap::new();
    expected.insert("a".to_string(), JsonType::Number(1));
    expected.insert("b".to_string(), JsonType::String(" x ".to_string()));
    assert_eq!(
        parse_json("\n {\t\"a\":\u{a0}1\r\n,\n\"b\":\" x \"\t}\n"),
        Ok(JsonType::Object(expected))
    );
}

#[test]
fn deep_nesting_of_objects() {
    let depth = 200;
    let mut text = String::new();
    for _ in 0..depth {
        text.push_str("{\"k\":");
    }
    text.push_str("true");
    for _ in 0..depth {
        text.push('}');
    }
    let parsed = parse_json(&text).unwrap();
    let mut value = &parsed;
    for _ in 0..depth {
        value = match value {
            JsonType::Object(map) => map.get("k").unwrap(),
            other => panic!("expected an object, found {:?}", other),
        };
    }
    assert_eq!(value, &JsonType::Boolean(true));
}

#[test]
fn text_without_white_space_reads_as_written() {
    let mut inner = StringMap::new();
    inner.insert("d".to_string(), JsonType::Decimal("-2.5".to_string()));
    inner.insert("e".to_string(), JsonType::Object(StringMap::new()));
    let mut expected = StringMap::new();
    expected.insert("a".to_string(), JsonType::Number(-9223372036854775808));
    expected.insert(
        "b".to_string(),
        JsonType::Array(vec![
            JsonType::Boolean(true),
            JsonType::String("x y".to_string()),
            JsonType::Number(0),
        ]),
    );
    expected.insert("c".to_string(), JsonType::Object(inner));
    expected.insert("".to_string(), JsonType::Boolean(false));
    assert_eq!(
        parse_json(
            r#"{"a":-9223372036854775808,"b":[true,"x y",0],"c":{"d":-2.5,"e":{}},"a":7,"":false,"a":-9223372036854775808}"#
        ),
        Ok(JsonType::Object(expected))
    );
}
