use ssedit::json::lexer::{JsonLexError, JsonStreamLexer, JsonStreamStatus, JsonToken};

fn feed(lexer: &mut JsonStreamLexer, text: &str) {
    for c in text.chars() {
        lexer.push_char(c).unwrap();
    }
}

fn drain(lexer: &mut JsonStreamLexer) -> Vec<JsonToken> {
    let mut out = Vec::new();
    while let JsonStreamStatus::Token(t) = lexer.pop_token() {
        out.push(t);
    }
    out
}

fn raw_of(t: &JsonToken) -> String {
    match t {
        JsonToken::PropertyName { raw, .. }
        | JsonToken::StringValue { raw, .. }
        | JsonToken::IntegerValue { raw, .. }
        | JsonToken::FloatValue { raw } => raw.clone(),
        JsonToken::ObjectOpen(s)
        | JsonToken::ObjectClose(s)
        | JsonToken::ArrayOpen(s)
        | JsonToken::ArrayClose(s)
        | JsonToken::Whitespace(s)
        | JsonToken::NewLine(s)
        | JsonToken::ArrayItemDelimiter(s)
        | JsonToken::PropertyDelimiter(s)
        | JsonToken::KeyValueDelimiter(s) => s.clone(),
    }
}

#[test]
fn tokens_keep_every_character() {
    let doc = "{\n\t\"a\": \"x y\",\n  \"b\": [ 1, 2.5 ]\n}";
    let mut lexer = JsonStreamLexer::new();
    let mut text = String::new();
    for c in doc.chars() {
        lexer.push_char(c).unwrap();
        for t in drain(&mut lexer) {
            text.push_str(&raw_of(&t));
        }
    }
    lexer.close();
    for t in drain(&mut lexer) {
        text.push_str(&raw_of(&t));
    }
    assert_eq!(text, doc);
}

#[test]
fn string_tokens_are_quoted_values() {
    let mut lexer = JsonStreamLexer::new();
    feed(&mut lexer, "{\"key\": \"va{l}ue\"");
    let tokens = drain(&mut lexer);
    let mut seen = 0;
    for t in tokens {
        match t {
            JsonToken::PropertyName { raw, name } => {
                assert_eq!(name, "key");
                assert_eq!(raw, "\"key\"");
                seen += 1;
            }
            JsonToken::StringValue { raw, value } => {
                assert_eq!(value, "va{l}ue");
                assert_eq!(raw, "\"va{l}ue\"");
                seen += 1;
            }
            _ => {}
        }
    }
    assert_eq!(seen, 2);
}

#[test]
fn integer_and_float_values() {
    let mut lexer = JsonStreamLexer::new();
    feed(&mut lexer, "{\"a\": [12,0.55,007]}");
    let tokens = drain(&mut lexer);
    let names: Vec<&str> = tokens.iter().map(|t| t.variant_name()).collect();
    assert_eq!(
        names,
        vec![
            "ObjectOpen",
            "PropertyName",
            "KeyValueDelimiter",
            "Whitespace",
            "ArrayOpen",
            "IntegerValue",
            "ArrayItemDelimiter",
            "FloatValue",
            "ArrayItemDelimiter",
            "IntegerValue",
            "ArrayClose",
            "ObjectClose"
        ]
    );
    match &tokens[5] {
        JsonToken::IntegerValue { raw, value } => {
            assert_eq!(raw, "12");
            assert_eq!(*value, 12);
        }
        _ => panic!("expected an integer"),
    }
    match &tokens[7] {
        JsonToken::FloatValue { raw } => assert_eq!(raw, "0.55"),
        _ => panic!("expected a float"),
    }
    match &tokens[9] {
        JsonToken::IntegerValue { value, .. } => assert_eq!(*value, 7),
        _ => panic!("expected an integer"),
    }
}

#[test]
fn tokens_come_out_in_order() {
    let mut lexer = JsonStreamLexer::new();
    feed(&mut lexer, "{ \"a\"");
    let names: Vec<&str> = drain(&mut lexer).iter().map(|t| t.variant_name()).collect();
    assert_eq!(names, vec!["ObjectOpen", "Whitespace", "PropertyName"]);
    assert!(matches!(lexer.pop_token(), JsonStreamStatus::Empty));
}

#[test]
fn refused_character_leaves_lexer_unchanged() {
    let mut lexer = JsonStreamLexer::new();
    assert_eq!(lexer.push_char('}'), Err(JsonLexError::UnexpectedCharacter));
    assert_eq!(lexer.partial_token_count(), 1);
    assert!(matches!(lexer.pop_token(), JsonStreamStatus::Empty));
    feed(&mut lexer, "{\"a\":\"b\"}");
    let names: Vec<&str> = drain(&mut lexer).iter().map(|t| t.variant_name()).collect();
    assert_eq!(names, vec!["ObjectOpen", "PropertyName", "KeyValueDelimiter", "StringValue", "ObjectClose"]);
}

#[test]
fn comma_in_property_name_is_malformed() {
    let mut lexer = JsonStreamLexer::new();
    feed(&mut lexer, "{");
    assert_eq!(lexer.push_char(','), Err(JsonLexError::MalformedProperty));
}

#[test]
fn comma_in_string_is_malformed() {
    let mut lexer = JsonStreamLexer::new();
    feed(&mut lexer, "{\"a");
    assert_eq!(lexer.push_char(','), Err(JsonLexError::MalformedString));
}

#[test]
fn second_decimal_point_is_malformed() {
    let mut lexer = JsonStreamLexer::new();
    feed(&mut lexer, "{\"a\":[1.2");
    assert_eq!(lexer.push_char('.'), Err(JsonLexError::MalformedNumber));
    lexer.push_char(']').unwrap();
    let names: Vec<&str> = drain(&mut lexer).iter().map(|t| t.variant_name()).collect();
    assert_eq!(names, vec!["ObjectOpen", "PropertyName", "KeyValueDelimiter", "ArrayOpen", "FloatValue", "ArrayClose"]);
}

#[test]
fn out_of_range_integer_is_malformed_before_comma() {
    let mut lexer = JsonStreamLexer::new();
    feed(&mut lexer, "{\"a\":[99999999999999999999999");
    assert_eq!(lexer.push_char(','), Err(JsonLexError::MalformedNumber));
    assert_eq!(lexer.push_char('\n'), Err(JsonLexError::MalformedNumber));
}

#[test]
fn out_of_range_integer_is_dropped_before_bracket() {
    let mut lexer = JsonStreamLexer::new();
    feed(&mut lexer, "{\"a\":[99999999999999999999999]");
    let names: Vec<&str> = drain(&mut lexer).iter().map(|t| t.variant_name()).collect();
    assert_eq!(names, vec!["ObjectOpen", "PropertyName", "KeyValueDelimiter", "ArrayOpen", "ArrayClose"]);
}

#[test]
fn close_flushes_partial_tokens() {
    let mut lexer = JsonStreamLexer::new();
    feed(&mut lexer, "[42");
    lexer.close();
    assert_eq!(lexer.partial_token_count(), 0);
    let tokens = drain(&mut lexer);
    assert_eq!(tokens.len(), 2);
    match &tokens[1] {
        JsonToken::IntegerValue { raw, value } => {
            assert_eq!(raw, "42");
            assert_eq!(*value, 42);
        }
        _ => panic!("expected an integer"),
    }
}

#[test]
fn close_keeps_open_string_text() {
    let mut lexer = JsonStreamLexer::new();
    feed(&mut lexer, "[\"ab");
    lexer.close();
    let tokens = drain(&mut lexer);
    match &tokens[1] {
        JsonToken::StringValue { raw, value } => {
            assert_eq!(raw, "\"ab");
            assert_eq!(value, "ab");
        }
        _ => panic!("expected a string"),
    }
}

#[test]
fn number_closed_by_brace_gives_array_close() {
    let mut lexer = JsonStreamLexer::new();
    feed(&mut lexer, "{\"n\": 5}");
    let names: Vec<&str> = drain(&mut lexer).iter().map(|t| t.variant_name()).collect();
    assert_eq!(names, vec!["ObjectOpen", "PropertyName", "KeyValueDelimiter", "Whitespace", "IntegerValue", "ArrayClose"]);
}

#[test]
fn error_messages() {
    assert_eq!(JsonLexError::UnexpectedCharacter.message(), "unexpected character");
    assert_eq!(JsonLexError::MalformedProperty.message(), "malformed property");
    assert_eq!(JsonLexError::MalformedString.message(), "malformed string");
    assert_eq!(JsonLexError::MalformedNumber.message(), "malformed number");
}

#[test]
fn a_member_after_a_number_member_is_read() {
    let mut lexer = JsonStreamLexer::new();
    feed(&mut lexer, "{\"a\":1.5,\"b\":2}");
    let tokens = drain(&mut lexer);
    let names: Vec<&str> = tokens.iter().map(|t| t.variant_name()).collect();
    assert_eq!(
        names,
        vec![
            "ObjectOpen",
            "PropertyName",
            "KeyValueDelimiter",
            "FloatValue",
            "PropertyDelimiter",
            "PropertyName",
            "KeyValueDelimiter",
            "IntegerValue",
            "ArrayClose",
        ]
    );
}
