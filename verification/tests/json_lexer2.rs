use ssedit::json::lexer2::{JsonLexError, JsonStreamLexer, JsonStreamStatus, JsonToken};

fn drain(lexer: &mut JsonStreamLexer) -> Vec<JsonToken> {
    let mut out = Vec::new();
    while let JsonStreamStatus::Token(t) = lexer.pop_token() {
        out.push(t);
    }
    out
}

#[test]
fn reads_a_string_property() {
    let mut lexer = JsonStreamLexer::new();
    for c in "{\"a\": \"b\"\n".chars() {
        lexer.push_char(c).unwrap();
    }
    let tokens = drain(&mut lexer);
    let names: Vec<&str> = tokens.iter().map(|t| t.variant_name()).collect();
    assert_eq!(names, vec!["ObjectOpen", "PropertyName", "Whitespace", "StringValue", "NewLine"]);
    match &tokens[1] {
        JsonToken::PropertyName { raw, name } => {
            assert_eq!(raw, "\"a\"");
            assert_eq!(name, "a");
        }
        _ => panic!("expected a property name"),
    }
    match &tokens[3] {
        JsonToken::StringValue { raw, value } => {
            assert_eq!(raw, "\"b\"");
            assert_eq!(value, "b");
        }
        _ => panic!("expected a string"),
    }
}

#[test]
fn refuses_close_with_nothing_open() {
    let mut lexer = JsonStreamLexer::new();
    assert_eq!(lexer.push_char('}'), Err(JsonLexError::UnexpectedCharacter));
    assert!(matches!(lexer.pop_token(), JsonStreamStatus::Empty));
    assert_eq!(JsonLexError::UnexpectedCharacter.message(), "unexpected character");
}

#[test]
fn newline_is_always_a_token() {
    let mut lexer = JsonStreamLexer::new();
    lexer.push_char('\n').unwrap();
    let names: Vec<&str> = drain(&mut lexer).iter().map(|t| t.variant_name()).collect();
    assert_eq!(names, vec!["NewLine"]);
}

#[test]
fn whitespace_before_colon() {
    let mut lexer = JsonStreamLexer::new();
    for c in "{\"k\" : ".chars() {
        lexer.push_char(c).unwrap();
    }
    let names: Vec<&str> = drain(&mut lexer).iter().map(|t| t.variant_name()).collect();
    assert_eq!(names, vec!["ObjectOpen", "PropertyName", "Whitespace", "KeyValueDelimiter"]);
}
