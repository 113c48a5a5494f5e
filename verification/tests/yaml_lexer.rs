use ssedit::yaml::lexer::{YamlLexError, YamlStreamLexer, YamlStreamStatus, YamlToken};

fn drain(lexer: &mut YamlStreamLexer) -> Vec<YamlToken> {
    let mut out = Vec::new();
    while let YamlStreamStatus::Token(t) = lexer.pop_token() {
        out.push(t);
    }
    out
}

#[test]
fn document_start_and_line_breaks() {
    let mut lexer = YamlStreamLexer::new();
    for c in "---\nkey: value\n".chars() {
        assert!(lexer.push_char(c).is_ok());
    }
    let tokens = drain(&mut lexer);
    assert_eq!(tokens.len(), 3);
    match &tokens[0] {
        YamlToken::YamlStart(raw) => assert_eq!(raw, "---"),
        _ => panic!("expected a document start"),
    }
    for t in &tokens[1..] {
        match t {
            YamlToken::NewLine(raw) => assert_eq!(raw, "\n"),
            _ => panic!("expected a line break"),
        }
    }
}

#[test]
fn a_line_break_at_the_root_is_one_newline() {
    let mut lexer = YamlStreamLexer::new();
    assert!(lexer.push_char('\n').is_ok());
    match lexer.pop_token() {
        YamlStreamStatus::Token(YamlToken::NewLine(raw)) => assert_eq!(raw, "\n"),
        _ => panic!("expected a line break"),
    }
    assert!(matches!(lexer.pop_token(), YamlStreamStatus::Empty));
}

#[test]
fn other_characters_are_ignored() {
    let mut lexer = YamlStreamLexer::new();
    for c in "abc: 1".chars() {
        assert!(lexer.push_char(c).is_ok());
    }
    assert!(matches!(lexer.pop_token(), YamlStreamStatus::Empty));
    assert_eq!(YamlLexError::UnexpectedCharacter.message(), "unexpected character");
}
