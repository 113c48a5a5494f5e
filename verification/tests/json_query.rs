use ssedit::json::lexer::{JsonStreamLexer, JsonStreamStatus, JsonToken};
use ssedit::json::path::{JsonPath, JsonPathOperator};
use ssedit::json::query::{selection_output, JsonQuery, OutputPiece};

const SAMPLE: &str = r#"{
	"id": "0001",
	"type": "donut",
	"batters":
		{
			"batter":
				[
					{ "id": "1001", "type": "Regular" },
					{ "id": "1002", "type": "Chocolate" },
					{ "id": "1003", "type": "Blueberry" }
				]
		}
}"#;

/// The tokens of `doc` that the query along `path` selects, read until the
/// lexer refuses a character.
fn selected(doc: &str, path: &JsonPath) -> Vec<JsonToken> {
    let mut query = JsonQuery::from(path);
    let mut lexer = JsonStreamLexer::new();
    let mut out = Vec::new();
    for c in doc.chars() {
        if lexer.push_char(c).is_err() {
            break;
        }
        while let JsonStreamStatus::Token(t) = lexer.pop_token() {
            assert!(query.accepts(&t));
            if query.parse(&t) {
                out.push(t);
            }
        }
    }
    out
}

fn values(tokens: &[JsonToken]) -> Vec<String> {
    let mut v = Vec::new();
    for t in tokens {
        match t {
            JsonToken::StringValue { value, .. } => v.push(value.clone()),
            JsonToken::IntegerValue { raw, .. } | JsonToken::FloatValue { raw } => v.push(raw.clone()),
            _ => {}
        }
    }
    v
}

#[test]
fn member_path_selects_nested_value() {
    let path = JsonPath::parse("$.batters.batter[1].type").unwrap();
    let tokens = selected(SAMPLE, &path);
    assert_eq!(values(&tokens), vec!["Chocolate".to_string()]);
}

#[test]
fn top_level_member() {
    let path = JsonPath::parse("$.type").unwrap();
    let tokens = selected(SAMPLE, &path);
    assert_eq!(values(&tokens), vec!["donut".to_string()]);
}

#[test]
fn array_item_selects_whole_object() {
    let path = JsonPath::parse("$.batters.batter[2]").unwrap();
    let tokens = selected(SAMPLE, &path);
    assert_eq!(values(&tokens), vec!["1003".to_string(), "Blueberry".to_string()]);
    let names: Vec<&str> = tokens.iter().map(|t| t.variant_name()).collect();
    assert!(names.contains(&"ObjectOpen"));
    assert_eq!(names.last(), Some(&"ObjectClose"));
}

#[test]
fn array_index_after_dot() {
    let doc = "[\n\t{ \"id\": \"5001\", \"type\": \"None\" }";
    let path = JsonPath::parse("$.[0].id").unwrap();
    let tokens = selected(doc, &path);
    assert_eq!(values(&tokens), vec!["5001".to_string()]);
}

#[test]
fn missing_member_selects_nothing() {
    let path = JsonPath::parse("$.toppings").unwrap();
    let tokens = selected(SAMPLE, &path);
    assert!(tokens.is_empty());
}

#[test]
fn path_parse_reads_steps() {
    let path = JsonPath::parse("$.batters.batter[1].type").unwrap();
    let ops = path.operations();
    assert_eq!(ops.len(), 5);
    assert!(matches!(ops[0], JsonPathOperator::ObjectRoot));
    assert!(matches!(&ops[1], JsonPathOperator::MemberAccess(n) if n == "batters"));
    assert!(matches!(&ops[2], JsonPathOperator::MemberAccess(n) if n == "batter"));
    assert!(matches!(ops[3], JsonPathOperator::ArrayIndex(1)));
    assert!(matches!(&ops[4], JsonPathOperator::MemberAccess(n) if n == "type"));
}

#[test]
fn path_parse_refuses_malformed_text() {
    assert!(JsonPath::parse("").is_none());
    assert!(JsonPath::parse("batters").is_none());
    assert!(JsonPath::parse("$.").is_none());
    assert!(JsonPath::parse("$[1").is_none());
    assert!(JsonPath::parse("$[x]").is_none());
    assert!(JsonPath::parse("$x").is_none());
    assert!(JsonPath::parse("$[99999999999999999999]").is_none());
    assert_eq!(JsonPath::parse("$").unwrap().operations().len(), 1);
}

#[test]
fn query_refuses_close_before_open() {
    let path = JsonPath::new(vec![JsonPathOperator::ObjectRoot, JsonPathOperator::MemberAccess("a".to_string())]);
    let query = JsonQuery::from(&path);
    assert!(!query.accepts(&JsonToken::ObjectClose("}".to_string())));
    assert!(query.accepts(&JsonToken::ObjectOpen("{".to_string())));
    assert!(query.accepts(&JsonToken::Whitespace(" ".to_string())));
}

#[test]
fn query_refuses_unsupported_step() {
    let path = JsonPath::new(vec![JsonPathOperator::DeepScanMemberAccess("a".to_string()), JsonPathOperator::ObjectRoot]);
    let query = JsonQuery::from(&path);
    assert!(!query.accepts(&JsonToken::ObjectOpen("{".to_string())));
}

#[test]
fn value_tokens_never_selected_before_path_end() {
    let path = JsonPath::parse("$.a").unwrap();
    let mut query = JsonQuery::from(&path);
    let t = JsonToken::StringValue { raw: "\"x\"".to_string(), value: "x".to_string() };
    assert!(!query.parse(&t));
}

fn rendered(pieces: Vec<OutputPiece>) -> String {
    let mut out = String::new();
    for p in pieces {
        match p {
            OutputPiece::Text(t) => out.push_str(&t),
            OutputPiece::Integer(v) => out.push_str(&v.to_string()),
            OutputPiece::FloatRaw(raw) => out.push_str(&format!("<{}>", raw)),
        }
    }
    out
}

#[test]
fn single_value_prints_alone() {
    let path = JsonPath::parse("$.batters.batter[1].type").unwrap();
    let tokens = selected(SAMPLE, &path);
    let pieces = selection_output(&tokens);
    assert_eq!(pieces.len(), 1);
    assert_eq!(rendered(pieces), "Chocolate");
}

#[test]
fn several_values_print_as_written() {
    let path = JsonPath::parse("$.batters.batter[2]").unwrap();
    let tokens = selected(SAMPLE, &path);
    let expected: String = tokens.iter().map(|t| t.raw().clone()).collect();
    assert!(expected.contains("{ \"id\": \"1003\", \"type\": \"Blueberry\" }"));
    assert_eq!(rendered(selection_output(&tokens)), expected);
}

#[test]
fn numbers_print_by_value() {
    let ints = vec![
        JsonToken::Whitespace(" ".to_string()),
        JsonToken::IntegerValue { raw: "007".to_string(), value: 7 },
    ];
    assert_eq!(rendered(selection_output(&ints)), "7");
    let floats = vec![JsonToken::FloatValue { raw: "0.55".to_string() }];
    assert_eq!(rendered(selection_output(&floats)), "<0.55>");
    assert!(selection_output(&Vec::new()).is_empty());
}

fn tok(kind: &str, text: &str) -> JsonToken {
    let t = text.to_string();
    match kind {
        "{" => JsonToken::ObjectOpen(t),
        "}" => JsonToken::ObjectClose(t),
        "[" => JsonToken::ArrayOpen(t),
        "]" => JsonToken::ArrayClose(t),
        ":" => JsonToken::KeyValueDelimiter(t),
        "," => JsonToken::ArrayItemDelimiter(t),
        "name" => JsonToken::PropertyName { raw: format!("\"{}\"", text), name: t },
        "str" => JsonToken::StringValue { raw: format!("\"{}\"", text), value: t },
        "int" => JsonToken::IntegerValue { raw: t.clone(), value: text.parse().unwrap() },
        _ => panic!("unknown token kind"),
    }
}

/// Which of the tokens the query along `path` selects.
fn selection_flags(path: &str, tokens: &[JsonToken]) -> Vec<bool> {
    let path = JsonPath::parse(path).unwrap();
    let mut query = JsonQuery::from(&path);
    let mut flags = Vec::new();
    for t in tokens {
        assert!(query.accepts(t));
        flags.push(query.parse(t));
    }
    flags
}

#[test]
fn leaving_an_object_off_the_path_keeps_the_array_index() {
    // {"a":[{"y":{}},{"x":1}]}
    let tokens = vec![
        tok("{", "{"), tok("name", "a"), tok(":", ":"), tok("[", "["),
        tok("{", "{"), tok("name", "y"), tok(":", ":"), tok("{", "{"), tok("}", "}"), tok("}", "}"), tok(",", ","),
        tok("{", "{"), tok("name", "x"), tok(":", ":"), tok("int", "1"), tok("}", "}"),
        tok("]", "]"), tok("}", "}"),
    ];
    let flags = selection_flags("$.a[1].x", &tokens);
    let chosen: Vec<usize> = (0..flags.len()).filter(|&i| flags[i]).collect();
    assert_eq!(chosen, vec![14]);
}

#[test]
fn nested_arrays_off_the_path_keep_the_array_index() {
    // {"a":[[1,[2]],{"b":[]},"c"]}
    let tokens = vec![
        tok("{", "{"), tok("name", "a"), tok(":", ":"), tok("[", "["),
        tok("[", "["), tok("int", "1"), tok(",", ","), tok("[", "["), tok("int", "2"), tok("]", "]"), tok("]", "]"),
        tok(",", ","), tok("{", "{"), tok("name", "b"), tok(":", ":"), tok("[", "["), tok("]", "]"), tok("}", "}"),
        tok(",", ","), tok("str", "c"), tok("]", "]"), tok("}", "}"),
    ];
    let flags = selection_flags("$.a[2]", &tokens);
    let chosen: Vec<usize> = (0..flags.len()).filter(|&i| flags[i]).collect();
    assert_eq!(chosen, vec![19]);
}
