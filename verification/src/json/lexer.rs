//! A streaming JSON lexer: characters go in one at a time, tokens come out
//! in order, and every token keeps the exact text it was read from.
use std::collections::VecDeque;
use vstd::prelude::*;
use crate::text::{string_of, string_push, decimal_isize, parse_decimal, contains_char};

verus! {

/// A token of a JSON document, with the raw text it was read from.
///
/// A number with a decimal point is a `FloatValue`; its floating-point value
/// is a function of `raw` and is left to the reader of the token.
#[derive(PartialEq)]
pub enum JsonToken {
    PropertyName { raw: String, name: String },
    StringValue { raw: String, value: String },
    IntegerValue { raw: String, value: isize },
    FloatValue { raw: String },
    ObjectOpen(String),
    ObjectClose(String),
    ArrayOpen(String),
    ArrayClose(String),
    Whitespace(String),
    NewLine(String),
    ArrayItemDelimiter(String),
    PropertyDelimiter(String),
    KeyValueDelimiter(String),
}

/// The mathematical value of a `JsonToken`: its strings as character sequences.
pub enum JsonTokenView {
    PropertyName { raw: Seq<char>, name: Seq<char> },
    StringValue { raw: Seq<char>, value: Seq<char> },
    IntegerValue { raw: Seq<char>, value: isize },
    FloatValue { raw: Seq<char> },
    ObjectOpen(Seq<char>),
    ObjectClose(Seq<char>),
    ArrayOpen(Seq<char>),
    ArrayClose(Seq<char>),
    Whitespace(Seq<char>),
    NewLine(Seq<char>),
    ArrayItemDelimiter(Seq<char>),
    PropertyDelimiter(Seq<char>),
    KeyValueDelimiter(Seq<char>),
}

impl View for JsonToken {
    type V = JsonTokenView;

    open spec fn view(&self) -> JsonTokenView {
        match self {
            JsonToken::PropertyName { raw, name } => JsonTokenView::PropertyName { raw: raw@, name: name@ },
            JsonToken::StringValue { raw, value } => JsonTokenView::StringValue { raw: raw@, value: value@ },
            JsonToken::IntegerValue { raw, value } => JsonTokenView::IntegerValue { raw: raw@, value: *value },
            JsonToken::FloatValue { raw } => JsonTokenView::FloatValue { raw: raw@ },
            JsonToken::ObjectOpen(s) => JsonTokenView::ObjectOpen(s@),
            JsonToken::ObjectClose(s) => JsonTokenView::ObjectClose(s@),
            JsonToken::ArrayOpen(s) => JsonTokenView::ArrayOpen(s@),
            JsonToken::ArrayClose(s) => JsonTokenView::ArrayClose(s@),
            JsonToken::Whitespace(s) => JsonTokenView::Whitespace(s@),
            JsonToken::NewLine(s) => JsonTokenView::NewLine(s@),
            JsonToken::ArrayItemDelimiter(s) => JsonTokenView::ArrayItemDelimiter(s@),
            JsonToken::PropertyDelimiter(s) => JsonTokenView::PropertyDelimiter(s@),
            JsonToken::KeyValueDelimiter(s) => JsonTokenView::KeyValueDelimiter(s@),
        }
    }
}

/// The text a token was read from.
pub open spec fn token_raw(t: JsonTokenView) -> Seq<char> {
    match t {
        JsonTokenView::PropertyName { raw, .. } => raw,
        JsonTokenView::StringValue { raw, .. } => raw,
        JsonTokenView::IntegerValue { raw, .. } => raw,
        JsonTokenView::FloatValue { raw } => raw,
        JsonTokenView::ObjectOpen(s) => s,
        JsonTokenView::ObjectClose(s) => s,
        JsonTokenView::ArrayOpen(s) => s,
        JsonTokenView::ArrayClose(s) => s,
        JsonTokenView::Whitespace(s) => s,
        JsonTokenView::NewLine(s) => s,
        JsonTokenView::ArrayItemDelimiter(s) => s,
        JsonTokenView::PropertyDelimiter(s) => s,
        JsonTokenView::KeyValueDelimiter(s) => s,
    }
}

impl JsonToken {
    /// The text the token was read from.
    pub fn raw(&self) -> (r: &String)
        ensures
            r@ == token_raw(self@),
    {
        match self {
            JsonToken::PropertyName { raw, .. } => raw,
            JsonToken::StringValue { raw, .. } => raw,
            JsonToken::IntegerValue { raw, .. } => raw,
            JsonToken::FloatValue { raw } => raw,
            JsonToken::ObjectOpen(s) => s,
            JsonToken::ObjectClose(s) => s,
            JsonToken::ArrayOpen(s) => s,
            JsonToken::ArrayClose(s) => s,
            JsonToken::Whitespace(s) => s,
            JsonToken::NewLine(s) => s,
            JsonToken::ArrayItemDelimiter(s) => s,
            JsonToken::PropertyDelimiter(s) => s,
            JsonToken::KeyValueDelimiter(s) => s,
        }
    }

    /// The name of the token's kind, as the variant is named.
    pub fn variant_name(&self) -> (r: &'static str)
        ensures
            r@ == token_kind_name(self@)@,
    {
        match self {
            JsonToken::PropertyName { .. } => "PropertyName",
            JsonToken::StringValue { .. } => "StringValue",
            JsonToken::IntegerValue { .. } => "IntegerValue",
            JsonToken::FloatValue { .. } => "FloatValue",
            JsonToken::ObjectOpen(_) => "ObjectOpen",
            JsonToken::ObjectClose(_) => "ObjectClose",
            JsonToken::ArrayOpen(_) => "ArrayOpen",
            JsonToken::ArrayClose(_) => "ArrayClose",
            JsonToken::Whitespace(_) => "Whitespace",
            JsonToken::NewLine(_) => "NewLine",
            JsonToken::ArrayItemDelimiter(_) => "ArrayItemDelimiter",
            JsonToken::PropertyDelimiter(_) => "PropertyDelimiter",
            JsonToken::KeyValueDelimiter(_) => "KeyValueDelimiter",
        }
    }
}

/// The name of a token's kind.
pub open spec fn token_kind_name(t: JsonTokenView) -> &'static str {
    match t {
        JsonTokenView::PropertyName { .. } => "PropertyName",
        JsonTokenView::StringValue { .. } => "StringValue",
        JsonTokenView::IntegerValue { .. } => "IntegerValue",
        JsonTokenView::FloatValue { .. } => "FloatValue",
        JsonTokenView::ObjectOpen(_) => "ObjectOpen",
        JsonTokenView::ObjectClose(_) => "ObjectClose",
        JsonTokenView::ArrayOpen(_) => "ArrayOpen",
        JsonTokenView::ArrayClose(_) => "ArrayClose",
        JsonTokenView::Whitespace(_) => "Whitespace",
        JsonTokenView::NewLine(_) => "NewLine",
        JsonTokenView::ArrayItemDelimiter(_) => "ArrayItemDelimiter",
        JsonTokenView::PropertyDelimiter(_) => "PropertyDelimiter",
        JsonTokenView::KeyValueDelimiter(_) => "KeyValueDelimiter",
    }
}


/// What the lexer is in the middle of: the open structures, and the text
/// of a token that has begun but not ended.
pub enum JsonPartialToken {
    Array,
    Object,
    PropertyName,
    PropertyValue,
    StringValue { raw: String, value: String },
    Root,
    NumberValue(String),
    Whitespace(String),
}

/// The mathematical value of a `JsonPartialToken`.
pub enum JsonPartialTokenView {
    Array,
    Object,
    PropertyName,
    PropertyValue,
    StringValue { raw: Seq<char>, value: Seq<char> },
    Root,
    NumberValue(Seq<char>),
    Whitespace(Seq<char>),
}

impl View for JsonPartialToken {
    type V = JsonPartialTokenView;

    open spec fn view(&self) -> JsonPartialTokenView {
        match self {
            JsonPartialToken::Array => JsonPartialTokenView::Array,
            JsonPartialToken::Object => JsonPartialTokenView::Object,
            JsonPartialToken::PropertyName => JsonPartialTokenView::PropertyName,
            JsonPartialToken::PropertyValue => JsonPartialTokenView::PropertyValue,
            JsonPartialToken::StringValue { raw, value } => JsonPartialTokenView::StringValue { raw: raw@, value: value@ },
            JsonPartialToken::Root => JsonPartialTokenView::Root,
            JsonPartialToken::NumberValue(n) => JsonPartialTokenView::NumberValue(n@),
            JsonPartialToken::Whitespace(w) => JsonPartialTokenView::Whitespace(w@),
        }
    }
}

/// The kind of a partial token, without its text.
#[derive(PartialEq, Eq, Structural, Clone, Copy)]
pub enum PartialKind {
    Array,
    Object,
    PropertyName,
    PropertyValue,
    StringValue,
    Root,
    NumberValue,
    Whitespace,
}

/// The kind of a partial token.
pub open spec fn partial_kind(p: JsonPartialTokenView) -> PartialKind {
    match p {
        JsonPartialTokenView::Array => PartialKind::Array,
        JsonPartialTokenView::Object => PartialKind::Object,
        JsonPartialTokenView::PropertyName => PartialKind::PropertyName,
        JsonPartialTokenView::PropertyValue => PartialKind::PropertyValue,
        JsonPartialTokenView::StringValue { .. } => PartialKind::StringValue,
        JsonPartialTokenView::Root => PartialKind::Root,
        JsonPartialTokenView::NumberValue(_) => PartialKind::NumberValue,
        JsonPartialTokenView::Whitespace(_) => PartialKind::Whitespace,
    }
}

/// Why the lexer refused a character. The lexer is left as it was.
#[derive(PartialEq, Eq, Structural, Clone, Copy, Debug)]
pub enum JsonLexError {
    /// The character cannot follow what has been read so far.
    UnexpectedCharacter,
    /// A `,` where a property name is expected.
    MalformedProperty,
    /// A `,` inside an open string (a line break there is an
    /// `UnexpectedCharacter`).
    MalformedString,
    /// A second `.` in a number, or a `,` or a line break that ends an
    /// integer too large for `isize`.
    MalformedNumber,
}

/// A short description of an error.
pub open spec fn error_message(e: JsonLexError) -> &'static str {
    match e {
        JsonLexError::UnexpectedCharacter => "unexpected character",
        JsonLexError::MalformedProperty => "malformed property",
        JsonLexError::MalformedString => "malformed string",
        JsonLexError::MalformedNumber => "malformed number",
    }
}

impl JsonLexError {
    /// A short description of the error.
    pub fn message(&self) -> (r: &'static str)
        ensures
            r@ == error_message(*self)@,
    {
        match self {
            JsonLexError::UnexpectedCharacter => "unexpected character",
            JsonLexError::MalformedProperty => "malformed property",
            JsonLexError::MalformedString => "malformed string",
            JsonLexError::MalformedNumber => "malformed number",
        }
    }
}

/// What the next call of `pop_token` gives.
pub enum JsonStreamStatus {
    /// No complete token is waiting.
    Empty,
    Token(JsonToken),
}

/// The streaming lexer: tokens that are complete, waiting to be popped in
/// the order they were read, and a stack of what is still open.
pub struct JsonStreamLexer {
    tokens: VecDeque<JsonToken>,
    partial_tokens: Vec<JsonPartialToken>,
}

/// The lexer as a value: its queue of complete tokens and its stack of
/// partial tokens (the last element is the top).
#[verifier::ext_equal]
pub struct JsonLexerView {
    pub tokens: Seq<JsonTokenView>,
    pub stack: Seq<JsonPartialTokenView>,
}

/// The values of a queue of tokens.
pub open spec fn tokens_view(q: Seq<JsonToken>) -> Seq<JsonTokenView> {
    q.map_values(|t: JsonToken| t@)
}

/// The values of a stack of partial tokens.
pub open spec fn partials_view(q: Seq<JsonPartialToken>) -> Seq<JsonPartialTokenView> {
    q.map_values(|p: JsonPartialToken| p@)
}

impl View for JsonStreamLexer {
    type V = JsonLexerView;

    closed spec fn view(&self) -> JsonLexerView {
        JsonLexerView { tokens: tokens_view(self.tokens@), stack: partials_view(self.partial_tokens@) }
    }
}

// ---------------------------------------------------------------------------
// The transition function: what one character does to the lexer.
// ---------------------------------------------------------------------------

/// The lexer with these tokens and this stack, as an outcome.
pub open spec fn lexed(tokens: Seq<JsonTokenView>, stack: Seq<JsonPartialTokenView>) -> Result<JsonLexerView, JsonLexError> {
    Ok(JsonLexerView { tokens, stack })
}

/// The outcome of a character that cannot follow what has been read.
pub open spec fn refused() -> Result<JsonLexerView, JsonLexError> {
    Err(JsonLexError::UnexpectedCharacter)
}

/// How the text of a finished number is read.
#[derive(PartialEq, Eq, Structural, Clone, Copy)]
pub enum NumberClass {
    /// It holds a decimal point.
    Float,
    /// It is an integer that fits in `isize`, with this value.
    Integer(isize),
    /// It is an integer that does not fit in `isize`.
    OutOfRange,
}

/// How the text `n` of a finished number is read.
pub open spec fn number_class(n: Seq<char>) -> NumberClass {
    if n.contains('.') {
        NumberClass::Float
    } else {
        match decimal_isize(n) {
            Some(v) => NumberClass::Integer(v),
            None => NumberClass::OutOfRange,
        }
    }
}

/// The tokens after a number with text `n` ends where an out-of-range
/// integer is dropped without a token.
pub open spec fn emit_number(tokens: Seq<JsonTokenView>, n: Seq<char>) -> Seq<JsonTokenView> {
    match number_class(n) {
        NumberClass::Float => tokens.push(JsonTokenView::FloatValue { raw: n }),
        NumberClass::Integer(v) => tokens.push(JsonTokenView::IntegerValue { raw: n, value: v }),
        NumberClass::OutOfRange => tokens,
    }
}

/// A string just opened by the quote `c`.
pub open spec fn string_start(c: char) -> JsonPartialTokenView {
    JsonPartialTokenView::StringValue { raw: seq![c], value: Seq::empty() }
}

/// A character inside a string is part of the string.
pub open spec fn in_string(s: JsonLexerView, raw: Seq<char>, value: Seq<char>, c: char) -> Result<JsonLexerView, JsonLexError> {
    lexed(s.tokens, s.stack.drop_last().push(JsonPartialTokenView::StringValue { raw: raw.push(c), value: value.push(c) }))
}

/// What `{` does.
pub open spec fn on_open_brace(s: JsonLexerView, c: char) -> Result<JsonLexerView, JsonLexError> {
    let t = s.tokens;
    if s.stack.len() == 0 {
        refused()
    } else {
        let r = s.stack.drop_last();
        let open = JsonTokenView::ObjectOpen(seq![c]);
        match s.stack.last() {
            JsonPartialTokenView::Array => lexed(t.push(open), r.push(JsonPartialTokenView::Array).push(JsonPartialTokenView::Object)),
            JsonPartialTokenView::PropertyValue => lexed(t.push(open), r.push(JsonPartialTokenView::Object)),
            JsonPartialTokenView::StringValue { raw, value } => in_string(s, raw, value, c),
            JsonPartialTokenView::Root => lexed(t.push(open), r.push(JsonPartialTokenView::Root).push(JsonPartialTokenView::Object).push(JsonPartialTokenView::PropertyName)),
            JsonPartialTokenView::Whitespace(w) => lexed(t.push(JsonTokenView::Whitespace(w)).push(open), r.push(JsonPartialTokenView::Object).push(JsonPartialTokenView::PropertyName)),
            _ => refused(),
        }
    }
}

/// What `}` does. A number ended by `}` is followed by an `ArrayClose`
/// token that holds the `}`.
pub open spec fn on_close_brace(s: JsonLexerView, c: char) -> Result<JsonLexerView, JsonLexError> {
    let t = s.tokens;
    if s.stack.len() == 0 {
        refused()
    } else {
        let r = s.stack.drop_last();
        let close = JsonTokenView::ObjectClose(seq![c]);
        match s.stack.last() {
            JsonPartialTokenView::Object => lexed(t.push(close), r),
            JsonPartialTokenView::PropertyValue => lexed(t.push(close), r),
            JsonPartialTokenView::StringValue { raw, value } => in_string(s, raw, value, c),
            JsonPartialTokenView::NumberValue(n) => {
                let t2 = emit_number(t, n).push(JsonTokenView::ArrayClose(seq![c]));
                if r.len() == 0 {
                    lexed(t2, r)
                } else if r.last() == JsonPartialTokenView::Object {
                    lexed(t2, r.drop_last())
                } else {
                    refused()
                }
            },
            JsonPartialTokenView::Whitespace(w) => {
                let t2 = t.push(JsonTokenView::Whitespace(w)).push(close);
                if r.len() == 0 {
                    lexed(t2, r)
                } else if r.last() == JsonPartialTokenView::Object {
                    lexed(t2, r.drop_last())
                } else if r.last() == JsonPartialTokenView::PropertyValue {
                    let r2 = r.drop_last();
                    if r2.len() == 0 {
                        lexed(t2, r2)
                    } else if r2.last() == JsonPartialTokenView::Object {
                        lexed(t2, r2.drop_last())
                    } else {
                        refused()
                    }
                } else {
                    refused()
                }
            },
            _ => refused(),
        }
    }
}

/// What `[` does.
pub open spec fn on_open_bracket(s: JsonLexerView, c: char) -> Result<JsonLexerView, JsonLexError> {
    let t = s.tokens;
    if s.stack.len() == 0 {
        refused()
    } else {
        let r = s.stack.drop_last();
        let open = JsonTokenView::ArrayOpen(seq![c]);
        match s.stack.last() {
            JsonPartialTokenView::Array => lexed(t.push(open), r.push(JsonPartialTokenView::Array).push(JsonPartialTokenView::Array)),
            JsonPartialTokenView::PropertyValue => lexed(t.push(open), r.push(JsonPartialTokenView::PropertyValue).push(JsonPartialTokenView::Array)),
            JsonPartialTokenView::StringValue { raw, value } => in_string(s, raw, value, c),
            JsonPartialTokenView::Root => lexed(t.push(open), r.push(JsonPartialTokenView::Root).push(JsonPartialTokenView::PropertyValue)),
            JsonPartialTokenView::Whitespace(w) => {
                let t2 = t.push(JsonTokenView::Whitespace(w)).push(open);
                if r.len() == 0 {
                    refused()
                } else {
                    let r2 = r.drop_last();
                    match r.last() {
                        JsonPartialTokenView::Array => lexed(t2, r2.push(JsonPartialTokenView::Array).push(JsonPartialTokenView::Array)),
                        JsonPartialTokenView::PropertyValue => lexed(t2, r2.push(JsonPartialTokenView::PropertyValue).push(JsonPartialTokenView::Array)),
                        JsonPartialTokenView::Root => lexed(t2, r2.push(JsonPartialTokenView::Root).push(JsonPartialTokenView::Array)),
                        _ => refused(),
                    }
                }
            },
            _ => refused(),
        }
    }
}

/// What `]` does.
pub open spec fn on_close_bracket(s: JsonLexerView, c: char) -> Result<JsonLexerView, JsonLexError> {
    let t = s.tokens;
    if s.stack.len() == 0 {
        refused()
    } else {
        let r = s.stack.drop_last();
        let close = JsonTokenView::ArrayClose(seq![c]);
        match s.stack.last() {
            JsonPartialTokenView::Array => lexed(t.push(close), r),
            JsonPartialTokenView::StringValue { raw, value } => in_string(s, raw, value, c),
            JsonPartialTokenView::NumberValue(n) => {
                let t2 = emit_number(t, n).push(close);
                if r.len() == 0 {
                    lexed(t2, r)
                } else if r.last() == JsonPartialTokenView::Array {
                    lexed(t2, r.drop_last())
                } else {
                    refused()
                }
            },
            JsonPartialTokenView::Whitespace(w) => {
                let t2 = t.push(JsonTokenView::Whitespace(w)).push(close);
                if r.len() == 0 {
                    lexed(t2, r)
                } else if r.last() == JsonPartialTokenView::Array {
                    lexed(t2, r.drop_last())
                } else {
                    refused()
                }
            },
            _ => refused(),
        }
    }
}

/// What `"` does: opens a string, or closes one into a property name or a
/// string value.
pub open spec fn on_quote(s: JsonLexerView, c: char) -> Result<JsonLexerView, JsonLexError> {
    let t = s.tokens;
    if s.stack.len() == 0 {
        refused()
    } else {
        let r = s.stack.drop_last();
        match s.stack.last() {
            JsonPartialTokenView::Array => lexed(t, r.push(JsonPartialTokenView::Array).push(string_start(c))),
            JsonPartialTokenView::PropertyName => lexed(t, r.push(JsonPartialTokenView::PropertyName).push(string_start(c))),
            JsonPartialTokenView::PropertyValue => lexed(t, r.push(JsonPartialTokenView::PropertyValue).push(string_start(c))),
            JsonPartialTokenView::StringValue { raw, value } => {
                let raw2 = raw.push(c);
                if r.len() == 0 {
                    refused()
                } else {
                    let r2 = r.drop_last();
                    match r.last() {
                        JsonPartialTokenView::Array => lexed(t.push(JsonTokenView::StringValue { raw: raw2, value }), r2.push(JsonPartialTokenView::Array)),
                        JsonPartialTokenView::Object => lexed(t.push(JsonTokenView::PropertyName { raw: raw2, name: value }), r2.push(JsonPartialTokenView::Object).push(JsonPartialTokenView::PropertyValue)),
                        JsonPartialTokenView::PropertyName => lexed(t.push(JsonTokenView::PropertyName { raw: raw2, name: value }), r2.push(JsonPartialTokenView::PropertyValue)),
                        JsonPartialTokenView::PropertyValue => lexed(t.push(JsonTokenView::StringValue { raw: raw2, value }), r2),
                        _ => refused(),
                    }
                }
            },
            JsonPartialTokenView::Whitespace(w) => {
                let t2 = t.push(JsonTokenView::Whitespace(w));
                if r.len() == 0 {
                    refused()
                } else {
                    let r2 = r.drop_last();
                    match r.last() {
                        JsonPartialTokenView::Array => lexed(t2, r2.push(JsonPartialTokenView::Array).push(string_start(c))),
                        JsonPartialTokenView::Object => lexed(t2, r2.push(JsonPartialTokenView::Object).push(string_start(c))),
                        JsonPartialTokenView::PropertyName => lexed(t2, r2.push(JsonPartialTokenView::PropertyName).push(string_start(c))),
                        JsonPartialTokenView::PropertyValue => lexed(t2, r2.push(JsonPartialTokenView::PropertyValue).push(string_start(c))),
                        _ => refused(),
                    }
                }
            },
            _ => refused(),
        }
    }
}

/// What a space or a tab does.
pub open spec fn on_blank(s: JsonLexerView, c: char) -> Result<JsonLexerView, JsonLexError> {
    let t = s.tokens;
    if s.stack.len() == 0 {
        refused()
    } else {
        let r = s.stack.drop_last();
        let ws = JsonPartialTokenView::Whitespace(seq![c]);
        match s.stack.last() {
            JsonPartialTokenView::StringValue { raw, value } => in_string(s, raw, value, c),
            JsonPartialTokenView::NumberValue(n) => {
                let t2 = emit_number(t, n);
                if r.len() == 0 {
                    refused()
                } else {
                    let r2 = r.drop_last();
                    match r.last() {
                        JsonPartialTokenView::Array => lexed(t2, r2.push(JsonPartialTokenView::Array).push(ws)),
                        JsonPartialTokenView::Object => lexed(t2, r2.push(JsonPartialTokenView::Object).push(ws)),
                        JsonPartialTokenView::PropertyValue => lexed(t2, r2.push(JsonPartialTokenView::PropertyValue).push(ws)),
                        _ => refused(),
                    }
                }
            },
            JsonPartialTokenView::Whitespace(w) => lexed(t, r.push(JsonPartialTokenView::Whitespace(w.push(c)))),
            other => lexed(t, r.push(other).push(ws)),
        }
    }
}

/// What `:` does.
pub open spec fn on_colon(s: JsonLexerView, c: char) -> Result<JsonLexerView, JsonLexError> {
    let t = s.tokens;
    if s.stack.len() == 0 {
        refused()
    } else {
        let r = s.stack.drop_last();
        let kv = JsonTokenView::KeyValueDelimiter(seq![c]);
        match s.stack.last() {
            JsonPartialTokenView::PropertyValue => lexed(t.push(kv), r.push(JsonPartialTokenView::PropertyValue)),
            JsonPartialTokenView::StringValue { raw, value } => in_string(s, raw, value, c),
            JsonPartialTokenView::Whitespace(w) => {
                if r.len() > 0 && r.last() == JsonPartialTokenView::PropertyValue {
                    lexed(t.push(JsonTokenView::Whitespace(w)).push(kv), r.drop_last().push(JsonPartialTokenView::PropertyValue))
                } else {
                    refused()
                }
            },
            _ => refused(),
        }
    }
}

/// What `,` does: it separates array items or members. After a member's
/// value, of whatever kind, the next member's name is expected.
pub open spec fn on_comma(s: JsonLexerView, c: char) -> Result<JsonLexerView, JsonLexError> {
    let t = s.tokens;
    if s.stack.len() == 0 {
        refused()
    } else {
        let r = s.stack.drop_last();
        let item = JsonTokenView::ArrayItemDelimiter(seq![c]);
        let prop = JsonTokenView::PropertyDelimiter(seq![c]);
        match s.stack.last() {
            JsonPartialTokenView::Array => lexed(t.push(item), r.push(JsonPartialTokenView::Array)),
            JsonPartialTokenView::Object => lexed(t.push(prop), r.push(JsonPartialTokenView::Object).push(JsonPartialTokenView::PropertyName)),
            JsonPartialTokenView::PropertyName => Err(JsonLexError::MalformedProperty),
            JsonPartialTokenView::PropertyValue => lexed(t.push(prop), r),
            JsonPartialTokenView::StringValue { .. } => Err(JsonLexError::MalformedString),
            JsonPartialTokenView::NumberValue(n) => {
                if number_class(n) == NumberClass::OutOfRange {
                    Err(JsonLexError::MalformedNumber)
                } else if r.len() == 0 {
                    refused()
                } else {
                    let t2 = emit_number(t, n);
                    let r2 = r.drop_last();
                    match r.last() {
                        JsonPartialTokenView::Array => lexed(t2.push(item), r2.push(JsonPartialTokenView::Array)),
                        JsonPartialTokenView::Object => lexed(
                            t2.push(prop),
                            r2.push(JsonPartialTokenView::Object).push(JsonPartialTokenView::PropertyName),
                        ),
                        JsonPartialTokenView::PropertyName => lexed(t2.push(prop), r2.push(JsonPartialTokenView::PropertyName)),
                        JsonPartialTokenView::PropertyValue => lexed(t2.push(prop), r2.push(JsonPartialTokenView::PropertyValue)),
                        _ => refused(),
                    }
                }
            },
            _ => refused(),
        }
    }
}

/// What a line break does.
pub open spec fn on_newline(s: JsonLexerView, c: char) -> Result<JsonLexerView, JsonLexError> {
    let t = s.tokens;
    if s.stack.len() == 0 {
        refused()
    } else {
        let r = s.stack.drop_last();
        let nl = JsonTokenView::NewLine(seq![c]);
        match s.stack.last() {
            JsonPartialTokenView::StringValue { .. } => refused(),
            JsonPartialTokenView::NumberValue(n) => {
                if number_class(n) == NumberClass::OutOfRange {
                    Err(JsonLexError::MalformedNumber)
                } else {
                    lexed(emit_number(t, n).push(nl), r)
                }
            },
            JsonPartialTokenView::Whitespace(w) => lexed(t.push(JsonTokenView::Whitespace(w)).push(nl), r),
            other => lexed(t.push(nl), r.push(other)),
        }
    }
}

/// What `.` does.
pub open spec fn on_dot(s: JsonLexerView, c: char) -> Result<JsonLexerView, JsonLexError> {
    if s.stack.len() == 0 {
        refused()
    } else {
        match s.stack.last() {
            JsonPartialTokenView::StringValue { raw, value } => in_string(s, raw, value, c),
            JsonPartialTokenView::NumberValue(n) => {
                if n.contains('.') {
                    Err(JsonLexError::MalformedNumber)
                } else {
                    lexed(s.tokens, s.stack.drop_last().push(JsonPartialTokenView::NumberValue(n.push(c))))
                }
            },
            _ => refused(),
        }
    }
}

/// What a decimal digit does.
pub open spec fn on_digit(s: JsonLexerView, c: char) -> Result<JsonLexerView, JsonLexError> {
    let t = s.tokens;
    if s.stack.len() == 0 {
        refused()
    } else {
        let r = s.stack.drop_last();
        let num = JsonPartialTokenView::NumberValue(seq![c]);
        match s.stack.last() {
            JsonPartialTokenView::Array => lexed(t, r.push(JsonPartialTokenView::Array).push(num)),
            JsonPartialTokenView::PropertyValue => lexed(t, r.push(num)),
            JsonPartialTokenView::StringValue { raw, value } => in_string(s, raw, value, c),
            JsonPartialTokenView::NumberValue(n) => lexed(t, r.push(JsonPartialTokenView::NumberValue(n.push(c)))),
            JsonPartialTokenView::Whitespace(w) => {
                if r.len() == 0 {
                    refused()
                } else {
                    let r2 = r.drop_last();
                    match r.last() {
                        JsonPartialTokenView::Array => lexed(t.push(JsonTokenView::Whitespace(w)), r2.push(JsonPartialTokenView::Array).push(num)),
                        JsonPartialTokenView::PropertyValue => lexed(t.push(JsonTokenView::Whitespace(w)), r2.push(num)),
                        _ => refused(),
                    }
                }
            },
            _ => refused(),
        }
    }
}

/// What any other character does: only a string can hold it.
pub open spec fn on_other(s: JsonLexerView, c: char) -> Result<JsonLexerView, JsonLexError> {
    if s.stack.len() > 0 && s.stack.last() is StringValue {
        in_string(s, s.stack.last()->StringValue_raw, s.stack.last()->StringValue_value, c)
    } else {
        refused()
    }
}

/// What pushing the character `c` does to the lexer `s`: the lexer after
/// it, or why the character is refused.
pub open spec fn push_step(s: JsonLexerView, c: char) -> Result<JsonLexerView, JsonLexError> {
    if c == '{' {
        on_open_brace(s, c)
    } else if c == '}' {
        on_close_brace(s, c)
    } else if c == '[' {
        on_open_bracket(s, c)
    } else if c == ']' {
        on_close_bracket(s, c)
    } else if c == '"' {
        on_quote(s, c)
    } else if c == ' ' || c == '\t' {
        on_blank(s, c)
    } else if c == ':' {
        on_colon(s, c)
    } else if c == ',' {
        on_comma(s, c)
    } else if c == '\n' {
        on_newline(s, c)
    } else if c == '.' {
        on_dot(s, c)
    } else if '0' <= c && c <= '9' {
        on_digit(s, c)
    } else {
        on_other(s, c)
    }
}

/// `after` is what a call with outcome `outcome` leaves, from `before`,
/// and `r` is what it returns.
pub open spec fn applied(
    before: JsonLexerView,
    outcome: Result<JsonLexerView, JsonLexError>,
    r: Result<(), JsonLexError>,
    after: JsonLexerView,
) -> bool {
    match outcome {
        Ok(v) => r == Ok::<(), JsonLexError>(()) && after == v,
        Err(e) => r == Err::<(), JsonLexError>(e) && after == before,
    }
}


/// How the text `n` of a finished number is read.
fn classify_number(n: &String) -> (r: NumberClass)
    ensures
        r == number_class(n@),
{
    if contains_char(n.as_str(), '.') {
        NumberClass::Float
    } else {
        match parse_decimal(n.as_str()) {
            Some(v) => NumberClass::Integer(v),
            None => NumberClass::OutOfRange,
        }
    }
}

impl JsonStreamLexer {
    fn emit(&mut self, t: JsonToken)
        ensures
            final(self)@ == (JsonLexerView { tokens: old(self)@.tokens.push(t@), stack: old(self)@.stack }),
    {
        let ghost q = self.tokens@;
        let ghost tv = t@;
        self.tokens.push_back(t);
        proof {
            assert(tokens_view(self.tokens@) =~= tokens_view(q).push(tv));
        }
    }

    fn push_partial(&mut self, p: JsonPartialToken)
        ensures
            final(self)@ == (JsonLexerView { tokens: old(self)@.tokens, stack: old(self)@.stack.push(p@) }),
    {
        let ghost q = self.partial_tokens@;
        let ghost pv = p@;
        self.partial_tokens.push(p);
        proof {
            assert(partials_view(self.partial_tokens@) =~= partials_view(q).push(pv));
        }
    }

    fn pop_partial(&mut self) -> (p: JsonPartialToken)
        requires
            old(self)@.stack.len() > 0,
        ensures
            p@ == old(self)@.stack.last(),
            final(self)@ == (JsonLexerView { tokens: old(self)@.tokens, stack: old(self)@.stack.drop_last() }),
    {
        let ghost q = self.partial_tokens@;
        let p = self.partial_tokens.pop();
        proof {
            assert(partials_view(self.partial_tokens@) =~= partials_view(q).drop_last());
        }
        match p {
            Some(p) => p,
            None => {
                proof {
                    assert(false);
                }
                JsonPartialToken::Root
            },
        }
    }

    /// The kind of the partial token `depth` places below the top.
    fn kind_at(&self, depth: usize) -> (k: Option<PartialKind>)
        ensures
            k == (if depth < self@.stack.len() {
                Some(partial_kind(self@.stack[self@.stack.len() - 1 - depth]))
            } else {
                None::<PartialKind>
            }),
    {
        let n = self.partial_tokens.len();
        if depth < n {
            let p = &self.partial_tokens[n - 1 - depth];
            let k = match p {
                JsonPartialToken::Array => PartialKind::Array,
                JsonPartialToken::Object => PartialKind::Object,
                JsonPartialToken::PropertyName => PartialKind::PropertyName,
                JsonPartialToken::PropertyValue => PartialKind::PropertyValue,
                JsonPartialToken::StringValue { .. } => PartialKind::StringValue,
                JsonPartialToken::Root => PartialKind::Root,
                JsonPartialToken::NumberValue(_) => PartialKind::NumberValue,
                JsonPartialToken::Whitespace(_) => PartialKind::Whitespace,
            };
            Some(k)
        } else {
            None
        }
    }

    /// How the number on top of the stack is read when it ends.
    fn top_number_class(&self) -> (r: NumberClass)
        requires
            self@.stack.len() > 0,
            self@.stack.last() is NumberValue,
        ensures
            r == number_class(self@.stack.last()->NumberValue_0),
    {
        let n = self.partial_tokens.len();
        match &self.partial_tokens[n - 1] {
            JsonPartialToken::NumberValue(raw) => classify_number(raw),
            _ => {
                proof {
                    assert(false);
                }
                NumberClass::Float
            },
        }
    }

    fn pop_whitespace(&mut self) -> (w: String)
        requires
            old(self)@.stack.len() > 0,
            old(self)@.stack.last() is Whitespace,
        ensures
            w@ == old(self)@.stack.last()->Whitespace_0,
            final(self)@ == (JsonLexerView { tokens: old(self)@.tokens, stack: old(self)@.stack.drop_last() }),
    {
        match self.pop_partial() {
            JsonPartialToken::Whitespace(w) => w,
            _ => {
                proof {
                    assert(false);
                }
                String::new()
            },
        }
    }

    fn pop_number(&mut self) -> (n: String)
        requires
            old(self)@.stack.len() > 0,
            old(self)@.stack.last() is NumberValue,
        ensures
            n@ == old(self)@.stack.last()->NumberValue_0,
            final(self)@ == (JsonLexerView { tokens: old(self)@.tokens, stack: old(self)@.stack.drop_last() }),
    {
        match self.pop_partial() {
            JsonPartialToken::NumberValue(n) => n,
            _ => {
                proof {
                    assert(false);
                }
                String::new()
            },
        }
    }

    fn pop_string(&mut self) -> (rv: (String, String))
        requires
            old(self)@.stack.len() > 0,
            old(self)@.stack.last() is StringValue,
        ensures
            rv.0@ == old(self)@.stack.last()->StringValue_raw,
            rv.1@ == old(self)@.stack.last()->StringValue_value,
            final(self)@ == (JsonLexerView { tokens: old(self)@.tokens, stack: old(self)@.stack.drop_last() }),
    {
        match self.pop_partial() {
            JsonPartialToken::StringValue { raw, value } => (raw, value),
            _ => {
                proof {
                    assert(false);
                }
                (String::new(), String::new())
            },
        }
    }

    /// Adds `c` to the string on top of the stack.
    fn extend_string(&mut self, c: char)
        requires
            old(self)@.stack.len() > 0,
            old(self)@.stack.last() is StringValue,
        ensures
            lexed(final(self)@.tokens, final(self)@.stack) == in_string(
                old(self)@,
                old(self)@.stack.last()->StringValue_raw,
                old(self)@.stack.last()->StringValue_value,
                c,
            ),
    {
        let (mut raw, mut value) = self.pop_string();
        string_push(&mut raw, c);
        string_push(&mut value, c);
        self.push_partial(JsonPartialToken::StringValue { raw, value });
    }

    /// Ends the number `n`: its token, unless it is an integer out of range.
    fn emit_number(&mut self, n: String, class: NumberClass)
        requires
            class == number_class(n@),
        ensures
            final(self)@ == (JsonLexerView { tokens: emit_number(old(self)@.tokens, n@), stack: old(self)@.stack }),
    {
        match class {
            NumberClass::Float => self.emit(JsonToken::FloatValue { raw: n }),
            NumberClass::Integer(v) => self.emit(JsonToken::IntegerValue { raw: n, value: v }),
            NumberClass::OutOfRange => {},
        }
    }
}


impl JsonStreamLexer {
    fn push_open_brace(&mut self, c: char) -> (r: Result<(), JsonLexError>)
        ensures
            applied(old(self)@, on_open_brace(old(self)@, c), r, final(self)@),
    {
        match self.kind_at(0) {
            Some(PartialKind::Array) => {
                self.pop_partial();
                self.emit(JsonToken::ObjectOpen(string_of(c)));
                self.push_partial(JsonPartialToken::Array);
                self.push_partial(JsonPartialToken::Object);
                Ok(())
            },
            Some(PartialKind::PropertyValue) => {
                self.pop_partial();
                self.emit(JsonToken::ObjectOpen(string_of(c)));
                self.push_partial(JsonPartialToken::Object);
                Ok(())
            },
            Some(PartialKind::StringValue) => {
                self.extend_string(c);
                Ok(())
            },
            Some(PartialKind::Root) => {
                self.pop_partial();
                self.emit(JsonToken::ObjectOpen(string_of(c)));
                self.push_partial(JsonPartialToken::Root);
                self.push_partial(JsonPartialToken::Object);
                self.push_partial(JsonPartialToken::PropertyName);
                Ok(())
            },
            Some(PartialKind::Whitespace) => {
                let w = self.pop_whitespace();
                self.emit(JsonToken::Whitespace(w));
                self.emit(JsonToken::ObjectOpen(string_of(c)));
                self.push_partial(JsonPartialToken::Object);
                self.push_partial(JsonPartialToken::PropertyName);
                Ok(())
            },
            _ => Err(JsonLexError::UnexpectedCharacter),
        }
    }

    fn push_close_brace(&mut self, c: char) -> (r: Result<(), JsonLexError>)
        ensures
            applied(old(self)@, on_close_brace(old(self)@, c), r, final(self)@),
    {
        let k1 = self.kind_at(1);
        let k2 = self.kind_at(2);
        match self.kind_at(0) {
            Some(PartialKind::Object) | Some(PartialKind::PropertyValue) => {
                self.pop_partial();
                self.emit(JsonToken::ObjectClose(string_of(c)));
                Ok(())
            },
            Some(PartialKind::StringValue) => {
                self.extend_string(c);
                Ok(())
            },
            Some(PartialKind::NumberValue) => {
                if k1.is_some() && k1 != Some(PartialKind::Object) {
                    return Err(JsonLexError::UnexpectedCharacter);
                }
                let class = self.top_number_class();
                let n = self.pop_number();
                self.emit_number(n, class);
                self.emit(JsonToken::ArrayClose(string_of(c)));
                if k1.is_some() {
                    self.pop_partial();
                }
                Ok(())
            },
            Some(PartialKind::Whitespace) => {
                if k1.is_some() && k1 != Some(PartialKind::Object) && k1 != Some(PartialKind::PropertyValue) {
                    return Err(JsonLexError::UnexpectedCharacter);
                }
                if k1 == Some(PartialKind::PropertyValue) && k2.is_some() && k2 != Some(PartialKind::Object) {
                    return Err(JsonLexError::UnexpectedCharacter);
                }
                let w = self.pop_whitespace();
                self.emit(JsonToken::Whitespace(w));
                self.emit(JsonToken::ObjectClose(string_of(c)));
                if k1.is_some() {
                    self.pop_partial();
                    if k1 == Some(PartialKind::PropertyValue) && k2.is_some() {
                        self.pop_partial();
                    }
                }
                Ok(())
            },
            _ => Err(JsonLexError::UnexpectedCharacter),
        }
    }

    fn push_open_bracket(&mut self, c: char) -> (r: Result<(), JsonLexError>)
        ensures
            applied(old(self)@, on_open_bracket(old(self)@, c), r, final(self)@),
    {
        let k1 = self.kind_at(1);
        match self.kind_at(0) {
            Some(PartialKind::Array) => {
                self.pop_partial();
                self.emit(JsonToken::ArrayOpen(string_of(c)));
                self.push_partial(JsonPartialToken::Array);
                self.push_partial(JsonPartialToken::Array);
                Ok(())
            },
            Some(PartialKind::PropertyValue) => {
                self.pop_partial();
                self.emit(JsonToken::ArrayOpen(string_of(c)));
                self.push_partial(JsonPartialToken::PropertyValue);
                self.push_partial(JsonPartialToken::Array);
                Ok(())
            },
            Some(PartialKind::StringValue) => {
                self.extend_string(c);
                Ok(())
            },
            Some(PartialKind::Root) => {
                self.pop_partial();
                self.emit(JsonToken::ArrayOpen(string_of(c)));
                self.push_partial(JsonPartialToken::Root);
                self.push_partial(JsonPartialToken::PropertyValue);
                Ok(())
            },
            Some(PartialKind::Whitespace) => {
                if k1 != Some(PartialKind::Array) && k1 != Some(PartialKind::PropertyValue) && k1 != Some(PartialKind::Root) {
                    return Err(JsonLexError::UnexpectedCharacter);
                }
                let w = self.pop_whitespace();
                self.emit(JsonToken::Whitespace(w));
                self.emit(JsonToken::ArrayOpen(string_of(c)));
                let below = self.pop_partial();
                self.push_partial(below);
                self.push_partial(JsonPartialToken::Array);
                Ok(())
            },
            _ => Err(JsonLexError::UnexpectedCharacter),
        }
    }

    fn push_close_bracket(&mut self, c: char) -> (r: Result<(), JsonLexError>)
        ensures
            applied(old(self)@, on_close_bracket(old(self)@, c), r, final(self)@),
    {
        let k1 = self.kind_at(1);
        match self.kind_at(0) {
            Some(PartialKind::Array) => {
                self.pop_partial();
                self.emit(JsonToken::ArrayClose(string_of(c)));
                Ok(())
            },
            Some(PartialKind::StringValue) => {
                self.extend_string(c);
                Ok(())
            },
            Some(PartialKind::NumberValue) => {
                if k1.is_some() && k1 != Some(PartialKind::Array) {
                    return Err(JsonLexError::UnexpectedCharacter);
                }
                let class = self.top_number_class();
                let n = self.pop_number();
                self.emit_number(n, class);
                self.emit(JsonToken::ArrayClose(string_of(c)));
                if k1.is_some() {
                    self.pop_partial();
                }
                Ok(())
            },
            Some(PartialKind::Whitespace) => {
                if k1.is_some() && k1 != Some(PartialKind::Array) {
                    return Err(JsonLexError::UnexpectedCharacter);
                }
                let w = self.pop_whitespace();
                self.emit(JsonToken::Whitespace(w));
                self.emit(JsonToken::ArrayClose(string_of(c)));
                if k1.is_some() {
                    self.pop_partial();
                }
                Ok(())
            },
            _ => Err(JsonLexError::UnexpectedCharacter),
        }
    }

    fn push_quote(&mut self, c: char) -> (r: Result<(), JsonLexError>)
        ensures
            applied(old(self)@, on_quote(old(self)@, c), r, final(self)@),
    {
        let k1 = self.kind_at(1);
        match self.kind_at(0) {
            Some(PartialKind::Array) | Some(PartialKind::PropertyName) | Some(PartialKind::PropertyValue) => {
                let p = self.pop_partial();
                self.push_partial(p);
                self.push_partial(JsonPartialToken::StringValue { raw: string_of(c), value: String::new() });
                Ok(())
            },
            Some(PartialKind::StringValue) => {
                match k1 {
                    Some(PartialKind::Array) => {
                        let (mut raw, value) = self.pop_string();
                        string_push(&mut raw, c);
                        self.pop_partial();
                        self.emit(JsonToken::StringValue { raw, value });
                        self.push_partial(JsonPartialToken::Array);
                        Ok(())
                    },
                    Some(PartialKind::Object) => {
                        let (mut raw, value) = self.pop_string();
                        string_push(&mut raw, c);
                        self.pop_partial();
                        self.emit(JsonToken::PropertyName { raw, name: value });
                        self.push_partial(JsonPartialToken::Object);
                        self.push_partial(JsonPartialToken::PropertyValue);
                        Ok(())
                    },
                    Some(PartialKind::PropertyName) => {
                        let (mut raw, value) = self.pop_string();
                        string_push(&mut raw, c);
                        self.pop_partial();
                        self.emit(JsonToken::PropertyName { raw, name: value });
                        self.push_partial(JsonPartialToken::PropertyValue);
                        Ok(())
                    },
                    Some(PartialKind::PropertyValue) => {
                        let (mut raw, value) = self.pop_string();
                        string_push(&mut raw, c);
                        self.pop_partial();
                        self.emit(JsonToken::StringValue { raw, value });
                        Ok(())
                    },
                    _ => Err(JsonLexError::UnexpectedCharacter),
                }
            },
            Some(PartialKind::Whitespace) => {
                if k1 != Some(PartialKind::Array) && k1 != Some(PartialKind::Object) && k1 != Some(PartialKind::PropertyName)
                    && k1 != Some(PartialKind::PropertyValue) {
                    return Err(JsonLexError::UnexpectedCharacter);
                }
                let w = self.pop_whitespace();
                self.emit(JsonToken::Whitespace(w));
                let below = self.pop_partial();
                self.push_partial(below);
                self.push_partial(JsonPartialToken::StringValue { raw: string_of(c), value: String::new() });
                Ok(())
            },
            _ => Err(JsonLexError::UnexpectedCharacter),
        }
    }

    fn push_blank(&mut self, c: char) -> (r: Result<(), JsonLexError>)
        ensures
            applied(old(self)@, on_blank(old(self)@, c), r, final(self)@),
    {
        let k1 = self.kind_at(1);
        match self.kind_at(0) {
            None => Err(JsonLexError::UnexpectedCharacter),
            Some(PartialKind::StringValue) => {
                self.extend_string(c);
                Ok(())
            },
            Some(PartialKind::NumberValue) => {
                if k1 != Some(PartialKind::Array) && k1 != Some(PartialKind::Object) && k1 != Some(PartialKind::PropertyValue) {
                    return Err(JsonLexError::UnexpectedCharacter);
                }
                let class = self.top_number_class();
                let n = self.pop_number();
                self.emit_number(n, class);
                let below = self.pop_partial();
                self.push_partial(below);
                self.push_partial(JsonPartialToken::Whitespace(string_of(c)));
                Ok(())
            },
            Some(PartialKind::Whitespace) => {
                let mut w = self.pop_whitespace();
                string_push(&mut w, c);
                self.push_partial(JsonPartialToken::Whitespace(w));
                Ok(())
            },
            Some(_) => {
                let p = self.pop_partial();
                self.push_partial(p);
                self.push_partial(JsonPartialToken::Whitespace(string_of(c)));
                Ok(())
            },
        }
    }

    fn push_colon(&mut self, c: char) -> (r: Result<(), JsonLexError>)
        ensures
            applied(old(self)@, on_colon(old(self)@, c), r, final(self)@),
    {
        let k1 = self.kind_at(1);
        match self.kind_at(0) {
            Some(PartialKind::PropertyValue) => {
                self.emit(JsonToken::KeyValueDelimiter(string_of(c)));
                let p = self.pop_partial();
                self.push_partial(p);
                Ok(())
            },
            Some(PartialKind::StringValue) => {
                self.extend_string(c);
                Ok(())
            },
            Some(PartialKind::Whitespace) => {
                if k1 != Some(PartialKind::PropertyValue) {
                    return Err(JsonLexError::UnexpectedCharacter);
                }
                let w = self.pop_whitespace();
                self.emit(JsonToken::Whitespace(w));
                self.emit(JsonToken::KeyValueDelimiter(string_of(c)));
                let p = self.pop_partial();
                self.push_partial(p);
                Ok(())
            },
            _ => Err(JsonLexError::UnexpectedCharacter),
        }
    }

    fn push_comma(&mut self, c: char) -> (r: Result<(), JsonLexError>)
        ensures
            applied(old(self)@, on_comma(old(self)@, c), r, final(self)@),
    {
        let k1 = self.kind_at(1);
        match self.kind_at(0) {
            Some(PartialKind::Array) => {
                self.emit(JsonToken::ArrayItemDelimiter(string_of(c)));
                let p = self.pop_partial();
                self.push_partial(p);
                Ok(())
            },
            Some(PartialKind::Object) => {
                self.pop_partial();
                self.emit(JsonToken::PropertyDelimiter(string_of(c)));
                self.push_partial(JsonPartialToken::Object);
                self.push_partial(JsonPartialToken::PropertyName);
                Ok(())
            },
            Some(PartialKind::PropertyName) => Err(JsonLexError::MalformedProperty),
            Some(PartialKind::PropertyValue) => {
                self.pop_partial();
                self.emit(JsonToken::PropertyDelimiter(string_of(c)));
                Ok(())
            },
            Some(PartialKind::StringValue) => Err(JsonLexError::MalformedString),
            Some(PartialKind::NumberValue) => {
                let class = self.top_number_class();
                if class == NumberClass::OutOfRange {
                    return Err(JsonLexError::MalformedNumber);
                }
                if k1 != Some(PartialKind::Array) && k1 != Some(PartialKind::Object) && k1 != Some(PartialKind::PropertyName)
                    && k1 != Some(PartialKind::PropertyValue) {
                    return Err(JsonLexError::UnexpectedCharacter);
                }
                let n = self.pop_number();
                self.emit_number(n, class);
                if k1 == Some(PartialKind::Array) {
                    self.emit(JsonToken::ArrayItemDelimiter(string_of(c)));
                } else {
                    self.emit(JsonToken::PropertyDelimiter(string_of(c)));
                }
                let below = self.pop_partial();
                self.push_partial(below);
                if k1 == Some(PartialKind::Object) {
                    self.push_partial(JsonPartialToken::PropertyName);
                }
                Ok(())
            },
            _ => Err(JsonLexError::UnexpectedCharacter),
        }
    }

    fn push_newline(&mut self, c: char) -> (r: Result<(), JsonLexError>)
        ensures
            applied(old(self)@, on_newline(old(self)@, c), r, final(self)@),
    {
        match self.kind_at(0) {
            None | Some(PartialKind::StringValue) => Err(JsonLexError::UnexpectedCharacter),
            Some(PartialKind::NumberValue) => {
                let class = self.top_number_class();
                if class == NumberClass::OutOfRange {
                    return Err(JsonLexError::MalformedNumber);
                }
                let n = self.pop_number();
                self.emit_number(n, class);
                self.emit(JsonToken::NewLine(string_of(c)));
                Ok(())
            },
            Some(PartialKind::Whitespace) => {
                let w = self.pop_whitespace();
                self.emit(JsonToken::Whitespace(w));
                self.emit(JsonToken::NewLine(string_of(c)));
                Ok(())
            },
            Some(_) => {
                let p = self.pop_partial();
                self.push_partial(p);
                self.emit(JsonToken::NewLine(string_of(c)));
                Ok(())
            },
        }
    }

    fn push_dot(&mut self, c: char) -> (r: Result<(), JsonLexError>)
        ensures
            applied(old(self)@, on_dot(old(self)@, c), r, final(self)@),
    {
        match self.kind_at(0) {
            Some(PartialKind::StringValue) => {
                self.extend_string(c);
                Ok(())
            },
            Some(PartialKind::NumberValue) => {
                let mut n = self.pop_number();
                if contains_char(n.as_str(), '.') {
                    self.push_partial(JsonPartialToken::NumberValue(n));
                    proof {
                        assert(self@.stack =~= old(self)@.stack);
                        assert(self@ =~= old(self)@);
                    }
                    return Err(JsonLexError::MalformedNumber);
                }
                string_push(&mut n, c);
                self.push_partial(JsonPartialToken::NumberValue(n));
                Ok(())
            },
            _ => Err(JsonLexError::UnexpectedCharacter),
        }
    }

    fn push_digit(&mut self, c: char) -> (r: Result<(), JsonLexError>)
        ensures
            applied(old(self)@, on_digit(old(self)@, c), r, final(self)@),
    {
        let k1 = self.kind_at(1);
        match self.kind_at(0) {
            Some(PartialKind::Array) => {
                self.pop_partial();
                self.push_partial(JsonPartialToken::Array);
                self.push_partial(JsonPartialToken::NumberValue(string_of(c)));
                Ok(())
            },
            Some(PartialKind::PropertyValue) => {
                self.pop_partial();
                self.push_partial(JsonPartialToken::NumberValue(string_of(c)));
                Ok(())
            },
            Some(PartialKind::StringValue) => {
                self.extend_string(c);
                Ok(())
            },
            Some(PartialKind::NumberValue) => {
                let mut n = self.pop_number();
                string_push(&mut n, c);
                self.push_partial(JsonPartialToken::NumberValue(n));
                Ok(())
            },
            Some(PartialKind::Whitespace) => {
                if k1 == Some(PartialKind::Array) {
                    let w = self.pop_whitespace();
                    self.emit(JsonToken::Whitespace(w));
                    self.pop_partial();
                    self.push_partial(JsonPartialToken::Array);
                    self.push_partial(JsonPartialToken::NumberValue(string_of(c)));
                    Ok(())
                } else if k1 == Some(PartialKind::PropertyValue) {
                    let w = self.pop_whitespace();
                    self.emit(JsonToken::Whitespace(w));
                    self.pop_partial();
                    self.push_partial(JsonPartialToken::NumberValue(string_of(c)));
                    Ok(())
                } else {
                    Err(JsonLexError::UnexpectedCharacter)
                }
            },
            _ => Err(JsonLexError::UnexpectedCharacter),
        }
    }

    fn push_other(&mut self, c: char) -> (r: Result<(), JsonLexError>)
        ensures
            applied(old(self)@, on_other(old(self)@, c), r, final(self)@),
    {
        match self.kind_at(0) {
            Some(PartialKind::StringValue) => {
                self.extend_string(c);
                Ok(())
            },
            _ => Err(JsonLexError::UnexpectedCharacter),
        }
    }
}


/// The partial tokens that closing the lexer turns into tokens, in the
/// order in which they are taken from the top of the stack.
pub open spec fn flushed(tokens: Seq<JsonTokenView>, stack: Seq<JsonPartialTokenView>) -> Seq<JsonTokenView>
    decreases stack.len(),
{
    if stack.len() == 0 {
        tokens
    } else {
        flushed(flush_one(tokens, stack.last()), stack.drop_last())
    }
}

/// What closing the lexer makes of one partial token: a string or a number
/// becomes its token (an integer out of range is dropped), whitespace
/// becomes a whitespace token, and open structures leave nothing.
pub open spec fn flush_one(tokens: Seq<JsonTokenView>, p: JsonPartialTokenView) -> Seq<JsonTokenView> {
    match p {
        JsonPartialTokenView::StringValue { raw, value } => tokens.push(JsonTokenView::StringValue { raw, value }),
        JsonPartialTokenView::NumberValue(n) => emit_number(tokens, n),
        JsonPartialTokenView::Whitespace(w) => tokens.push(JsonTokenView::Whitespace(w)),
        _ => tokens,
    }
}

/// The state of a new lexer: no token, and the document root open.
pub open spec fn initial_lexer() -> JsonLexerView {
    JsonLexerView { tokens: Seq::empty(), stack: seq![JsonPartialTokenView::Root] }
}

impl JsonStreamLexer {
    /// A lexer at the start of a document.
    pub fn new() -> (l: JsonStreamLexer)
        ensures
            l@ == initial_lexer(),
    {
        let mut l = JsonStreamLexer { tokens: VecDeque::new(), partial_tokens: Vec::new() };
        proof {
            assert(l@.tokens =~= Seq::<JsonTokenView>::empty());
            assert(l@.stack =~= Seq::<JsonPartialTokenView>::empty());
        }
        l.push_partial(JsonPartialToken::Root);
        proof {
            assert(l@.stack =~= seq![JsonPartialTokenView::Root]);
        }
        l
    }

    /// Ends the document: every partial token, from the top of the stack
    /// down, that holds text becomes a token, and the stack is emptied.
    pub fn close(&mut self)
        ensures
            final(self)@.tokens == flushed(old(self)@.tokens, old(self)@.stack),
            final(self)@.stack.len() == 0,
    {
        while self.partial_tokens.len() > 0
            invariant
                flushed(self@.tokens, self@.stack) == flushed(old(self)@.tokens, old(self)@.stack),
            decreases self@.stack.len(),
        {
            let p = self.pop_partial();
            match p {
                JsonPartialToken::StringValue { raw, value } => self.emit(JsonToken::StringValue { raw, value }),
                JsonPartialToken::NumberValue(n) => {
                    let class = classify_number(&n);
                    self.emit_number(n, class);
                },
                JsonPartialToken::Whitespace(w) => self.emit(JsonToken::Whitespace(w)),
                _ => {},
            }
        }
        proof {
            assert(self@.stack.len() == 0);
        }
    }

    /// Takes the oldest complete token, if there is one.
    pub fn pop_token(&mut self) -> (r: JsonStreamStatus)
        ensures
            final(self)@.stack == old(self)@.stack,
            match r {
                JsonStreamStatus::Empty => old(self)@.tokens.len() == 0 && final(self)@.tokens == old(self)@.tokens,
                JsonStreamStatus::Token(t) => {
                    &&& old(self)@.tokens.len() > 0
                    &&& t@ == old(self)@.tokens[0]
                    &&& final(self)@.tokens == old(self)@.tokens.drop_first()
                },
            },
    {
        let ghost q = self.tokens@;
        match self.tokens.pop_front() {
            Some(t) => {
                proof {
                    assert(tokens_view(self.tokens@) =~= tokens_view(q).drop_first());
                }
                JsonStreamStatus::Token(t)
            },
            None => JsonStreamStatus::Empty,
        }
    }

    /// Reads one character of the document.
    ///
    /// On success the lexer is as `push_step` says. The lexer never panics
    /// on a malformed document: a character that cannot follow what has
    /// been read is refused with the error that names the fault (a malformed
    /// property, string or number, or an unexpected character), and the
    /// lexer is left exactly as it was; stopping is the caller's decision.
    pub fn push_char(&mut self, c: char) -> (r: Result<(), JsonLexError>)
        ensures
            applied(old(self)@, push_step(old(self)@, c), r, final(self)@),
    {
        if c == '{' {
            self.push_open_brace(c)
        } else if c == '}' {
            self.push_close_brace(c)
        } else if c == '[' {
            self.push_open_bracket(c)
        } else if c == ']' {
            self.push_close_bracket(c)
        } else if c == '"' {
            self.push_quote(c)
        } else if c == ' ' || c == '\t' {
            self.push_blank(c)
        } else if c == ':' {
            self.push_colon(c)
        } else if c == ',' {
            self.push_comma(c)
        } else if c == '\n' {
            self.push_newline(c)
        } else if c == '.' {
            self.push_dot(c)
        } else if '0' <= c && c <= '9' {
            self.push_digit(c)
        } else {
            self.push_other(c)
        }
    }

    /// How many partial tokens are open; none once the lexer has nothing
    /// left to attach a character to.
    pub fn partial_token_count(&self) -> (n: usize)
        ensures
            n == self@.stack.len(),
    {
        self.partial_tokens.len()
    }
}


// ---------------------------------------------------------------------------
// What every state the lexer reaches satisfies, and the laws of `push_char`.
// ---------------------------------------------------------------------------

/// Whether `n` is the text of a number as the lexer reads one: digits, the
/// first of them before anything else, and at most one decimal point.
pub open spec fn number_text(n: Seq<char>) -> bool {
    &&& n.len() > 0
    &&& crate::text::is_digit(n[0])
    &&& forall|i: int| 0 <= i < n.len() ==> crate::text::is_digit(#[trigger] n[i]) || n[i] == '.'
    &&& forall|i: int, j: int| #![trigger n[i], n[j]] 0 <= i < j < n.len() && n[i] == '.' ==> n[j] != '.'
}

/// Whether `w` is a run of spaces and tabs.
pub open spec fn blank_text(w: Seq<char>) -> bool {
    &&& w.len() > 0
    &&& forall|i: int| 0 <= i < w.len() ==> #[trigger] w[i] == ' ' || w[i] == '\t'
}

/// The text of a quoted string whose content is `value`.
pub open spec fn quoted(value: Seq<char>) -> Seq<char> {
    seq!['"'] + value + seq!['"']
}

/// What holds of every token that `push_char` emits: strings are their
/// content between double quotes, integers have the value of their
/// digits, floats are numbers with a decimal point, whitespace is spaces
/// and tabs, and the other tokens are the one character they stand for.
pub open spec fn token_wf(t: JsonTokenView) -> bool {
    match t {
        JsonTokenView::PropertyName { raw, name } => raw == quoted(name),
        JsonTokenView::StringValue { raw, value } => raw == quoted(value),
        JsonTokenView::IntegerValue { raw, value } => decimal_isize(raw) == Some(value),
        JsonTokenView::FloatValue { raw } => number_text(raw) && raw.contains('.'),
        JsonTokenView::ObjectOpen(s) => s == seq!['{'],
        JsonTokenView::ObjectClose(s) => s == seq!['}'],
        JsonTokenView::ArrayOpen(s) => s == seq!['['],
        JsonTokenView::ArrayClose(s) => s == seq![']'] || s == seq!['}'],
        JsonTokenView::Whitespace(s) => blank_text(s),
        JsonTokenView::NewLine(s) => s == seq!['\n'],
        JsonTokenView::ArrayItemDelimiter(s) => s == seq![','],
        JsonTokenView::PropertyDelimiter(s) => s == seq![','],
        JsonTokenView::KeyValueDelimiter(s) => s == seq![':'],
    }
}

/// The text held by a partial token.
pub open spec fn partial_text(p: JsonPartialTokenView) -> Seq<char> {
    match p {
        JsonPartialTokenView::StringValue { raw, .. } => raw,
        JsonPartialTokenView::NumberValue(n) => n,
        JsonPartialTokenView::Whitespace(w) => w,
        _ => Seq::empty(),
    }
}

/// Whether a partial token holds text.
pub open spec fn holds_text(p: JsonPartialTokenView) -> bool {
    p is StringValue || p is NumberValue || p is Whitespace
}

/// What holds of a partial token: an open string is a quote followed by
/// its content, a number is number text, whitespace is spaces and tabs.
pub open spec fn partial_wf(p: JsonPartialTokenView) -> bool {
    match p {
        JsonPartialTokenView::StringValue { raw, value } => raw == seq!['"'] + value,
        JsonPartialTokenView::NumberValue(n) => number_text(n),
        JsonPartialTokenView::Whitespace(w) => blank_text(w),
        _ => true,
    }
}

/// The invariant of the lexer: every token is well formed, and only the
/// top of the stack holds text, well formed too.
pub open spec fn lexer_wf(s: JsonLexerView) -> bool {
    &&& forall|i: int| 0 <= i < s.tokens.len() ==> token_wf(#[trigger] s.tokens[i])
    &&& forall|i: int| 0 <= i < s.stack.len() - 1 ==> !holds_text(#[trigger] s.stack[i])
    &&& s.stack.len() > 0 ==> partial_wf(s.stack.last())
}

/// The text of a sequence of tokens, one after the other.
pub open spec fn tokens_text(ts: Seq<JsonTokenView>) -> Seq<char>
    decreases ts.len(),
{
    if ts.len() == 0 {
        Seq::empty()
    } else {
        tokens_text(ts.drop_last()) + token_raw(ts.last())
    }
}

/// The text of the partial token in progress (only the top one holds text
/// in a well-formed lexer).
pub open spec fn pending_text(stack: Seq<JsonPartialTokenView>) -> Seq<char> {
    if stack.len() == 0 {
        Seq::empty()
    } else {
        partial_text(stack.last())
    }
}

/// All the text the lexer has read: its tokens, then the token in progress.
pub open spec fn lexer_text(s: JsonLexerView) -> Seq<char> {
    tokens_text(s.tokens) + pending_text(s.stack)
}

/// Whether pushing `c` ends an integer that does not fit in `isize`
/// without refusing it; such an integer leaves no token.
pub open spec fn drops_number(s: JsonLexerView, c: char) -> bool {
    &&& s.stack.len() > 0
    &&& s.stack.last() is NumberValue
    &&& number_class(s.stack.last()->NumberValue_0) == NumberClass::OutOfRange
    &&& (c == '}' || c == ']' || c == ' ' || c == '\t')
}

pub broadcast proof fn lemma_tokens_text_push(ts: Seq<JsonTokenView>, t: JsonTokenView)
    ensures
        #[trigger] tokens_text(ts.push(t)) == tokens_text(ts) + token_raw(t),
{
    assert(ts.push(t).drop_last() =~= ts);
}


/// The laws that one accepted character keeps, from `s` to `t`: the lexer
/// stays well formed, the tokens already emitted stay as they were, and
/// the text read so far grows by `c` (unless an out-of-range integer ends).
pub open spec fn step_laws(s: JsonLexerView, c: char, t: JsonLexerView) -> bool {
    &&& lexer_wf(t)
    &&& s.tokens.is_prefix_of(t.tokens)
    &&& !drops_number(s, c) ==> lexer_text(t) == lexer_text(s).push(c)
}

proof fn lemma_open_brace(s: JsonLexerView, c: char)
    requires
        lexer_wf(s),
        c == '{',
        on_open_brace(s, c) is Ok,
    ensures
        step_laws(s, c, on_open_brace(s, c)->Ok_0),
{
    broadcast use lemma_tokens_text_push;
    let t = on_open_brace(s, c)->Ok_0;
    assert(lexer_text(t) =~= lexer_text(s).push(c));
}


proof fn lemma_close_brace(s: JsonLexerView, c: char)
    requires
        lexer_wf(s),
        c == '}',
        on_close_brace(s, c) is Ok,
    ensures
        step_laws(s, c, on_close_brace(s, c)->Ok_0),
{
    broadcast use lemma_tokens_text_push;
    let t = on_close_brace(s, c)->Ok_0;
    if !drops_number(s, c) {
        assert(lexer_text(t) =~= lexer_text(s).push(c));
    }
}

proof fn lemma_open_bracket(s: JsonLexerView, c: char)
    requires
        lexer_wf(s),
        c == '[',
        on_open_bracket(s, c) is Ok,
    ensures
        step_laws(s, c, on_open_bracket(s, c)->Ok_0),
{
    broadcast use lemma_tokens_text_push;
    let t = on_open_bracket(s, c)->Ok_0;
    assert(lexer_text(t) =~= lexer_text(s).push(c));
}

proof fn lemma_close_bracket(s: JsonLexerView, c: char)
    requires
        lexer_wf(s),
        c == ']',
        on_close_bracket(s, c) is Ok,
    ensures
        step_laws(s, c, on_close_bracket(s, c)->Ok_0),
{
    broadcast use lemma_tokens_text_push;
    let t = on_close_bracket(s, c)->Ok_0;
    if !drops_number(s, c) {
        assert(lexer_text(t) =~= lexer_text(s).push(c));
    }
}

proof fn lemma_quote(s: JsonLexerView, c: char)
    requires
        lexer_wf(s),
        c == '"',
        on_quote(s, c) is Ok,
    ensures
        step_laws(s, c, on_quote(s, c)->Ok_0),
{
    broadcast use lemma_tokens_text_push;
    let t = on_quote(s, c)->Ok_0;
    if s.stack.last() is StringValue {
        let raw = s.stack.last()->StringValue_raw;
        let value = s.stack.last()->StringValue_value;
        assert(raw.push(c) =~= quoted(value));
    }
    assert(lexer_text(t) =~= lexer_text(s).push(c));
}

proof fn lemma_blank(s: JsonLexerView, c: char)
    requires
        lexer_wf(s),
        c == ' ' || c == '\t',
        on_blank(s, c) is Ok,
    ensures
        step_laws(s, c, on_blank(s, c)->Ok_0),
{
    broadcast use lemma_tokens_text_push;
    let t = on_blank(s, c)->Ok_0;
    if !drops_number(s, c) {
        assert(lexer_text(t) =~= lexer_text(s).push(c));
    }
}

proof fn lemma_colon(s: JsonLexerView, c: char)
    requires
        lexer_wf(s),
        c == ':',
        on_colon(s, c) is Ok,
    ensures
        step_laws(s, c, on_colon(s, c)->Ok_0),
{
    broadcast use lemma_tokens_text_push;
    let t = on_colon(s, c)->Ok_0;
    assert(lexer_text(t) =~= lexer_text(s).push(c));
}

proof fn lemma_comma(s: JsonLexerView, c: char)
    requires
        lexer_wf(s),
        c == ',',
        on_comma(s, c) is Ok,
    ensures
        step_laws(s, c, on_comma(s, c)->Ok_0),
{
    broadcast use lemma_tokens_text_push;
    let t = on_comma(s, c)->Ok_0;
    assert(lexer_text(t) =~= lexer_text(s).push(c));
}

proof fn lemma_newline(s: JsonLexerView, c: char)
    requires
        lexer_wf(s),
        c == '\n',
        on_newline(s, c) is Ok,
    ensures
        step_laws(s, c, on_newline(s, c)->Ok_0),
{
    broadcast use lemma_tokens_text_push;
    let t = on_newline(s, c)->Ok_0;
    assert(lexer_text(t) =~= lexer_text(s).push(c));
}

proof fn lemma_dot(s: JsonLexerView, c: char)
    requires
        lexer_wf(s),
        c == '.',
        on_dot(s, c) is Ok,
    ensures
        step_laws(s, c, on_dot(s, c)->Ok_0),
{
    broadcast use lemma_tokens_text_push;
    let t = on_dot(s, c)->Ok_0;
    assert(lexer_text(t) =~= lexer_text(s).push(c));
}

proof fn lemma_digit(s: JsonLexerView, c: char)
    requires
        lexer_wf(s),
        '0' <= c && c <= '9',
        on_digit(s, c) is Ok,
    ensures
        step_laws(s, c, on_digit(s, c)->Ok_0),
{
    broadcast use lemma_tokens_text_push;
    let t = on_digit(s, c)->Ok_0;
    assert(lexer_text(t) =~= lexer_text(s).push(c));
}

proof fn lemma_other(s: JsonLexerView, c: char)
    requires
        lexer_wf(s),
        !(c == '{' || c == '}' || c == '[' || c == ']' || c == '"' || c == ' ' || c == '\t' || c == ':' || c == ',' || c == '\n' || c == '.' || ('0' <= c && c <= '9')),
        on_other(s, c) is Ok,
    ensures
        step_laws(s, c, on_other(s, c)->Ok_0),
{
    broadcast use lemma_tokens_text_push;
    let t = on_other(s, c)->Ok_0;
    assert(lexer_text(t) =~= lexer_text(s).push(c));
}


proof fn lemma_push_step(s: JsonLexerView, c: char)
    requires
        lexer_wf(s),
        push_step(s, c) is Ok,
    ensures
        step_laws(s, c, push_step(s, c)->Ok_0),
{
    if c == '{' {
        lemma_open_brace(s, c);
    } else if c == '}' {
        lemma_close_brace(s, c);
    } else if c == '[' {
        lemma_open_bracket(s, c);
    } else if c == ']' {
        lemma_close_bracket(s, c);
    } else if c == '"' {
        lemma_quote(s, c);
    } else if c == ' ' || c == '\t' {
        lemma_blank(s, c);
    } else if c == ':' {
        lemma_colon(s, c);
    } else if c == ',' {
        lemma_comma(s, c);
    } else if c == '\n' {
        lemma_newline(s, c);
    } else if c == '.' {
        lemma_dot(s, c);
    } else if '0' <= c && c <= '9' {
        lemma_digit(s, c);
    } else {
        lemma_other(s, c);
    }
}

/// A new lexer is well formed and has read nothing.
pub proof fn law_new_lexer()
    ensures
        lexer_wf(initial_lexer()),
        lexer_text(initial_lexer()) == Seq::<char>::empty(),
{
    assert(lexer_text(initial_lexer()) =~= Seq::<char>::empty());
}

/// Every state that a well-formed lexer reaches by an accepted character
/// is well formed: tokens are well formed, and only the top of the stack
/// holds text.
pub proof fn law_push_keeps_wf(s: JsonLexerView, c: char)
    requires
        lexer_wf(s),
        push_step(s, c) is Ok,
    ensures
        lexer_wf(push_step(s, c)->Ok_0),
{
    lemma_push_step(s, c);
}

/// An accepted character never changes or removes a token already emitted:
/// the tokens before are a prefix of the tokens after.
pub proof fn law_push_keeps_emitted_tokens(s: JsonLexerView, c: char)
    requires
        lexer_wf(s),
        push_step(s, c) is Ok,
    ensures
        s.tokens.is_prefix_of(push_step(s, c)->Ok_0.tokens),
{
    lemma_push_step(s, c);
}

/// The lexer keeps every character it reads: the text of its tokens
/// followed by the text in progress grows by exactly the character pushed,
/// except where an integer too large for `isize` ends at a `}`, `]`, space
/// or tab, which drops that integer.
pub proof fn law_push_keeps_text(s: JsonLexerView, c: char)
    requires
        lexer_wf(s),
        push_step(s, c) is Ok,
        !drops_number(s, c),
    ensures
        lexer_text(push_step(s, c)->Ok_0) == lexer_text(s).push(c),
{
    lemma_push_step(s, c);
}

proof fn lemma_flush_textless(tokens: Seq<JsonTokenView>, stack: Seq<JsonPartialTokenView>)
    requires
        forall|i: int| 0 <= i < stack.len() ==> !holds_text(#[trigger] stack[i]),
    ensures
        flushed(tokens, stack) == tokens,
    decreases stack.len(),
{
    if stack.len() > 0 {
        assert(!holds_text(stack[stack.len() - 1]));
        lemma_flush_textless(tokens, stack.drop_last());
    }
}

/// Closing a well-formed lexer keeps every character it has read: the
/// text of the tokens after closing is all the text read, unless the
/// number in progress is an integer too large for `isize`.
pub proof fn law_close_keeps_text(s: JsonLexerView)
    requires
        lexer_wf(s),
        !(s.stack.len() > 0 && s.stack.last() is NumberValue
            && number_class(s.stack.last()->NumberValue_0) == NumberClass::OutOfRange),
    ensures
        s.tokens.is_prefix_of(flushed(s.tokens, s.stack)),
        tokens_text(flushed(s.tokens, s.stack)) == lexer_text(s),
{
    broadcast use lemma_tokens_text_push;
    if s.stack.len() > 0 {
        let t1 = flush_one(s.tokens, s.stack.last());
        lemma_flush_textless(t1, s.stack.drop_last());
        assert(tokens_text(t1) =~= lexer_text(s));
    } else {
        assert(lexer_text(s) =~= tokens_text(s.tokens));
    }
}


/// Taking the oldest token keeps a well-formed lexer well formed.
pub proof fn law_pop_keeps_wf(s: JsonLexerView)
    requires
        lexer_wf(s),
        s.tokens.len() > 0,
    ensures
        lexer_wf(JsonLexerView { tokens: s.tokens.drop_first(), stack: s.stack }),
{
    assert forall|i: int| 0 <= i < s.tokens.drop_first().len() implies token_wf(#[trigger] s.tokens.drop_first()[i]) by {
        assert(s.tokens.drop_first()[i] == s.tokens[i + 1]);
    }
}

// ---------------------------------------------------------------------------
// A whole run of the lexer: characters pushed and tokens popped, in turn.
// ---------------------------------------------------------------------------

/// One call made on a lexer: pushing a character, or popping a token.
pub enum LexEvent {
    Push(char),
    Pop,
}

/// The lexer after `s` without its oldest token.
pub open spec fn popped_state(s: JsonLexerView) -> JsonLexerView {
    JsonLexerView { tokens: s.tokens.drop_first(), stack: s.stack }
}

/// Running `evs` from `s`: the lexer at the end and the tokens popped, in
/// order; `None` where a character is refused.
pub open spec fn run(s: JsonLexerView, evs: Seq<LexEvent>) -> Option<(JsonLexerView, Seq<JsonTokenView>)>
    decreases evs.len(),
{
    if evs.len() == 0 {
        Some((s, Seq::empty()))
    } else {
        match evs[0] {
            LexEvent::Push(c) => match push_step(s, c) {
                Ok(t) => run(t, evs.drop_first()),
                Err(_) => None,
            },
            LexEvent::Pop => if s.tokens.len() == 0 {
                run(s, evs.drop_first())
            } else {
                match run(popped_state(s), evs.drop_first()) {
                    Some((f, popped)) => Some((f, seq![s.tokens[0]] + popped)),
                    None => None,
                }
            },
        }
    }
}

/// The characters pushed by `evs`, in order.
pub open spec fn pushed_text(evs: Seq<LexEvent>) -> Seq<char>
    decreases evs.len(),
{
    if evs.len() == 0 {
        Seq::empty()
    } else {
        match evs[0] {
            LexEvent::Push(c) => seq![c] + pushed_text(evs.drop_first()),
            LexEvent::Pop => pushed_text(evs.drop_first()),
        }
    }
}

/// Whether running `evs` from `s` ends an integer too large for `isize`
/// where it is dropped (see `drops_number`).
pub open spec fn run_drops(s: JsonLexerView, evs: Seq<LexEvent>) -> bool
    decreases evs.len(),
{
    if evs.len() == 0 {
        false
    } else {
        match evs[0] {
            LexEvent::Push(c) => drops_number(s, c) || match push_step(s, c) {
                Ok(t) => run_drops(t, evs.drop_first()),
                Err(_) => false,
            },
            LexEvent::Pop => if s.tokens.len() == 0 {
                run_drops(s, evs.drop_first())
            } else {
                run_drops(popped_state(s), evs.drop_first())
            },
        }
    }
}

proof fn lemma_tokens_text_front(ts: Seq<JsonTokenView>)
    requires
        ts.len() > 0,
    ensures
        tokens_text(ts) == token_raw(ts[0]) + tokens_text(ts.drop_first()),
    decreases ts.len(),
{
    if ts.len() == 1 {
        assert(ts.drop_last() =~= Seq::<JsonTokenView>::empty());
        assert(ts.drop_first() =~= Seq::<JsonTokenView>::empty());
        assert(tokens_text(ts) =~= token_raw(ts[0]) + tokens_text(ts.drop_first()));
    } else {
        lemma_tokens_text_front(ts.drop_last());
        assert(ts.drop_last().drop_first() =~= ts.drop_first().drop_last());
        assert(ts.drop_first().last() == ts.last());
        assert(tokens_text(ts) =~= token_raw(ts[0]) + tokens_text(ts.drop_first()));
    }
}

/// Over any run of pushes and pops from a well-formed lexer, nothing read
/// is lost: the text of the tokens popped, then of the tokens waiting, then
/// of the token in progress, is the text before the run followed by every
/// character pushed; the lexer stays well formed. This holds unless an
/// integer too large for `isize` is dropped on the way.
pub proof fn law_run_keeps_text(s: JsonLexerView, evs: Seq<LexEvent>)
    requires
        lexer_wf(s),
        run(s, evs) is Some,
        !run_drops(s, evs),
    ensures
        lexer_wf(run(s, evs)->Some_0.0),
        tokens_text(run(s, evs)->Some_0.1) + lexer_text(run(s, evs)->Some_0.0) == lexer_text(s) + pushed_text(evs),
    decreases evs.len(),
{
    broadcast use lemma_tokens_text_push;
    if evs.len() == 0 {
        assert(tokens_text(Seq::<JsonTokenView>::empty()) =~= Seq::<char>::empty());
        assert(lexer_text(s) + pushed_text(evs) =~= lexer_text(s));
        assert(Seq::<char>::empty() + lexer_text(s) =~= lexer_text(s));
    } else {
        let rest = evs.drop_first();
        match evs[0] {
            LexEvent::Push(c) => {
                let t = push_step(s, c)->Ok_0;
                law_push_keeps_wf(s, c);
                law_push_keeps_text(s, c);
                law_run_keeps_text(t, rest);
                assert(lexer_text(s) + pushed_text(evs) =~= lexer_text(t) + pushed_text(rest));
            },
            LexEvent::Pop => {
                if s.tokens.len() == 0 {
                    law_run_keeps_text(s, rest);
                } else {
                    let s2 = popped_state(s);
                    law_pop_keeps_wf(s);
                    law_run_keeps_text(s2, rest);
                    lemma_tokens_text_front(s.tokens);
                    let p2 = run(s2, rest)->Some_0.1;
                    lemma_tokens_text_front(seq![s.tokens[0]] + p2);
                    assert((seq![s.tokens[0]] + p2).drop_first() =~= p2);
                    assert(lexer_text(s) =~= token_raw(s.tokens[0]) + lexer_text(s2));
                    let r0 = token_raw(s.tokens[0]);
                    let f = run(s2, rest)->Some_0.0;
                    assert((seq![s.tokens[0]] + p2)[0] == s.tokens[0]);
                    assert(tokens_text(seq![s.tokens[0]] + p2) == r0 + tokens_text(p2));
                    assert(tokens_text(p2) + lexer_text(f) == lexer_text(s2) + pushed_text(rest));
                    assert(pushed_text(evs) == pushed_text(rest));
                    assert((r0 + tokens_text(p2)) + lexer_text(f) =~= r0 + (tokens_text(p2) + lexer_text(f)));
                    assert(r0 + (lexer_text(s2) + pushed_text(rest)) =~= (r0 + lexer_text(s2)) + pushed_text(rest));
                }
            },
        }
    }
}

/// A whole document is kept, as the stream editor promises: from a new
/// lexer, after any run of pushes and pops and then `close`, the text of
/// every token popped during the run followed by the text of the tokens
/// left after closing is exactly the text pushed (spaces, tabs and line
/// breaks included). This holds unless an integer too large for `isize` is
/// dropped, on the way or by closing.
pub proof fn law_document_text_kept(evs: Seq<LexEvent>)
    requires
        run(initial_lexer(), evs) is Some,
        !run_drops(initial_lexer(), evs),
        ({
            let f = run(initial_lexer(), evs)->Some_0.0;
            !(f.stack.len() > 0 && f.stack.last() is NumberValue
                && number_class(f.stack.last()->NumberValue_0) == NumberClass::OutOfRange)
        }),
    ensures
        ({
            let (f, popped) = run(initial_lexer(), evs)->Some_0;
            tokens_text(popped) + tokens_text(flushed(f.tokens, f.stack)) == pushed_text(evs)
        }),
{
    law_new_lexer();
    law_run_keeps_text(initial_lexer(), evs);
    let f = run(initial_lexer(), evs)->Some_0.0;
    law_close_keeps_text(f);
    assert(lexer_text(initial_lexer()) + pushed_text(evs) =~= pushed_text(evs));
}

/// A line break ends the token in progress (whitespace, or a number that is
/// read) and is a token of its own; open structures stay open. Inside a
/// string it is refused.
pub proof fn law_newline_ends_the_line(s: JsonLexerView)
    requires
        s.stack.len() > 0,
        !(s.stack.last() is StringValue),
        s.stack.last() is NumberValue ==> number_class(s.stack.last()->NumberValue_0) != NumberClass::OutOfRange,
    ensures
        push_step(s, '\n') == lexed(
            match s.stack.last() {
                JsonPartialTokenView::Whitespace(w) => s.tokens.push(JsonTokenView::Whitespace(w)),
                JsonPartialTokenView::NumberValue(n) => emit_number(s.tokens, n),
                _ => s.tokens,
            }.push(JsonTokenView::NewLine(seq!['\n'])),
            if holds_text(s.stack.last()) {
                s.stack.drop_last()
            } else {
                s.stack
            },
        ),
{
    if !holds_text(s.stack.last()) {
        assert(s.stack.drop_last().push(s.stack.last()) =~= s.stack);
    }
}

/// A space or tab that ends a number read as an array item, as a member's
/// value or after a member's name is always accepted: the number becomes a
/// token (an integer with its value, or a float with its text), the
/// structure around it stays open, and the blank starts a run of whitespace.
pub proof fn law_blank_ends_a_number(s: JsonLexerView, c: char, n: Seq<char>)
    requires
        c == ' ' || c == '\t',
        s.stack.len() >= 2,
        s.stack.last() == JsonPartialTokenView::NumberValue(n),
        s.stack[s.stack.len() - 2] == JsonPartialTokenView::Array || s.stack[s.stack.len() - 2]
            == JsonPartialTokenView::Object || s.stack[s.stack.len() - 2] == JsonPartialTokenView::PropertyValue,
        n.contains('.') || decimal_isize(n) is Some,
    ensures
        push_step(s, c) is Ok,
        push_step(s, c)->Ok_0.tokens == s.tokens.push(if n.contains('.') {
            JsonTokenView::FloatValue { raw: n }
        } else {
            JsonTokenView::IntegerValue { raw: n, value: decimal_isize(n)->Some_0 }
        }),
        push_step(s, c)->Ok_0.stack == s.stack.drop_last().push(JsonPartialTokenView::Whitespace(seq![c])),
{
    let r = s.stack.drop_last();
    assert(r.last() == s.stack[s.stack.len() - 2]);
    assert(r.drop_last().push(r.last()) =~= r);
}
} // verus!
