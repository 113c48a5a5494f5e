//! A smaller streaming JSON lexer: it reads objects of string
//! properties, and keeps a string, a property name and the whitespace
//! around them.
use std::collections::VecDeque;
use vstd::prelude::*;
use crate::text::{string_of, string_push};

verus! {

/// A token of this lexer, with the raw text it was read from.
#[derive(PartialEq)]
pub enum JsonToken {
    PropertyName { raw: String, name: String },
    StringValue { raw: String, value: String },
    NumberValue { raw: String, value: isize },
    ObjectOpen(String),
    ObjectClose(String),
    ArrayOpen(String),
    ArrayClose(String),
    Whitespace(String),
    NewLine(String),
    PropertyDelimiter(String),
    KeyValueDelimiter(String),
}

/// The mathematical value of a `JsonToken`.
pub enum JsonTokenView {
    PropertyName { raw: Seq<char>, name: Seq<char> },
    StringValue { raw: Seq<char>, value: Seq<char> },
    NumberValue { raw: Seq<char>, value: isize },
    ObjectOpen(Seq<char>),
    ObjectClose(Seq<char>),
    ArrayOpen(Seq<char>),
    ArrayClose(Seq<char>),
    Whitespace(Seq<char>),
    NewLine(Seq<char>),
    PropertyDelimiter(Seq<char>),
    KeyValueDelimiter(Seq<char>),
}

impl View for JsonToken {
    type V = JsonTokenView;

    open spec fn view(&self) -> JsonTokenView {
        match self {
            JsonToken::PropertyName { raw, name } => JsonTokenView::PropertyName { raw: raw@, name: name@ },
            JsonToken::StringValue { raw, value } => JsonTokenView::StringValue { raw: raw@, value: value@ },
            JsonToken::NumberValue { raw, value } => JsonTokenView::NumberValue { raw: raw@, value: *value },
            JsonToken::ObjectOpen(s) => JsonTokenView::ObjectOpen(s@),
            JsonToken::ObjectClose(s) => JsonTokenView::ObjectClose(s@),
            JsonToken::ArrayOpen(s) => JsonTokenView::ArrayOpen(s@),
            JsonToken::ArrayClose(s) => JsonTokenView::ArrayClose(s@),
            JsonToken::Whitespace(s) => JsonTokenView::Whitespace(s@),
            JsonToken::NewLine(s) => JsonTokenView::NewLine(s@),
            JsonToken::PropertyDelimiter(s) => JsonTokenView::PropertyDelimiter(s@),
            JsonToken::KeyValueDelimiter(s) => JsonTokenView::KeyValueDelimiter(s@),
        }
    }
}

impl JsonToken {
    /// The name of the token's kind, as the variant is named.
    pub fn variant_name(&self) -> (r: &'static str)
        ensures
            r@ == token_kind_name(self@)@,
    {
        match self {
            JsonToken::PropertyName { .. } => "PropertyName",
            JsonToken::StringValue { .. } => "StringValue",
            JsonToken::NumberValue { .. } => "NumberValue",
            JsonToken::ObjectOpen(_) => "ObjectOpen",
            JsonToken::ObjectClose(_) => "ObjectClose",
            JsonToken::ArrayOpen(_) => "ArrayOpen",
            JsonToken::ArrayClose(_) => "ArrayClose",
            JsonToken::Whitespace(_) => "Whitespace",
            JsonToken::NewLine(_) => "NewLine",
            JsonToken::PropertyDelimiter(_) => "PropertyDelimiter",
            JsonToken::KeyValueDelimiter(_) => "KeyValueDelimiter",
        }
    }
}

/// The name of a token's kind.
pub open spec fn token_kind_name(t: JsonTokenView) -> &'static str {
    match t {
        JsonTokenView::PropertyName { .. } => "PropertyName",
        JsonTokenView::StringValue { .. } => "StringValue",
        JsonTokenView::NumberValue { .. } => "NumberValue",
        JsonTokenView::ObjectOpen(_) => "ObjectOpen",
        JsonTokenView::ObjectClose(_) => "ObjectClose",
        JsonTokenView::ArrayOpen(_) => "ArrayOpen",
        JsonTokenView::ArrayClose(_) => "ArrayClose",
        JsonTokenView::Whitespace(_) => "Whitespace",
        JsonTokenView::NewLine(_) => "NewLine",
        JsonTokenView::PropertyDelimiter(_) => "PropertyDelimiter",
        JsonTokenView::KeyValueDelimiter(_) => "KeyValueDelimiter",
    }
}

/// What the lexer is in the middle of.
pub enum JsonPartialToken {
    PropertyName,
    PropertyValue,
    PropertyComplete,
    OpenDoubleQuotes { raw: String, data: String },
    Whitespace(String),
}

/// The mathematical value of a `JsonPartialToken`.
pub enum JsonPartialTokenView {
    PropertyName,
    PropertyValue,
    PropertyComplete,
    OpenDoubleQuotes { raw: Seq<char>, data: Seq<char> },
    Whitespace(Seq<char>),
}

impl View for JsonPartialToken {
    type V = JsonPartialTokenView;

    open spec fn view(&self) -> JsonPartialTokenView {
        match self {
            JsonPartialToken::PropertyName => JsonPartialTokenView::PropertyName,
            JsonPartialToken::PropertyValue => JsonPartialTokenView::PropertyValue,
            JsonPartialToken::PropertyComplete => JsonPartialTokenView::PropertyComplete,
            JsonPartialToken::OpenDoubleQuotes { raw, data } => JsonPartialTokenView::OpenDoubleQuotes { raw: raw@, data: data@ },
            JsonPartialToken::Whitespace(w) => JsonPartialTokenView::Whitespace(w@),
        }
    }
}

/// What the next call of `pop_token` gives.
pub enum JsonStreamStatus {
    /// No complete token is waiting.
    Empty,
    Token(JsonToken),
    Finish,
}

/// Why the lexer refused a character. The lexer is left as it was.
#[derive(PartialEq, Eq, Structural, Clone, Copy, Debug)]
pub enum JsonLexError {
    /// The character cannot follow what has been read so far.
    UnexpectedCharacter,
}

/// A short description of an error.
pub open spec fn error_message(e: JsonLexError) -> &'static str {
    match e {
        JsonLexError::UnexpectedCharacter => "unexpected character",
    }
}

impl JsonLexError {
    /// A short description of the error.
    pub fn message(&self) -> (r: &'static str)
        ensures
            r@ == error_message(*self)@,
    {
        match self {
            JsonLexError::UnexpectedCharacter => "unexpected character",
        }
    }
}

/// The streaming lexer: complete tokens in the order read, and a stack of
/// what is still open.
pub struct JsonStreamLexer {
    tokens: VecDeque<JsonToken>,
    partial_tokens: Vec<JsonPartialToken>,
}

/// The lexer as a value: its queue of tokens and its stack (top last).
#[verifier::ext_equal]
pub struct JsonLexerView {
    pub tokens: Seq<JsonTokenView>,
    pub stack: Seq<JsonPartialTokenView>,
}

/// The values of a queue of tokens.
pub open spec fn tokens_view(q: Seq<JsonToken>) -> Seq<JsonTokenView> {
    q.map_values(|t: JsonToken| t@)
}

/// The values of a stack of partial tokens.
pub open spec fn partials_view(q: Seq<JsonPartialToken>) -> Seq<JsonPartialTokenView> {
    q.map_values(|p: JsonPartialToken| p@)
}

impl View for JsonStreamLexer {
    type V = JsonLexerView;

    closed spec fn view(&self) -> JsonLexerView {
        JsonLexerView { tokens: tokens_view(self.tokens@), stack: partials_view(self.partial_tokens@) }
    }
}

/// The lexer with these tokens and this stack, as an outcome.
pub open spec fn lexed(tokens: Seq<JsonTokenView>, stack: Seq<JsonPartialTokenView>) -> Result<JsonLexerView, JsonLexError> {
    Ok(JsonLexerView { tokens, stack })
}

/// The outcome of a character that cannot follow what has been read.
pub open spec fn refused() -> Result<JsonLexerView, JsonLexError> {
    Err(JsonLexError::UnexpectedCharacter)
}

/// Whether `c` is one of the characters that this lexer treats apart.
pub open spec fn is_special(c: char) -> bool {
    c == '{' || c == '}' || c == '[' || c == ']' || c == '"' || c == ' ' || c == '\t' || c == ':' || c == '\n'
}

/// What pushing `c` does to the lexer `s`: the lexer after it, or the
/// refusal of `c`.
///
/// A character inside double quotes is part of the string. Otherwise `{`
/// and `[` open the document when nothing is open; after whitespace, `{`,
/// `}`, `[` and `]` end the whitespace into a token and are not kept. `"`
/// opens a string where a property name is expected, after whitespace too,
/// and a closing `"` makes the string a property name or a value (the
/// string is dropped where nothing is open below it). Spaces and tabs
/// make whitespace; `:` after whitespace ends it and is a key-value
/// delimiter; a line break is a token of its own.
pub open spec fn push_step(s: JsonLexerView, c: char) -> Result<JsonLexerView, JsonLexError> {
    let t = s.tokens;
    if c == '\n' {
        lexed(t.push(JsonTokenView::NewLine(seq![c])), s.stack)
    } else if s.stack.len() == 0 {
        if c == '{' {
            lexed(t.push(JsonTokenView::ObjectOpen(seq![c])), s.stack.push(JsonPartialTokenView::PropertyName))
        } else if c == '[' {
            lexed(t.push(JsonTokenView::ArrayOpen(seq![c])), s.stack.push(JsonPartialTokenView::PropertyValue))
        } else {
            refused()
        }
    } else {
        let r = s.stack.drop_last();
        match s.stack.last() {
            JsonPartialTokenView::OpenDoubleQuotes { raw, data } => {
                if c == '"' {
                    if r.len() == 0 {
                        lexed(t, r)
                    } else {
                        let r2 = r.drop_last();
                        match r.last() {
                            JsonPartialTokenView::PropertyName => lexed(
                                t.push(JsonTokenView::PropertyName { raw: raw.push(c), name: data }),
                                r2.push(JsonPartialTokenView::PropertyValue),
                            ),
                            JsonPartialTokenView::PropertyValue => lexed(
                                t.push(JsonTokenView::StringValue { raw: raw.push(c), value: data }),
                                r2.push(JsonPartialTokenView::PropertyComplete),
                            ),
                            _ => refused(),
                        }
                    }
                } else {
                    lexed(t, r.push(JsonPartialTokenView::OpenDoubleQuotes { raw: raw.push(c), data: data.push(c) }))
                }
            },
            JsonPartialTokenView::Whitespace(w) => {
                if c == '{' || c == '}' || c == '[' || c == ']' {
                    lexed(t.push(JsonTokenView::Whitespace(w)), r)
                } else if c == '"' {
                    lexed(
                        t.push(JsonTokenView::Whitespace(w)),
                        r.push(JsonPartialTokenView::OpenDoubleQuotes { raw: seq![c], data: Seq::empty() }),
                    )
                } else if c == ' ' || c == '\t' {
                    lexed(t, r.push(JsonPartialTokenView::Whitespace(w.push(c))))
                } else if c == ':' {
                    lexed(t.push(JsonTokenView::Whitespace(w)).push(JsonTokenView::KeyValueDelimiter(seq![c])), r)
                } else {
                    refused()
                }
            },
            p => {
                if c == ' ' || c == '\t' {
                    lexed(t, r.push(p).push(JsonPartialTokenView::Whitespace(seq![c])))
                } else if c == '"' && p == JsonPartialTokenView::PropertyName {
                    lexed(t, r.push(p).push(JsonPartialTokenView::OpenDoubleQuotes { raw: seq![c], data: Seq::empty() }))
                } else if c == ':' && p == JsonPartialTokenView::PropertyValue {
                    lexed(t, r.push(p))
                } else {
                    refused()
                }
            },
        }
    }
}

/// `after` is what a call with outcome `outcome` leaves, from `before`,
/// and `r` is what it returns.
pub open spec fn applied(
    before: JsonLexerView,
    outcome: Result<JsonLexerView, JsonLexError>,
    r: Result<(), JsonLexError>,
    after: JsonLexerView,
) -> bool {
    match outcome {
        Ok(v) => r == Ok::<(), JsonLexError>(()) && after == v,
        Err(e) => r == Err::<(), JsonLexError>(e) && after == before,
    }
}

#[derive(PartialEq, Eq, Structural, Clone, Copy)]
enum Kind {
    PropertyName,
    PropertyValue,
    PropertyComplete,
    OpenDoubleQuotes,
    Whitespace,
}

spec fn kind_of(p: JsonPartialTokenView) -> Kind {
    match p {
        JsonPartialTokenView::PropertyName => Kind::PropertyName,
        JsonPartialTokenView::PropertyValue => Kind::PropertyValue,
        JsonPartialTokenView::PropertyComplete => Kind::PropertyComplete,
        JsonPartialTokenView::OpenDoubleQuotes { .. } => Kind::OpenDoubleQuotes,
        JsonPartialTokenView::Whitespace(_) => Kind::Whitespace,
    }
}

impl JsonStreamLexer {
    fn emit(&mut self, t: JsonToken)
        ensures
            final(self)@ == (JsonLexerView { tokens: old(self)@.tokens.push(t@), stack: old(self)@.stack }),
    {
        let ghost q = self.tokens@;
        let ghost tv = t@;
        self.tokens.push_back(t);
        proof {
            assert(tokens_view(self.tokens@) =~= tokens_view(q).push(tv));
        }
    }

    fn push_partial(&mut self, p: JsonPartialToken)
        ensures
            final(self)@ == (JsonLexerView { tokens: old(self)@.tokens, stack: old(self)@.stack.push(p@) }),
    {
        let ghost q = self.partial_tokens@;
        let ghost pv = p@;
        self.partial_tokens.push(p);
        proof {
            assert(partials_view(self.partial_tokens@) =~= partials_view(q).push(pv));
        }
    }

    fn pop_partial(&mut self) -> (p: JsonPartialToken)
        requires
            old(self)@.stack.len() > 0,
        ensures
            p@ == old(self)@.stack.last(),
            final(self)@ == (JsonLexerView { tokens: old(self)@.tokens, stack: old(self)@.stack.drop_last() }),
    {
        let ghost q = self.partial_tokens@;
        let p = self.partial_tokens.pop();
        proof {
            assert(partials_view(self.partial_tokens@) =~= partials_view(q).drop_last());
        }
        match p {
            Some(p) => p,
            None => {
                proof {
                    assert(false);
                }
                JsonPartialToken::PropertyName
            },
        }
    }

    fn kind_at(&self, depth: usize) -> (k: Option<Kind>)
        ensures
            k == (if depth < self@.stack.len() {
                Some(kind_of(self@.stack[self@.stack.len() - 1 - depth]))
            } else {
                None::<Kind>
            }),
    {
        let n = self.partial_tokens.len();
        if depth < n {
            let k = match &self.partial_tokens[n - 1 - depth] {
                JsonPartialToken::PropertyName => Kind::PropertyName,
                JsonPartialToken::PropertyValue => Kind::PropertyValue,
                JsonPartialToken::PropertyComplete => Kind::PropertyComplete,
                JsonPartialToken::OpenDoubleQuotes { .. } => Kind::OpenDoubleQuotes,
                JsonPartialToken::Whitespace(_) => Kind::Whitespace,
            };
            Some(k)
        } else {
            None
        }
    }

    /// A lexer at the start of a document, with nothing open.
    pub fn new() -> (l: JsonStreamLexer)
        ensures
            l@.tokens.len() == 0,
            l@.stack.len() == 0,
    {
        JsonStreamLexer { tokens: VecDeque::new(), partial_tokens: Vec::new() }
    }

    /// Takes the oldest complete token, if there is one.
    pub fn pop_token(&mut self) -> (r: JsonStreamStatus)
        ensures
            final(self)@.stack == old(self)@.stack,
            match r {
                JsonStreamStatus::Token(t) => {
                    &&& old(self)@.tokens.len() > 0
                    &&& t@ == old(self)@.tokens[0]
                    &&& final(self)@.tokens == old(self)@.tokens.drop_first()
                },
                _ => r is Empty && old(self)@.tokens.len() == 0 && final(self)@.tokens == old(self)@.tokens,
            },
    {
        let ghost q = self.tokens@;
        match self.tokens.pop_front() {
            Some(t) => {
                proof {
                    assert(tokens_view(self.tokens@) =~= tokens_view(q).drop_first());
                }
                JsonStreamStatus::Token(t)
            },
            None => JsonStreamStatus::Empty,
        }
    }

    /// Reads one character of the document (see `push_step`); a refused
    /// character leaves the lexer as it was.
    pub fn push_char(&mut self, c: char) -> (r: Result<(), JsonLexError>)
        ensures
            applied(old(self)@, push_step(old(self)@, c), r, final(self)@),
    {
        if c == '\n' {
            self.emit(JsonToken::NewLine(string_of(c)));
            return Ok(());
        }
        let k1 = self.kind_at(1);
        match self.kind_at(0) {
            None => {
                if c == '{' {
                    self.emit(JsonToken::ObjectOpen(string_of(c)));
                    self.push_partial(JsonPartialToken::PropertyName);
                    Ok(())
                } else if c == '[' {
                    self.emit(JsonToken::ArrayOpen(string_of(c)));
                    self.push_partial(JsonPartialToken::PropertyValue);
                    Ok(())
                } else {
                    Err(JsonLexError::UnexpectedCharacter)
                }
            },
            Some(Kind::OpenDoubleQuotes) => {
                if c == '"' && k1.is_some() && k1 != Some(Kind::PropertyName) && k1 != Some(Kind::PropertyValue) {
                    return Err(JsonLexError::UnexpectedCharacter);
                }
                let (mut raw, mut data) = match self.pop_partial() {
                    JsonPartialToken::OpenDoubleQuotes { raw, data } => (raw, data),
                    _ => {
                        proof {
                            assert(false);
                        }
                        (String::new(), String::new())
                    },
                };
                string_push(&mut raw, c);
                if c == '"' {
                    if k1 == Some(Kind::PropertyName) {
                        self.pop_partial();
                        self.emit(JsonToken::PropertyName { raw, name: data });
                        self.push_partial(JsonPartialToken::PropertyValue);
                    } else if k1 == Some(Kind::PropertyValue) {
                        self.pop_partial();
                        self.emit(JsonToken::StringValue { raw, value: data });
                        self.push_partial(JsonPartialToken::PropertyComplete);
                    }
                } else {
                    string_push(&mut data, c);
                    self.push_partial(JsonPartialToken::OpenDoubleQuotes { raw, data });
                }
                Ok(())
            },
            Some(Kind::Whitespace) => {
                if !(c == '{' || c == '}' || c == '[' || c == ']' || c == '"' || c == ' ' || c == '\t' || c == ':') {
                    return Err(JsonLexError::UnexpectedCharacter);
                }
                let mut w = match self.pop_partial() {
                    JsonPartialToken::Whitespace(w) => w,
                    _ => {
                        proof {
                            assert(false);
                        }
                        String::new()
                    },
                };
                if c == ' ' || c == '\t' {
                    string_push(&mut w, c);
                    self.push_partial(JsonPartialToken::Whitespace(w));
                } else {
                    self.emit(JsonToken::Whitespace(w));
                    if c == '"' {
                        self.push_partial(JsonPartialToken::OpenDoubleQuotes { raw: string_of(c), data: String::new() });
                    } else if c == ':' {
                        self.emit(JsonToken::KeyValueDelimiter(string_of(c)));
                    }
                }
                Ok(())
            },
            Some(k) => {
                if c == ' ' || c == '\t' {
                    let p = self.pop_partial();
                    self.push_partial(p);
                    self.push_partial(JsonPartialToken::Whitespace(string_of(c)));
                    Ok(())
                } else if c == '"' && k == Kind::PropertyName {
                    self.pop_partial();
                    self.push_partial(JsonPartialToken::PropertyName);
                    self.push_partial(JsonPartialToken::OpenDoubleQuotes { raw: string_of(c), data: String::new() });
                    Ok(())
                } else if c == ':' && k == Kind::PropertyValue {
                    self.pop_partial();
                    self.push_partial(JsonPartialToken::PropertyValue);
                    Ok(())
                } else {
                    Err(JsonLexError::UnexpectedCharacter)
                }
            },
        }
    }
}

/// An accepted character never changes or removes a token already emitted.
pub proof fn law_push_keeps_emitted_tokens(s: JsonLexerView, c: char)
    requires
        push_step(s, c) is Ok,
    ensures
        s.tokens.is_prefix_of(push_step(s, c)->Ok_0.tokens),
{
}

/// A line break is always accepted and is its own token; nothing else
/// changes.
pub proof fn law_newline_is_a_token(s: JsonLexerView)
    ensures
        push_step(s, '\n') == lexed(s.tokens.push(JsonTokenView::NewLine(seq!['\n'])), s.stack),
{
}

} // verus!
