//! A streaming YAML lexer that so far recognises the `---` that starts a
//! document and line breaks, and keeps their text.
use std::collections::VecDeque;
use vstd::prelude::*;
use crate::text::{string_of, string_push};

verus! {

/// A token of a YAML document, with the raw text it was read from. A
/// `FloatValue`'s floating-point value is a function of `raw`.
#[derive(PartialEq)]
pub enum YamlToken {
    PropertyName { raw: String, name: String },
    BooleanValue { raw: String, value: bool },
    StringValue { raw: String, value: String },
    IntegerValue { raw: String, value: isize },
    FloatValue { raw: String },
    NullValue(String),
    ObjectOpen(String),
    ObjectClose(String),
    ArrayOpen(String),
    ArrayClose(String),
    Whitespace(String),
    NewLine(String),
    ArrayItemDelimiter(String),
    PropertyDelimiter(String),
    KeyValueDelimiter(String),
    Content(String),
    Paragraph(String),
    Line(String),
    ParagraphBreak(String),
    Alias(String),
    Dereference(String),
    Comment(String),
    YamlStart(String),
}

/// The mathematical value of a `YamlToken`.
pub enum YamlTokenView {
    PropertyName { raw: Seq<char>, name: Seq<char> },
    BooleanValue { raw: Seq<char>, value: bool },
    StringValue { raw: Seq<char>, value: Seq<char> },
    IntegerValue { raw: Seq<char>, value: isize },
    FloatValue { raw: Seq<char> },
    NullValue(Seq<char>),
    ObjectOpen(Seq<char>),
    ObjectClose(Seq<char>),
    ArrayOpen(Seq<char>),
    ArrayClose(Seq<char>),
    Whitespace(Seq<char>),
    NewLine(Seq<char>),
    ArrayItemDelimiter(Seq<char>),
    PropertyDelimiter(Seq<char>),
    KeyValueDelimiter(Seq<char>),
    Content(Seq<char>),
    Paragraph(Seq<char>),
    Line(Seq<char>),
    ParagraphBreak(Seq<char>),
    Alias(Seq<char>),
    Dereference(Seq<char>),
    Comment(Seq<char>),
    YamlStart(Seq<char>),
}

impl View for YamlToken {
    type V = YamlTokenView;

    open spec fn view(&self) -> YamlTokenView {
        match self {
            YamlToken::PropertyName { raw, name } => YamlTokenView::PropertyName { raw: raw@, name: name@ },
            YamlToken::BooleanValue { raw, value } => YamlTokenView::BooleanValue { raw: raw@, value: *value },
            YamlToken::StringValue { raw, value } => YamlTokenView::StringValue { raw: raw@, value: value@ },
            YamlToken::IntegerValue { raw, value } => YamlTokenView::IntegerValue { raw: raw@, value: *value },
            YamlToken::FloatValue { raw } => YamlTokenView::FloatValue { raw: raw@ },
            YamlToken::NullValue(s) => YamlTokenView::NullValue(s@),
            YamlToken::ObjectOpen(s) => YamlTokenView::ObjectOpen(s@),
            YamlToken::ObjectClose(s) => YamlTokenView::ObjectClose(s@),
            YamlToken::ArrayOpen(s) => YamlTokenView::ArrayOpen(s@),
            YamlToken::ArrayClose(s) => YamlTokenView::ArrayClose(s@),
            YamlToken::Whitespace(s) => YamlTokenView::Whitespace(s@),
            YamlToken::NewLine(s) => YamlTokenView::NewLine(s@),
            YamlToken::ArrayItemDelimiter(s) => YamlTokenView::ArrayItemDelimiter(s@),
            YamlToken::PropertyDelimiter(s) => YamlTokenView::PropertyDelimiter(s@),
            YamlToken::KeyValueDelimiter(s) => YamlTokenView::KeyValueDelimiter(s@),
            YamlToken::Content(s) => YamlTokenView::Content(s@),
            YamlToken::Paragraph(s) => YamlTokenView::Paragraph(s@),
            YamlToken::Line(s) => YamlTokenView::Line(s@),
            YamlToken::ParagraphBreak(s) => YamlTokenView::ParagraphBreak(s@),
            YamlToken::Alias(s) => YamlTokenView::Alias(s@),
            YamlToken::Dereference(s) => YamlTokenView::Dereference(s@),
            YamlToken::Comment(s) => YamlTokenView::Comment(s@),
            YamlToken::YamlStart(s) => YamlTokenView::YamlStart(s@),
        }
    }
}

/// The text a token was read from.
pub open spec fn token_raw(t: YamlTokenView) -> Seq<char> {
    match t {
        YamlTokenView::PropertyName { raw, .. } => raw,
        YamlTokenView::BooleanValue { raw, .. } => raw,
        YamlTokenView::StringValue { raw, .. } => raw,
        YamlTokenView::IntegerValue { raw, .. } => raw,
        YamlTokenView::FloatValue { raw } => raw,
        YamlTokenView::NullValue(s) => s,
        YamlTokenView::ObjectOpen(s) => s,
        YamlTokenView::ObjectClose(s) => s,
        YamlTokenView::ArrayOpen(s) => s,
        YamlTokenView::ArrayClose(s) => s,
        YamlTokenView::Whitespace(s) => s,
        YamlTokenView::NewLine(s) => s,
        YamlTokenView::ArrayItemDelimiter(s) => s,
        YamlTokenView::PropertyDelimiter(s) => s,
        YamlTokenView::KeyValueDelimiter(s) => s,
        YamlTokenView::Content(s) => s,
        YamlTokenView::Paragraph(s) => s,
        YamlTokenView::Line(s) => s,
        YamlTokenView::ParagraphBreak(s) => s,
        YamlTokenView::Alias(s) => s,
        YamlTokenView::Dereference(s) => s,
        YamlTokenView::Comment(s) => s,
        YamlTokenView::YamlStart(s) => s,
    }
}

impl YamlToken {
    /// The text the token was read from.
    pub fn raw(&self) -> (r: &String)
        ensures
            r@ == token_raw(self@),
    {
        match self {
            YamlToken::PropertyName { raw, .. } => raw,
            YamlToken::BooleanValue { raw, .. } => raw,
            YamlToken::StringValue { raw, .. } => raw,
            YamlToken::IntegerValue { raw, .. } => raw,
            YamlToken::FloatValue { raw } => raw,
            YamlToken::NullValue(s) => s,
            YamlToken::ObjectOpen(s) => s,
            YamlToken::ObjectClose(s) => s,
            YamlToken::ArrayOpen(s) => s,
            YamlToken::ArrayClose(s) => s,
            YamlToken::Whitespace(s) => s,
            YamlToken::NewLine(s) => s,
            YamlToken::ArrayItemDelimiter(s) => s,
            YamlToken::PropertyDelimiter(s) => s,
            YamlToken::KeyValueDelimiter(s) => s,
            YamlToken::Content(s) => s,
            YamlToken::Paragraph(s) => s,
            YamlToken::Line(s) => s,
            YamlToken::ParagraphBreak(s) => s,
            YamlToken::Alias(s) => s,
            YamlToken::Dereference(s) => s,
            YamlToken::Comment(s) => s,
            YamlToken::YamlStart(s) => s,
        }
    }
}

/// What the lexer is in the middle of.
pub enum YamlPartialToken {
    Array,
    Object,
    PropertyName,
    PropertyValue,
    ArrayValue,
    BooleanValue { raw: String, value: bool },
    StringValue { raw: String, value: String },
    NullValue { raw: String },
    UndefinedValue { raw: String },
    Root,
    NumberValue(String),
    Whitespace(String),
    Content(String),
    Paragraph(String),
    Line(String),
    ParagraphBreak(String),
    Alias(String),
    Dereference(String),
    Comment(String),
    YamlStart(String),
}

/// The partial tokens that the lexer's transitions distinguish: the
/// document root, the dashes of a document start, and any other.
pub enum YamlPartialView {
    Root,
    YamlStart(Seq<char>),
    Other,
}

impl View for YamlPartialToken {
    type V = YamlPartialView;

    open spec fn view(&self) -> YamlPartialView {
        match self {
            YamlPartialToken::Root => YamlPartialView::Root,
            YamlPartialToken::YamlStart(s) => YamlPartialView::YamlStart(s@),
            _ => YamlPartialView::Other,
        }
    }
}

/// What the next call of `pop_token` gives.
pub enum YamlStreamStatus {
    /// No complete token is waiting.
    Empty,
    Token(YamlToken),
}

/// Why the lexer refused a character. The lexer is left as it was.
#[derive(PartialEq, Eq, Structural, Clone, Copy, Debug)]
pub enum YamlLexError {
    /// The character cannot follow what has been read so far.
    UnexpectedCharacter,
}

/// A short description of an error.
pub open spec fn error_message(e: YamlLexError) -> &'static str {
    match e {
        YamlLexError::UnexpectedCharacter => "unexpected character",
    }
}

impl YamlLexError {
    /// A short description of the error.
    pub fn message(&self) -> (r: &'static str)
        ensures
            r@ == error_message(*self)@,
    {
        match self {
            YamlLexError::UnexpectedCharacter => "unexpected character",
        }
    }
}

/// The streaming lexer.
pub struct YamlStreamLexer {
    tokens: VecDeque<YamlToken>,
    partial_tokens: Vec<YamlPartialToken>,
    is_error: bool,
}

/// The lexer as a value: its queue of tokens, its stack (top last) and
/// whether it has met a character with nothing open.
#[verifier::ext_equal]
pub struct YamlLexerView {
    pub tokens: Seq<YamlTokenView>,
    pub stack: Seq<YamlPartialView>,
    pub is_error: bool,
}

/// The values of a queue of tokens.
pub open spec fn tokens_view(q: Seq<YamlToken>) -> Seq<YamlTokenView> {
    q.map_values(|t: YamlToken| t@)
}

/// The values of a stack of partial tokens.
pub open spec fn partials_view(q: Seq<YamlPartialToken>) -> Seq<YamlPartialView> {
    q.map_values(|p: YamlPartialToken| p@)
}

impl View for YamlStreamLexer {
    type V = YamlLexerView;

    closed spec fn view(&self) -> YamlLexerView {
        YamlLexerView { tokens: tokens_view(self.tokens@), stack: partials_view(self.partial_tokens@), is_error: self.is_error }
    }
}

/// What pushing `c` does to the lexer `s`.
///
/// A `-` at the root starts the dashes of a document start, and more
/// dashes extend it; a line break ends them into a `YamlStart` token and
/// is a `NewLine` token itself. A `-` or a line break with nothing open
/// marks the lexer as in error. Every other character is ignored.
pub open spec fn push_step(s: YamlLexerView, c: char) -> Result<YamlLexerView, YamlLexError> {
    let t = s.tokens;
    let nl = YamlTokenView::NewLine(seq![c]);
    if c == '-' {
        if s.stack.len() == 0 {
            Ok(YamlLexerView { is_error: true, ..s })
        } else {
            match s.stack.last() {
                YamlPartialView::Root => Ok(YamlLexerView { stack: s.stack.drop_last().push(YamlPartialView::YamlStart(seq![c])), ..s }),
                YamlPartialView::YamlStart(raw) => Ok(YamlLexerView { stack: s.stack.drop_last().push(YamlPartialView::YamlStart(raw.push(c))), ..s }),
                YamlPartialView::Other => Err(YamlLexError::UnexpectedCharacter),
            }
        }
    } else if c == '\n' {
        if s.stack.len() == 0 {
            Ok(YamlLexerView { tokens: t.push(nl), is_error: true, ..s })
        } else {
            let r = s.stack.drop_last();
            match s.stack.last() {
                YamlPartialView::Root => Ok(YamlLexerView { tokens: t.push(nl), ..s }),
                YamlPartialView::YamlStart(raw) => Ok(YamlLexerView {
                    tokens: t.push(YamlTokenView::YamlStart(raw)).push(nl),
                    stack: r.push(YamlPartialView::Root),
                    ..s
                }),
                YamlPartialView::Other => Err(YamlLexError::UnexpectedCharacter),
            }
        }
    } else {
        Ok(s)
    }
}

/// `after` is what a call with outcome `outcome` leaves, from `before`,
/// and `r` is what it returns.
pub open spec fn applied(
    before: YamlLexerView,
    outcome: Result<YamlLexerView, YamlLexError>,
    r: Result<(), YamlLexError>,
    after: YamlLexerView,
) -> bool {
    match outcome {
        Ok(v) => r == Ok::<(), YamlLexError>(()) && after == v,
        Err(e) => r == Err::<(), YamlLexError>(e) && after == before,
    }
}

/// The state of a new lexer: no token, the document root open, no error.
pub open spec fn initial_lexer() -> YamlLexerView {
    YamlLexerView { tokens: Seq::empty(), stack: seq![YamlPartialView::Root], is_error: false }
}

/// Whether `s` is a non-empty run of dashes.
pub open spec fn dashes(s: Seq<char>) -> bool {
    s.len() > 0 && forall|i: int| 0 <= i < s.len() ==> #[trigger] s[i] == '-'
}

/// What holds of every state of a lexer: exactly one partial token, the
/// root or a non-empty run of dashes, and no error.
pub open spec fn lexer_wf(s: YamlLexerView) -> bool {
    &&& s.stack.len() == 1
    &&& (s.stack[0] is Root || (s.stack[0] is YamlStart && dashes(s.stack[0]->YamlStart_0)))
    &&& !s.is_error
}

impl YamlStreamLexer {
    #[verifier::type_invariant]
    spec fn well_formed(&self) -> bool {
        lexer_wf(self@)
    }

    fn emit(&mut self, t: YamlToken)
        ensures
            final(self)@ == (YamlLexerView { tokens: old(self)@.tokens.push(t@), ..old(self)@ }),
    {
        proof {
            use_type_invariant(&*self);
        }
        let ghost q0 = self.tokens@;
        let ghost tv = t@;
        let mut q = VecDeque::new();
        std::mem::swap(&mut q, &mut self.tokens);
        q.push_back(t);
        self.tokens = q;
        proof {
            assert(tokens_view(self.tokens@) =~= tokens_view(q0).push(tv));
        }
    }

    fn set_partial(&mut self, p: YamlPartialToken)
        requires
            p@ is Root || (p@ is YamlStart && dashes(p@->YamlStart_0)),
        ensures
            final(self)@ == (YamlLexerView { stack: seq![p@], ..old(self)@ }),
    {
        proof {
            use_type_invariant(&*self);
        }
        let ghost pv = p@;
        let mut v = Vec::new();
        v.push(p);
        self.partial_tokens = v;
        proof {
            assert(partials_view(self.partial_tokens@) =~= seq![pv]);
        }
    }

    /// A lexer at the start of a document.
    pub fn new() -> (l: YamlStreamLexer)
        ensures
            l@ == initial_lexer(),
    {
        let mut partial_tokens = Vec::new();
        partial_tokens.push(YamlPartialToken::Root);
        let l = YamlStreamLexer { tokens: VecDeque::new(), partial_tokens, is_error: false };
        proof {
            assert(l@.tokens =~= Seq::<YamlTokenView>::empty());
            assert(l@.stack =~= seq![YamlPartialView::Root]);
        }
        l
    }

    /// Takes the oldest complete token, if there is one.
    pub fn pop_token(&mut self) -> (r: YamlStreamStatus)
        ensures
            final(self)@.stack == old(self)@.stack,
            final(self)@.is_error == old(self)@.is_error,
            match r {
                YamlStreamStatus::Empty => old(self)@.tokens.len() == 0 && final(self)@.tokens == old(self)@.tokens,
                YamlStreamStatus::Token(t) => {
                    &&& old(self)@.tokens.len() > 0
                    &&& t@ == old(self)@.tokens[0]
                    &&& final(self)@.tokens == old(self)@.tokens.drop_first()
                },
            },
    {
        proof {
            use_type_invariant(&*self);
        }
        let ghost q0 = self.tokens@;
        let mut q = VecDeque::new();
        std::mem::swap(&mut q, &mut self.tokens);
        let r = q.pop_front();
        self.tokens = q;
        match r {
            Some(t) => {
                proof {
                    assert(tokens_view(self.tokens@) =~= tokens_view(q0).drop_first());
                }
                YamlStreamStatus::Token(t)
            },
            None => YamlStreamStatus::Empty,
        }
    }

    /// Reads one character of the document (see `push_step`). Every
    /// character is accepted: the lexer always holds the root or a run of
    /// dashes.
    pub fn push_char(&mut self, c: char) -> (r: Result<(), YamlLexError>)
        ensures
            r is Ok,
            push_step(old(self)@, c) is Ok,
            final(self)@ == push_step(old(self)@, c)->Ok_0,
    {
        proof {
            use_type_invariant(&*self);
        }
        let ghost s0 = self@;
        if c == '-' {
            let next = match &self.partial_tokens[0] {
                YamlPartialToken::YamlStart(raw) => {
                    let mut next = raw.clone();
                    string_push(&mut next, c);
                    next
                },
                _ => string_of(c),
            };
            let ghost nv = next@;
            proof {
                assert(nv.len() > 0);
                assert forall|i: int| 0 <= i < nv.len() implies #[trigger] nv[i] == '-' by {
                    if s0.stack[0] is YamlStart && i < nv.len() - 1 {
                        assert(nv[i] == s0.stack[0]->YamlStart_0[i]);
                    }
                }
            }
            self.set_partial(YamlPartialToken::YamlStart(next));
            proof {
                assert(self@.stack =~= s0.stack.drop_last().push(YamlPartialView::YamlStart(nv)));
                assert(self@ =~= push_step(s0, c)->Ok_0);
            }
        } else if c == '\n' {
            let start = match &self.partial_tokens[0] {
                YamlPartialToken::YamlStart(raw) => Some(raw.clone()),
                _ => None,
            };
            match start {
                Some(raw) => {
                    self.emit(YamlToken::YamlStart(raw));
                    self.set_partial(YamlPartialToken::Root);
                    proof {
                        assert(self@.stack =~= s0.stack.drop_last().push(YamlPartialView::Root));
                    }
                },
                None => {},
            }
            self.emit(YamlToken::NewLine(string_of(c)));
            proof {
                assert(self@ =~= push_step(s0, c)->Ok_0);
            }
        }
        Ok(())
    }
}

/// Every line break is kept exactly once: it ends the dashes of a document
/// start, if any are open, and is then one `NewLine` token of its own.
pub proof fn law_line_break_is_one_newline(s: YamlLexerView)
    requires
        lexer_wf(s),
    ensures
        push_step(s, '\n')->Ok_0.tokens == s.tokens + match s.stack.last() {
            YamlPartialView::YamlStart(raw) => seq![YamlTokenView::YamlStart(raw), YamlTokenView::NewLine(seq!['\n'])],
            _ => seq![YamlTokenView::NewLine(seq!['\n'])],
        },
{
    let nl = YamlTokenView::NewLine(seq!['\n']);
    match s.stack.last() {
        YamlPartialView::YamlStart(raw) => {
            assert(s.tokens.push(YamlTokenView::YamlStart(raw)).push(nl) =~= s.tokens + seq![YamlTokenView::YamlStart(raw), nl]);
        },
        _ => {
            assert(s.tokens.push(nl) =~= s.tokens + seq![nl]);
        },
    }
}

/// Characters other than a line break emit no token.
pub proof fn law_only_line_breaks_emit(s: YamlLexerView, c: char)
    requires
        lexer_wf(s),
        c != '\n',
    ensures
        push_step(s, c)->Ok_0.tokens == s.tokens,
{
}

/// Every character other than `-` and a line break is ignored: it leaves
/// the lexer exactly as it was, so the dashes read since the last line
/// break stay open, whatever else the line holds.
pub proof fn law_other_characters_change_nothing(s: YamlLexerView, c: char)
    requires
        c != '-',
        c != '\n',
    ensures
        push_step(s, c) == Ok::<YamlLexerView, YamlLexError>(s),
{
}

/// The dashes of a document start are kept until the line ends: from a
/// lexer holding the dashes `raw`, any characters other than `-` and a line
/// break, then a line break, give exactly a `YamlStart` token with `raw`
/// and a `NewLine` token.
pub proof fn law_document_start_survives_the_line(s: YamlLexerView, raw: Seq<char>, cs: Seq<char>)
    requires
        lexer_wf(s),
        s.stack.last() == YamlPartialView::YamlStart(raw),
        forall|i: int| 0 <= i < cs.len() ==> cs[i] != '-' && cs[i] != '\n',
    ensures
        push_all(s, cs) == Ok::<YamlLexerView, YamlLexError>(s),
        push_step(s, '\n')->Ok_0.tokens == s.tokens + seq![
            YamlTokenView::YamlStart(raw),
            YamlTokenView::NewLine(seq!['\n']),
        ],
    decreases cs.len(),
{
    if cs.len() > 0 {
        law_document_start_survives_the_line(s, raw, cs.drop_last());
    }
    law_line_break_is_one_newline(s);
}

/// What pushing the characters `cs` in order does, stopping at the first
/// refused one.
pub open spec fn push_all(s: YamlLexerView, cs: Seq<char>) -> Result<YamlLexerView, YamlLexError>
    decreases cs.len(),
{
    if cs.len() == 0 {
        Ok(s)
    } else {
        match push_all(s, cs.drop_last()) {
            Ok(s1) => push_step(s1, cs.last()),
            Err(e) => Err(e),
        }
    }
}

/// A new lexer satisfies the invariant.
pub proof fn law_new_lexer_wf()
    ensures
        lexer_wf(initial_lexer()),
{
}

/// From a state that satisfies the invariant, every character is
/// accepted, and the invariant holds after it.
pub proof fn law_push_never_fails(s: YamlLexerView, c: char)
    requires
        lexer_wf(s),
    ensures
        push_step(s, c) is Ok,
        lexer_wf(push_step(s, c)->Ok_0),
{
}

/// An accepted character never changes or removes a token already emitted.
pub proof fn law_push_keeps_emitted_tokens(s: YamlLexerView, c: char)
    requires
        push_step(s, c) is Ok,
    ensures
        s.tokens.is_prefix_of(push_step(s, c)->Ok_0.tokens),
{
}

} // verus!
