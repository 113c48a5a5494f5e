//! Following a JSON path through a stream of tokens: for each token, the
//! query says whether it belongs to the part of the document the path
//! selects.
use vstd::prelude::*;
use crate::json::lexer::{JsonToken, JsonTokenView, token_raw, tokens_view};
use crate::json::path::{JsonPath, JsonPathOperator, JsonPathOperatorView, operators_view};

verus! {

/// Where a cursor stands, as a value: the path's steps, how many steps of
/// the path have been entered, how deep the document is open, the index
/// reached in each open structure, whether the document is on the path
/// (`aligned`), and whether it is at the path's end (`matched`).
pub struct CursorView {
    pub ops: Seq<JsonPathOperatorView>,
    pub path_cursor: int,
    pub document_cursor: int,
    pub array_cursors: Seq<isize>,
    pub aligned: bool,
    pub matched: bool,
}

/// Whether the step the cursor is at is a root array index.
pub open spec fn at_array_root(m: CursorView) -> bool {
    m.ops[m.path_cursor] is ArrayRoot
}

/// What entering an object or array does to the cursor: the document
/// deepens and the new structure gets an index slot of its own, starting
/// at -1, so that leaving it drops exactly that slot. `None` where the
/// cursor cannot follow (its step is out of the path, the depth would
/// overflow, or the step is a deep scan, a slice or a filter).
pub open spec fn spec_traverse(m: CursorView) -> Option<CursorView> {
    if m.path_cursor >= m.ops.len() || m.document_cursor >= usize::MAX {
        None
    } else {
        let m1 = CursorView { document_cursor: m.document_cursor + 1, array_cursors: m.array_cursors.push(-1isize), ..m };
        if !at_array_root(m) && m.path_cursor != m.document_cursor {
            Some(m1)
        } else if !m.aligned {
            Some(m1)
        } else if !at_array_root(m) && m.path_cursor == m.ops.len() - 1 {
            Some(m1)
        } else {
            match m.ops[m.path_cursor] {
                JsonPathOperatorView::ObjectRoot => Some(CursorView { path_cursor: m.path_cursor + 1, ..m1 }),
                JsonPathOperatorView::ArrayRoot(_) => Some(m1),
                JsonPathOperatorView::MemberAccess(_) => Some(CursorView { path_cursor: m.path_cursor + 1, ..m1 }),
                JsonPathOperatorView::ArrayIndex(_) => Some(CursorView { path_cursor: m.path_cursor + 1, ..m1 }),
                _ => None,
            }
        }
    }
}

/// The array cursors after leaving a structure (unchanged where none is open).
pub open spec fn pop_cursor(acs: Seq<isize>) -> Seq<isize> {
    if acs.len() > 0 {
        acs.drop_last()
    } else {
        acs
    }
}

/// What leaving an object or array does to the cursor; `None` where the
/// document is not open.
pub open spec fn spec_recede(m: CursorView) -> Option<CursorView> {
    if m.path_cursor != m.document_cursor {
        if m.document_cursor == 0 {
            None
        } else {
            Some(CursorView { document_cursor: m.document_cursor - 1, array_cursors: pop_cursor(m.array_cursors), ..m })
        }
    } else if m.path_cursor == 0 {
        None
    } else {
        Some(CursorView {
            path_cursor: m.path_cursor - 1,
            document_cursor: m.document_cursor - 1,
            array_cursors: pop_cursor(m.array_cursors),
            aligned: true,
            matched: false,
            ..m
        })
    }
}

/// What a property name does to the cursor: where the document stands at
/// the path's current step, it is aligned exactly when the step is that
/// member; `None` where the step is out of the path.
pub open spec fn spec_member_access(m: CursorView, name: Seq<char>) -> Option<CursorView> {
    if m.path_cursor != m.document_cursor {
        Some(m)
    } else if m.path_cursor >= m.ops.len() {
        None
    } else {
        let aligned = match m.ops[m.path_cursor] {
            JsonPathOperatorView::MemberAccess(member) => name == member,
            _ => false,
        };
        Some(CursorView { aligned, matched: aligned && m.path_cursor == m.ops.len() - 1, ..m })
    }
}

/// What the start of an array item does to the cursor: at an index step,
/// the index of the innermost open structure advances and the cursor is
/// aligned exactly when it reaches the step's index; `None` where the
/// step is out of the path or the index would overflow.
pub open spec fn spec_increment_index(m: CursorView) -> Option<CursorView> {
    if m.path_cursor >= m.ops.len() {
        None
    } else if !at_array_root(m) && m.path_cursor != m.document_cursor {
        Some(m)
    } else {
        let last = m.path_cursor == m.ops.len() - 1;
        match m.ops[m.path_cursor] {
            JsonPathOperatorView::ArrayRoot(index) => advance_index(m, index, last),
            JsonPathOperatorView::ArrayIndex(index) => advance_index(m, index, last),
            _ => Some(CursorView { aligned: false, matched: false, ..m }),
        }
    }
}

/// Advancing the index of the innermost structure at an index step.
pub open spec fn advance_index(m: CursorView, index: isize, last: bool) -> Option<CursorView> {
    if m.array_cursors.len() == 0 {
        Some(CursorView { aligned: false, matched: false, ..m })
    } else if m.array_cursors.last() == isize::MAX {
        None
    } else {
        let next = (m.array_cursors.last() + 1) as isize;
        let aligned = next == index;
        Some(CursorView {
            array_cursors: m.array_cursors.update(m.array_cursors.len() - 1, next),
            aligned,
            matched: aligned && last,
            ..m
        })
    }
}

/// What holds of every cursor: the path is never further in than the
/// document, each open structure has one index slot, and the cursor's step
/// is within a non-empty path.
pub open spec fn cursor_wf(m: CursorView) -> bool {
    &&& 0 <= m.path_cursor <= m.document_cursor
    &&& m.array_cursors.len() == m.document_cursor
    &&& m.document_cursor <= usize::MAX
    &&& m.ops.len() > 0 ==> m.path_cursor < m.ops.len()
}

struct JsonPathCursor<'a> {
    path: &'a JsonPath,
    path_cursor: usize,
    document_cursor: usize,
    document_array_cursors: Vec<isize>,
    path_aligned: bool,
    path_match: bool,
}

impl<'a> View for JsonPathCursor<'a> {
    type V = CursorView;

    closed spec fn view(&self) -> CursorView {
        CursorView {
            ops: self.path@,
            path_cursor: self.path_cursor as int,
            document_cursor: self.document_cursor as int,
            array_cursors: self.document_array_cursors@,
            aligned: self.path_aligned,
            matched: self.path_match,
        }
    }
}

impl<'a> JsonPathCursor<'a> {
    fn from(path: &'a JsonPath) -> (c: JsonPathCursor<'a>)
        ensures
            c@ == (CursorView {
                ops: path@,
                path_cursor: 0,
                document_cursor: 0,
                array_cursors: Seq::empty(),
                aligned: true,
                matched: false,
            }),
    {
        JsonPathCursor {
            path,
            path_cursor: 0,
            document_cursor: 0,
            document_array_cursors: Vec::new(),
            path_aligned: true,
            path_match: false,
        }
    }

    fn is_array_root(&self) -> (r: bool)
        requires
            self@.path_cursor < self@.ops.len(),
        ensures
            r == at_array_root(self@),
    {
        match &self.path.operations()[self.path_cursor] {
            JsonPathOperator::ArrayRoot(_) => true,
            _ => false,
        }
    }

    fn traverse(&mut self)
        requires
            spec_traverse(old(self)@) is Some,
        ensures
            final(self)@ == spec_traverse(old(self)@)->Some_0,
    {
        let off_path = !self.is_array_root() && self.path_cursor != self.document_cursor;
        self.document_cursor += 1;
        self.document_array_cursors.push(-1);
        if off_path {
            return;
        }
        if !self.path_aligned {
            return;
        }
        if !self.is_array_root() && self.path_cursor == self.path.operations().len() - 1 {
            return;
        }
        match &self.path.operations()[self.path_cursor] {
            JsonPathOperator::ObjectRoot => self.path_cursor += 1,
            JsonPathOperator::ArrayRoot(_) => {},
            JsonPathOperator::MemberAccess(_) => self.path_cursor += 1,
            JsonPathOperator::ArrayIndex(_) => self.path_cursor += 1,
            _ => {},
        }
    }

    fn recede(&mut self)
        requires
            spec_recede(old(self)@) is Some,
        ensures
            final(self)@ == spec_recede(old(self)@)->Some_0,
    {
        if self.path_cursor != self.document_cursor {
            self.document_cursor -= 1;
            self.document_array_cursors.pop();
        } else {
            self.path_cursor -= 1;
            self.document_cursor -= 1;
            self.document_array_cursors.pop();
            self.path_aligned = true;
            self.path_match = false;
        }
    }

    fn member_access(&mut self, name: &String)
        requires
            spec_member_access(old(self)@, name@) is Some,
        ensures
            final(self)@ == spec_member_access(old(self)@, name@)->Some_0,
    {
        if self.path_cursor != self.document_cursor {
            return;
        }
        match &self.path.operations()[self.path_cursor] {
            JsonPathOperator::MemberAccess(path_member) => self.path_aligned = *name == *path_member,
            _ => self.path_aligned = false,
        }
        self.path_match = self.path_aligned && self.path_cursor == self.path.operations().len() - 1;
    }

    fn increment_index(&mut self)
        requires
            spec_increment_index(old(self)@) is Some,
        ensures
            final(self)@ == spec_increment_index(old(self)@)->Some_0,
    {
        if !self.is_array_root() && self.path_cursor != self.document_cursor {
            return;
        }
        let path_index = match &self.path.operations()[self.path_cursor] {
            JsonPathOperator::ArrayRoot(i) => Some(*i),
            JsonPathOperator::ArrayIndex(i) => Some(*i),
            _ => None,
        };
        match path_index {
            Some(path_index) => {
                let n = self.document_array_cursors.len();
                if n > 0 {
                    let next = self.document_array_cursors[n - 1] + 1;
                    self.document_array_cursors.set(n - 1, next);
                    self.path_aligned = next == path_index;
                } else {
                    self.path_aligned = false;
                }
            },
            None => self.path_aligned = false,
        }
        self.path_match = self.path_aligned && self.path_cursor == self.path.operations().len() - 1;
    }

    fn is_matching(&self) -> (r: bool)
        ensures
            r == self@.matched,
    {
        self.path_match
    }
}


impl<'a> JsonPathCursor<'a> {
    /// Whether `traverse` can follow the document from here.
    fn can_traverse(&self) -> (r: bool)
        ensures
            r == spec_traverse(self@) is Some,
    {
        let n = self.path.operations().len();
        if self.path_cursor >= n || self.document_cursor == usize::MAX {
            return false;
        }
        if !self.is_array_root() && self.path_cursor != self.document_cursor {
            return true;
        }
        if !self.path_aligned {
            return true;
        }
        if !self.is_array_root() && self.path_cursor == n - 1 {
            return true;
        }
        match &self.path.operations()[self.path_cursor] {
            JsonPathOperator::ObjectRoot => true,
            JsonPathOperator::ArrayRoot(_) => true,
            JsonPathOperator::MemberAccess(_) => true,
            JsonPathOperator::ArrayIndex(_) => true,
            _ => false,
        }
    }

    /// Whether `recede` can follow the document from here.
    fn can_recede(&self) -> (r: bool)
        ensures
            r == spec_recede(self@) is Some,
    {
        if self.path_cursor != self.document_cursor {
            self.document_cursor != 0
        } else {
            self.path_cursor != 0
        }
    }

    /// Whether `increment_index` can follow the document from here.
    fn can_increment_index(&self) -> (r: bool)
        ensures
            r == spec_increment_index(self@) is Some,
    {
        if self.path_cursor >= self.path.operations().len() {
            return false;
        }
        if !self.is_array_root() && self.path_cursor != self.document_cursor {
            return true;
        }
        let is_index = match &self.path.operations()[self.path_cursor] {
            JsonPathOperator::ArrayRoot(_) => true,
            JsonPathOperator::ArrayIndex(_) => true,
            _ => false,
        };
        let n = self.document_array_cursors.len();
        !(is_index && n > 0 && self.document_array_cursors[n - 1] == isize::MAX)
    }

    /// Whether the cursor is at the path's end after `traverse` and then
    /// `increment_index`, as an array opens.
    fn matched_after_array_open(&self) -> (r: bool)
        requires
            spec_traverse(self@) is Some,
        ensures
            spec_increment_index(spec_traverse(self@)->Some_0) is Some,
            r == spec_increment_index(spec_traverse(self@)->Some_0)->Some_0.matched,
    {
        let n = self.path.operations().len();
        let ar = self.is_array_root();
        let dc1 = self.document_cursor + 1;
        let mut pc1 = self.path_cursor;
        if (ar || self.path_cursor == self.document_cursor) && self.path_aligned && !(!ar && self.path_cursor == n - 1) {
            match &self.path.operations()[self.path_cursor] {
                JsonPathOperator::ArrayRoot(_) => {},
                _ => pc1 = pc1 + 1,
            }
        }
        let ar1 = match &self.path.operations()[pc1] {
            JsonPathOperator::ArrayRoot(_) => true,
            _ => false,
        };
        if !ar1 && pc1 != dc1 {
            return self.path_match;
        }
        let path_index = match &self.path.operations()[pc1] {
            JsonPathOperator::ArrayRoot(i) => Some(*i),
            JsonPathOperator::ArrayIndex(i) => Some(*i),
            _ => None,
        };
        match path_index {
            Some(path_index) => path_index == 0 && pc1 == n - 1,
            None => false,
        }
    }
}

/// A query as a value: its cursor, whether the current match has ended,
/// and how deep the matched value is open.
pub struct QueryView {
    pub cursor: CursorView,
    pub ended: bool,
    pub depth: isize,
}

/// What a token does to the cursor.
pub open spec fn cursor_step(m: CursorView, t: JsonTokenView) -> Option<CursorView> {
    match t {
        JsonTokenView::PropertyName { name, .. } => spec_member_access(m, name),
        JsonTokenView::ObjectOpen(_) => spec_traverse(m),
        JsonTokenView::ObjectClose(_) => spec_recede(m),
        JsonTokenView::ArrayOpen(_) => match spec_traverse(m) {
            Some(m1) => spec_increment_index(m1),
            None => None,
        },
        JsonTokenView::ArrayClose(_) => spec_recede(m),
        JsonTokenView::ArrayItemDelimiter(_) => spec_increment_index(m),
        _ => Some(m),
    }
}

/// The query after a token, and whether the token is selected: never once
/// the current match has ended.
pub open spec fn settled(cursor: CursorView, ended: bool, depth: isize, matching: bool) -> Option<(QueryView, bool)> {
    Some((QueryView { cursor, ended, depth }, if ended { false } else { matching }))
}

/// What the query makes of one token: the query after it and whether the
/// token belongs to the selection; `None` where the query cannot follow
/// the token.
///
/// A token is selected while the cursor is at the path's end; the value
/// that follows a selected name is selected with everything nested in it,
/// up to the delimiter or closing bracket that ends it, and the selection
/// ends there.
pub open spec fn spec_parse(q: QueryView, t: JsonTokenView) -> Option<(QueryView, bool)> {
    match cursor_step(q.cursor, t) {
        None => None,
        Some(c) => {
            let matching = c.matched;
            let just_started = !q.cursor.matched && matching;
            let ended = if !matching && q.ended { false } else { q.ended };
            if !matching {
                settled(c, ended, q.depth, false)
            } else {
                match t {
                    JsonTokenView::PropertyName { .. } => if q.depth <= 0 {
                        settled(c, ended, 0, false)
                    } else {
                        settled(c, ended, q.depth, true)
                    },
                    JsonTokenView::ObjectOpen(_) => if q.depth == isize::MAX {
                        None
                    } else {
                        settled(c, ended, (q.depth + 1) as isize, true)
                    },
                    JsonTokenView::ArrayOpen(_) => if q.depth == isize::MAX {
                        None
                    } else {
                        settled(c, ended, (q.depth + 1) as isize, true)
                    },
                    JsonTokenView::ObjectClose(_) => close_match(c, ended, q.depth),
                    JsonTokenView::ArrayClose(_) => close_match(c, ended, q.depth),
                    JsonTokenView::ArrayItemDelimiter(_) => if q.depth <= 0 {
                        settled(c, if !just_started { true } else { ended }, 0, false)
                    } else {
                        settled(c, ended, q.depth, true)
                    },
                    JsonTokenView::PropertyDelimiter(_) => if q.depth <= 0 {
                        settled(c, true, 0, false)
                    } else {
                        settled(c, ended, q.depth, true)
                    },
                    JsonTokenView::KeyValueDelimiter(_) => if q.depth <= 0 {
                        settled(c, ended, 0, false)
                    } else {
                        settled(c, ended, q.depth, true)
                    },
                    _ => settled(c, ended, q.depth, true),
                }
            }
        },
    }
}

/// A closing bracket of the selected value: the depth goes down, and where
/// it reaches zero the bracket is the last selected token.
pub open spec fn close_match(c: CursorView, ended: bool, depth: isize) -> Option<(QueryView, bool)> {
    if depth == isize::MIN {
        None
    } else if depth - 1 == 0 {
        Some((QueryView { cursor: c, ended: true, depth: 0 }, true))
    } else {
        settled(c, ended, (depth - 1) as isize, true)
    }
}

/// A query of a JSON token stream along a path.
pub struct JsonQuery<'a> {
    path: JsonPathCursor<'a>,
    current_match_ended: bool,
    current_match_depth: isize,
}

impl<'a> View for JsonQuery<'a> {
    type V = QueryView;

    closed spec fn view(&self) -> QueryView {
        QueryView { cursor: self.path@, ended: self.current_match_ended, depth: self.current_match_depth }
    }
}

/// The query at the start of a document, along the path `ops`.
pub open spec fn initial_query(ops: Seq<JsonPathOperatorView>) -> QueryView {
    QueryView {
        cursor: CursorView {
            ops,
            path_cursor: 0,
            document_cursor: 0,
            array_cursors: Seq::empty(),
            aligned: true,
            matched: false,
        },
        ended: false,
        depth: -1isize,
    }
}

impl<'a> JsonQuery<'a> {
    /// A query along `path`, at the start of a document.
    pub fn from(path: &'a JsonPath) -> (q: JsonQuery<'a>)
        ensures
            q@ == initial_query(path@),
    {
        JsonQuery { path: JsonPathCursor::from(path), current_match_ended: false, current_match_depth: -1 }
    }

    /// Whether the query can follow `token` (see `spec_parse`).
    pub fn accepts(&self, token: &JsonToken) -> (r: bool)
        ensures
            r == spec_parse(self@, token@) is Some,
    {
        let depth = self.current_match_depth;
        match token {
            JsonToken::PropertyName { .. } => {
                self.path.path_cursor != self.path.document_cursor || self.path.path_cursor < self.path.path.operations().len()
            },
            JsonToken::ObjectOpen(_) => self.path.can_traverse() && !(self.path.path_match && depth == isize::MAX),
            JsonToken::ArrayOpen(_) => {
                if !self.path.can_traverse() {
                    return false;
                }
                !(self.path.matched_after_array_open() && depth == isize::MAX)
            },
            JsonToken::ObjectClose(_) | JsonToken::ArrayClose(_) => {
                if !self.path.can_recede() {
                    return false;
                }
                let matched = self.path.path_cursor != self.path.document_cursor && self.path.path_match;
                !(matched && depth == isize::MIN)
            },
            JsonToken::ArrayItemDelimiter(_) => self.path.can_increment_index(),
            _ => true,
        }
    }

    /// Follows one token of the document; whether the token belongs to the
    /// part of the document that the path selects.
    pub fn parse(&mut self, token: &JsonToken) -> (r: bool)
        requires
            spec_parse(old(self)@, token@) is Some,
        ensures
            (final(self)@, r) == spec_parse(old(self)@, token@)->Some_0,
    {
        let before_parse_match_state = self.path.is_matching();

        match token {
            JsonToken::PropertyName { raw: _, name } => self.path.member_access(name),
            JsonToken::ObjectOpen(_) => self.path.traverse(),
            JsonToken::ObjectClose(_) => self.path.recede(),
            JsonToken::ArrayOpen(_) => {
                self.path.traverse();
                self.path.increment_index();
            },
            JsonToken::ArrayClose(_) => self.path.recede(),
            JsonToken::ArrayItemDelimiter(_) => {
                self.path.increment_index();
            },
            _ => {},
        }

        let mut is_matching = self.path.is_matching();

        let matching_just_started = !before_parse_match_state && is_matching;

        if !is_matching && self.current_match_ended {
            self.current_match_ended = false;
        }

        if is_matching {
            match token {
                JsonToken::PropertyName { raw: _, name: _ } => {
                    if self.current_match_depth <= 0 {
                        self.current_match_depth = 0;
                        is_matching = false;
                    }
                },
                JsonToken::ObjectOpen(_) => self.current_match_depth += 1,
                JsonToken::ObjectClose(_) => {
                    self.current_match_depth -= 1;

                    if self.current_match_depth == 0 {
                        self.current_match_ended = true;
                        return is_matching;
                    }
                },
                JsonToken::ArrayOpen(_) => self.current_match_depth += 1,
                JsonToken::ArrayClose(_) => {
                    self.current_match_depth -= 1;

                    if self.current_match_depth == 0 {
                        self.current_match_ended = true;
                        return is_matching;
                    }
                },
                JsonToken::ArrayItemDelimiter(_) => {
                    if self.current_match_depth <= 0 {
                        if !matching_just_started {
                            self.current_match_ended = true;
                        }
                        self.current_match_depth = 0;
                        is_matching = false;
                    }
                },
                JsonToken::PropertyDelimiter(_) => {
                    if self.current_match_depth <= 0 {
                        self.current_match_ended = true;
                        self.current_match_depth = 0;
                        is_matching = false;
                    }
                },
                JsonToken::KeyValueDelimiter(_) => {
                    if self.current_match_depth <= 0 {
                        self.current_match_depth = 0;
                        is_matching = false;
                    }
                },
                _ => {},
            }
        }

        if self.current_match_ended {
            false
        } else {
            is_matching
        }
    }
}

/// A new query's cursor is well formed.
pub proof fn law_initial_query_wf(ops: Seq<JsonPathOperatorView>)
    ensures
        cursor_wf(initial_query(ops).cursor),
{
}

/// Every token the query follows keeps its cursor well formed: the path is
/// never entered further than the document, and the cursor's step stays
/// within the path.
pub proof fn law_parse_keeps_wf(q: QueryView, t: JsonTokenView)
    requires
        cursor_wf(q.cursor),
        spec_parse(q, t) is Some,
    ensures
        cursor_wf(spec_parse(q, t)->Some_0.0.cursor),
{
}

/// Tokens that neither open nor close a structure, name a member nor
/// separate array items are always followed, and leave the cursor where it
/// was.
pub proof fn law_values_keep_cursor(q: QueryView, t: JsonTokenView)
    requires
        !(t is PropertyName || t is ObjectOpen || t is ObjectClose || t is ArrayOpen || t is ArrayClose
            || t is ArrayItemDelimiter),
    ensures
        spec_parse(q, t) is Some,
        spec_parse(q, t)->Some_0.0.cursor == q.cursor,
{
}

/// No token is selected unless, after it, the cursor is at the path's end.
pub proof fn law_selected_only_at_path_end(q: QueryView, t: JsonTokenView)
    requires
        spec_parse(q, t) is Some,
        spec_parse(q, t)->Some_0.1,
    ensures
        spec_parse(q, t)->Some_0.0.cursor.matched,
{
}

/// Whether the step is one the cursor can enter: the root, a root array
/// index, a member or an array index.
pub open spec fn supported_step(op: JsonPathOperatorView) -> bool {
    op is ObjectRoot || op is ArrayRoot || op is MemberAccess || op is ArrayIndex
}

/// Along a non-empty path of supported steps, a well-formed query follows
/// every token except a closing bracket with no structure open, as long as
/// its counters are below their limits (the document depth, the index of
/// the innermost structure and the depth of the selected value).
pub proof fn law_query_follows_nested_documents(q: QueryView, t: JsonTokenView)
    requires
        cursor_wf(q.cursor),
        q.cursor.ops.len() > 0,
        forall|i: int| 0 <= i < q.cursor.ops.len() ==> supported_step(#[trigger] q.cursor.ops[i]),
        q.cursor.document_cursor < usize::MAX,
        q.cursor.array_cursors.len() > 0 ==> q.cursor.array_cursors.last() < isize::MAX,
        isize::MIN < q.depth < isize::MAX,
        !((t is ObjectClose || t is ArrayClose) && q.cursor.document_cursor == 0),
    ensures
        spec_parse(q, t) is Some,
{
    assert(supported_step(q.cursor.ops[q.cursor.path_cursor]));
}

// ---------------------------------------------------------------------------
// What a selection prints: its value alone, or its text as written.
// ---------------------------------------------------------------------------

/// A piece of the output of a selection.
pub enum OutputPiece {
    /// Text, printed as it is.
    Text(String),
    /// An integer value.
    Integer(isize),
    /// The text of a floating-point number, printed as the number it reads as.
    FloatRaw(String),
}

/// The mathematical value of an `OutputPiece`.
pub enum OutputPieceView {
    Text(Seq<char>),
    Integer(isize),
    FloatRaw(Seq<char>),
}

impl View for OutputPiece {
    type V = OutputPieceView;

    open spec fn view(&self) -> OutputPieceView {
        match self {
            OutputPiece::Text(s) => OutputPieceView::Text(s@),
            OutputPiece::Integer(v) => OutputPieceView::Integer(*v),
            OutputPiece::FloatRaw(s) => OutputPieceView::FloatRaw(s@),
        }
    }
}

/// The values of a sequence of output pieces.
pub open spec fn pieces_view(ps: Seq<OutputPiece>) -> Seq<OutputPieceView> {
    ps.map_values(|p: OutputPiece| p@)
}

/// Whether a token is a value: a string, an integer or a float.
pub open spec fn is_value(t: JsonTokenView) -> bool {
    t is StringValue || t is IntegerValue || t is FloatValue
}

/// How many of the tokens are values.
pub open spec fn value_count(sel: Seq<JsonTokenView>) -> nat
    decreases sel.len(),
{
    if sel.len() == 0 {
        0
    } else {
        value_count(sel.drop_last()) + if is_value(sel.last()) { 1nat } else { 0nat }
    }
}

/// The value of a token, as output: a string without its quotes, an
/// integer, or a float's text; nothing for other tokens.
pub open spec fn value_piece(t: JsonTokenView) -> Seq<OutputPieceView> {
    match t {
        JsonTokenView::StringValue { value, .. } => seq![OutputPieceView::Text(value)],
        JsonTokenView::IntegerValue { value, .. } => seq![OutputPieceView::Integer(value)],
        JsonTokenView::FloatValue { raw } => seq![OutputPieceView::FloatRaw(raw)],
        _ => Seq::empty(),
    }
}

/// The values among the tokens, in order.
pub open spec fn value_pieces(sel: Seq<JsonTokenView>) -> Seq<OutputPieceView>
    decreases sel.len(),
{
    if sel.len() == 0 {
        Seq::empty()
    } else {
        value_pieces(sel.drop_last()) + value_piece(sel.last())
    }
}

/// The text of each token, in order.
pub open spec fn raw_pieces(sel: Seq<JsonTokenView>) -> Seq<OutputPieceView> {
    sel.map_values(|t: JsonTokenView| OutputPieceView::Text(token_raw(t)))
}

/// What the selected tokens print as: where at most one of them is a value,
/// that value alone (the best reading of a single selected value); otherwise
/// the selected text as written.
pub open spec fn spec_selection_output(sel: Seq<JsonTokenView>) -> Seq<OutputPieceView> {
    if value_count(sel) <= 1 {
        value_pieces(sel)
    } else {
        raw_pieces(sel)
    }
}

/// The output of the selected tokens `selected` (see `spec_selection_output`).
pub fn selection_output(selected: &Vec<JsonToken>) -> (out: Vec<OutputPiece>)
    ensures
        pieces_view(out@) == spec_selection_output(tokens_view(selected@)),
{
    let ghost sel = tokens_view(selected@);
    let n = selected.len();
    let mut count: usize = 0;
    let mut i: usize = 0;
    while i < n
        invariant
            n == selected@.len(),
            sel == tokens_view(selected@),
            i <= n,
            count == value_count(sel.take(i as int)),
            count <= i,
        decreases n - i,
    {
        proof {
            assert(sel.take(i + 1).drop_last() =~= sel.take(i as int));
        }
        match &selected[i] {
            JsonToken::StringValue { .. } | JsonToken::IntegerValue { .. } | JsonToken::FloatValue { .. } => {
                count = count + 1;
            },
            _ => {},
        }
        i = i + 1;
    }
    proof {
        assert(sel.take(n as int) =~= sel);
    }
    let mut out: Vec<OutputPiece> = Vec::new();
    let mut i: usize = 0;
    if count <= 1 {
        while i < n
            invariant
                n == selected@.len(),
                sel == tokens_view(selected@),
                i <= n,
                pieces_view(out@) == value_pieces(sel.take(i as int)),
            decreases n - i,
        {
            proof {
                assert(sel.take(i + 1).drop_last() =~= sel.take(i as int));
            }
            let ghost before = pieces_view(out@);
            match &selected[i] {
                JsonToken::StringValue { value, .. } => out.push(OutputPiece::Text(value.clone())),
                JsonToken::IntegerValue { value, .. } => out.push(OutputPiece::Integer(*value)),
                JsonToken::FloatValue { raw } => out.push(OutputPiece::FloatRaw(raw.clone())),
                _ => {},
            }
            proof {
                assert(pieces_view(out@) =~= before + value_piece(sel[i as int]));
            }
            i = i + 1;
        }
        proof {
            assert(sel.take(n as int) =~= sel);
        }
    } else {
        while i < n
            invariant
                n == selected@.len(),
                sel == tokens_view(selected@),
                i <= n,
                pieces_view(out@) == raw_pieces(sel.take(i as int)),
            decreases n - i,
        {
            let ghost before = pieces_view(out@);
            let text = selected[i].raw().clone();
            proof {
                assert(sel[i as int] == selected@[i as int]@);
                assert(text@ == token_raw(sel[i as int]));
            }
            out.push(OutputPiece::Text(text));
            proof {
                assert(pieces_view(out@) =~= before.push(OutputPieceView::Text(token_raw(sel[i as int]))));
                assert(raw_pieces(sel.take(i + 1)) =~= raw_pieces(sel.take(i as int)).push(
                    OutputPieceView::Text(token_raw(sel[i as int])),
                ));
                assert(pieces_view(out@) =~= raw_pieces(sel.take(i + 1)));
            }
            i = i + 1;
        }
        proof {
            assert(sel.take(n as int) =~= sel);
        }
    }
    out
}

// ---------------------------------------------------------------------------
// Laws of the cursor's steps.
// ---------------------------------------------------------------------------

/// What holds of a cursor along a non-empty path: the path is never entered
/// further than the document, its step is within the path, and it is at the
/// path's end only when aligned at the last step.
pub open spec fn cursor_inv(m: CursorView) -> bool {
    &&& m.ops.len() >= 1
    &&& 0 <= m.path_cursor <= m.document_cursor
    &&& m.path_cursor < m.ops.len()
    &&& m.matched ==> m.aligned && m.path_cursor == m.ops.len() - 1
}

/// Every step of the cursor that can be taken keeps `cursor_inv`: entering
/// a structure, leaving one that is open, a property name and an array item.
pub proof fn law_cursor_steps_keep_inv(m: CursorView, name: Seq<char>)
    requires
        cursor_inv(m),
    ensures
        spec_traverse(m) is Some ==> cursor_inv(spec_traverse(m)->Some_0),
        spec_recede(m) is Some && m.document_cursor >= 1 ==> cursor_inv(spec_recede(m)->Some_0),
        spec_member_access(m, name) is Some ==> cursor_inv(spec_member_access(m, name)->Some_0),
        spec_increment_index(m) is Some ==> cursor_inv(spec_increment_index(m)->Some_0),
{
}

/// Entering a structure where the document is off the path (the step is not
/// a root array index and the document is deeper than the path) only
/// deepens the document, with an index slot for the new structure.
pub proof fn law_traverse_off_path(m: CursorView)
    requires
        m.path_cursor < m.ops.len(),
        m.document_cursor < usize::MAX,
        !at_array_root(m),
        m.path_cursor != m.document_cursor,
    ensures
        spec_traverse(m) == Some(CursorView {
            document_cursor: m.document_cursor + 1,
            array_cursors: m.array_cursors.push(-1isize),
            ..m
        }),
{
}

/// Leaving a structure undoes entering it: the path's step, the document's
/// depth and the indices of the structures still open are what they were.
pub proof fn law_recede_undoes_traverse(m: CursorView)
    requires
        cursor_wf(m),
        spec_traverse(m) is Some,
    ensures
        spec_recede(spec_traverse(m)->Some_0) is Some,
        spec_recede(spec_traverse(m)->Some_0)->Some_0.path_cursor == m.path_cursor,
        spec_recede(spec_traverse(m)->Some_0)->Some_0.document_cursor == m.document_cursor,
        spec_recede(spec_traverse(m)->Some_0)->Some_0.array_cursors == m.array_cursors,
{
    assert(m.array_cursors.push(-1isize).drop_last() =~= m.array_cursors);
}

/// Entering a structure where the document stands at the path's step (or
/// the step is a root array index): the document deepens, a new index
/// starts at -1, and the path moves to its next step when the document is
/// aligned, the step is not a root array index and it is not the last step.
pub proof fn law_traverse_on_path(m: CursorView)
    requires
        m.path_cursor < m.ops.len(),
        m.document_cursor < usize::MAX,
        at_array_root(m) || m.path_cursor == m.document_cursor,
        supported_step(m.ops[m.path_cursor]),
    ensures
        spec_traverse(m) == Some(CursorView {
            document_cursor: m.document_cursor + 1,
            array_cursors: m.array_cursors.push(-1isize),
            path_cursor: if m.aligned && !at_array_root(m) && m.path_cursor != m.ops.len() - 1 {
                m.path_cursor + 1
            } else {
                m.path_cursor
            },
            ..m
        }),
{
}

/// Leaving an open structure: off the path only the document rises; at the
/// path's step the path steps back too, and the cursor is aligned and not at
/// the path's end. The innermost index is dropped either way.
pub proof fn law_recede(m: CursorView)
    requires
        m.document_cursor >= 1,
        m.path_cursor <= m.document_cursor,
    ensures
        spec_recede(m) == Some(if m.path_cursor != m.document_cursor {
            CursorView { document_cursor: m.document_cursor - 1, array_cursors: pop_cursor(m.array_cursors), ..m }
        } else {
            CursorView {
                path_cursor: m.path_cursor - 1,
                document_cursor: m.document_cursor - 1,
                array_cursors: pop_cursor(m.array_cursors),
                aligned: true,
                matched: false,
                ..m
            }
        }),
{
}

/// A property name where the document stands at the path's step aligns the
/// cursor exactly when the step is that member, and puts it at the path's
/// end exactly when it is aligned at the last step; nothing else changes.
pub proof fn law_member_access_on_path(m: CursorView, name: Seq<char>)
    requires
        m.path_cursor == m.document_cursor,
        m.path_cursor < m.ops.len(),
    ensures
        ({
            let aligned = m.ops[m.path_cursor] matches JsonPathOperatorView::MemberAccess(member) && member == name;
            spec_member_access(m, name) == Some(CursorView {
                aligned,
                matched: aligned && m.path_cursor == m.ops.len() - 1,
                ..m
            })
        }),
{
}

/// The start of an array item below or beside the path's step (which is
/// not a root array index) moves no index and changes nothing.
pub proof fn law_increment_index_off_path(m: CursorView)
    requires
        m.path_cursor < m.ops.len(),
        !at_array_root(m),
        m.path_cursor != m.document_cursor,
    ensures
        spec_increment_index(m) == Some(m),
{
}

/// The start of an array item at an index step: the innermost index
/// advances by one, and the cursor is aligned exactly when it reaches the
/// step's index, and at the path's end exactly when aligned at the last
/// step; with no structure open nothing is aligned.
pub proof fn law_increment_index_on_path(m: CursorView, index: isize)
    requires
        m.path_cursor < m.ops.len(),
        at_array_root(m) || m.path_cursor == m.document_cursor,
        m.ops[m.path_cursor] == JsonPathOperatorView::ArrayIndex(index) || m.ops[m.path_cursor]
            == JsonPathOperatorView::ArrayRoot(index),
        m.array_cursors.len() > 0 ==> m.array_cursors.last() < isize::MAX,
    ensures
        spec_increment_index(m) == Some(if m.array_cursors.len() == 0 {
            CursorView { aligned: false, matched: false, ..m }
        } else {
            let next = (m.array_cursors.last() + 1) as isize;
            CursorView {
                array_cursors: m.array_cursors.update(m.array_cursors.len() - 1, next),
                aligned: next == index,
                matched: next == index && m.path_cursor == m.ops.len() - 1,
                ..m
            }
        }),
{
}

/// A property name at a depth other than the path's step is ignored.
pub proof fn law_member_access_off_path(m: CursorView, name: Seq<char>)
    requires
        m.path_cursor != m.document_cursor,
    ensures
        spec_member_access(m, name) == Some(m),
{
}

// ---------------------------------------------------------------------------
// Where the document stands, and what the path addresses.
// ---------------------------------------------------------------------------

/// A structure open in the document: an object, with the name of the member
/// being read (none before its first name), or an array, with the index of
/// the item being read.
pub enum Frame {
    Obj(Option<Seq<char>>),
    Arr(int),
}

/// The open structures, outermost first, after the token `t`.
pub open spec fn frames_step(fr: Seq<Frame>, t: JsonTokenView) -> Seq<Frame> {
    match t {
        JsonTokenView::ObjectOpen(_) => fr.push(Frame::Obj(None)),
        JsonTokenView::ArrayOpen(_) => fr.push(Frame::Arr(0)),
        JsonTokenView::ObjectClose(_) => if fr.len() > 0 { fr.drop_last() } else { fr },
        JsonTokenView::ArrayClose(_) => if fr.len() > 0 { fr.drop_last() } else { fr },
        JsonTokenView::PropertyName { name, .. } => if fr.len() > 0 && fr.last() is Obj {
            fr.update(fr.len() - 1, Frame::Obj(Some(name)))
        } else {
            fr
        },
        JsonTokenView::ArrayItemDelimiter(_) => if fr.len() > 0 && fr.last() is Arr {
            fr.update(fr.len() - 1, Frame::Arr(fr.last()->Arr_0 + 1))
        } else {
            fr
        },
        _ => fr,
    }
}

/// Whether the token `t` stands where the open structures `fr` allow it: a
/// member name in an object, an item separator in an array, a closing
/// bracket with a structure open, and an opening bracket at the top level,
/// in an array or as a member's value.
pub open spec fn placed(fr: Seq<Frame>, t: JsonTokenView) -> bool {
    match t {
        JsonTokenView::PropertyName { .. } => fr.len() > 0 && fr.last() is Obj,
        JsonTokenView::ArrayItemDelimiter(_) => fr.len() > 0 && fr.last() is Arr,
        JsonTokenView::ObjectClose(_) => fr.len() > 0,
        JsonTokenView::ArrayClose(_) => fr.len() > 0,
        JsonTokenView::ObjectOpen(_) => fr.len() == 0 || fr.last() != Frame::Obj(None),
        JsonTokenView::ArrayOpen(_) => fr.len() == 0 || fr.last() != Frame::Obj(None),
        _ => true,
    }
}

/// The open structures after the tokens `ts`, from the top level.
pub open spec fn frames_of(ts: Seq<JsonTokenView>) -> Seq<Frame>
    decreases ts.len(),
{
    if ts.len() == 0 {
        Seq::empty()
    } else {
        frames_step(frames_of(ts.drop_last()), ts.last())
    }
}

/// Whether every token of `ts` is placed where the tokens before it leave
/// the document.
pub open spec fn well_placed(ts: Seq<JsonTokenView>) -> bool
    decreases ts.len(),
{
    ts.len() == 0 || (well_placed(ts.drop_last()) && placed(frames_of(ts.drop_last()), ts.last()))
}

/// The query after it follows the tokens `ts` from `q`; `None` where it
/// cannot follow one of them.
pub open spec fn run_query(q: QueryView, ts: Seq<JsonTokenView>) -> Option<QueryView>
    decreases ts.len(),
{
    if ts.len() == 0 {
        Some(q)
    } else {
        match run_query(q, ts.drop_last()) {
            Some(q1) => match spec_parse(q1, ts.last()) {
                Some((q2, _)) => Some(q2),
                None => None,
            },
            None => None,
        }
    }
}

/// A path from the root through members and array indices, with at least
/// one step: `$.a[1].b` and the like.
pub open spec fn plain_path(ops: Seq<JsonPathOperatorView>) -> bool {
    &&& ops.len() >= 2
    &&& ops[0] is ObjectRoot
    &&& forall|i: int| 1 <= i < ops.len() ==> (#[trigger] ops[i] is MemberAccess || ops[i] is ArrayIndex)
}

/// Whether an open structure stands at a step of the path: an object at the
/// member the step names, or an array at the item the step indexes.
pub open spec fn frame_matches(f: Frame, op: JsonPathOperatorView) -> bool {
    match f {
        Frame::Obj(Some(name)) => op matches JsonPathOperatorView::MemberAccess(member) && member == name,
        Frame::Arr(i) => op matches JsonPathOperatorView::ArrayIndex(index) && index == i,
        _ => false,
    }
}

/// Whether the document, with the structures `fr` open, is at or inside the
/// value that the path `ops` addresses: each step of the path is matched by
/// the structure open at its depth.
pub open spec fn addresses(fr: Seq<Frame>, ops: Seq<JsonPathOperatorView>) -> bool {
    &&& fr.len() >= ops.len() - 1
    &&& forall|j: int| 0 <= j < ops.len() - 1 ==> frame_matches(#[trigger] fr[j], ops[j + 1])
}

/// How a cursor follows the open structures `fr`: the path's step `pc` is
/// compared with the structure at depth `pc - 1`, every structure above it
/// matches its step, the cursor is aligned exactly when that structure
/// matches (or is an object before its first name), the document is deeper
/// than the path only when it left the path or is inside the value at its
/// end, and the index of each array on the path is the one the cursor holds.
spec fn tracks(m: CursorView, fr: Seq<Frame>) -> bool {
    let k = m.ops.len() - 1;
    let pc = m.path_cursor;
    &&& m.document_cursor == fr.len()
    &&& m.array_cursors.len() == fr.len()
    &&& if fr.len() == 0 {
        pc == 0 && m.aligned && !m.matched
    } else {
        &&& 1 <= pc <= fr.len()
        &&& pc <= k
        &&& forall|j: int| 0 <= j < pc - 1 ==> frame_matches(#[trigger] fr[j], m.ops[j + 1])
        &&& m.aligned == (fr[pc - 1] == Frame::Obj(None) || frame_matches(fr[pc - 1], m.ops[pc]))
        &&& m.matched == (pc == k && frame_matches(fr[pc - 1], m.ops[pc]))
        &&& pc < fr.len() ==> fr[pc - 1] != Frame::Obj(None) && (!m.aligned || pc == k)
        &&& forall|j: int|
            0 <= j < pc && (#[trigger] fr[j]) is Arr && m.ops[j + 1] is ArrayIndex ==> m.array_cursors[j] == fr[j]->Arr_0
    }
}

proof fn lemma_tracks_matched(m: CursorView, fr: Seq<Frame>)
    requires
        plain_path(m.ops),
        tracks(m, fr),
    ensures
        m.matched == addresses(fr, m.ops),
{
    if fr.len() > 0 && addresses(fr, m.ops) && m.path_cursor < m.ops.len() - 1 {
        assert(frame_matches(fr[m.path_cursor - 1], m.ops[m.path_cursor]));
    }
}

proof fn lemma_step_tracks(m: CursorView, fr: Seq<Frame>, t: JsonTokenView)
    requires
        plain_path(m.ops),
        tracks(m, fr),
        placed(fr, t),
        cursor_step(m, t) is Some,
    ensures
        cursor_step(m, t)->Some_0.ops == m.ops,
        tracks(cursor_step(m, t)->Some_0, frames_step(fr, t)),
{
    let m2 = cursor_step(m, t)->Some_0;
    let fr2 = frames_step(fr, t);
    let pc = m.path_cursor;
    let k = m.ops.len() - 1;
    assert(m.ops[pc] is ObjectRoot || m.ops[pc] is MemberAccess || m.ops[pc] is ArrayIndex);
    assert(!at_array_root(m));
    if pc + 1 < m.ops.len() {
        assert(m.ops[pc + 1] is MemberAccess || m.ops[pc + 1] is ArrayIndex);
    }
    match t {
        JsonTokenView::ObjectOpen(_) => {
            assert forall|j: int| 0 <= j < fr.len() implies fr2[j] == fr[j] by {}
            assert forall|j: int| 0 <= j < fr.len() implies m2.array_cursors[j] == m.array_cursors[j] by {}
        },
        JsonTokenView::ArrayOpen(_) => {
            let m1 = spec_traverse(m)->Some_0;
            assert forall|j: int| 0 <= j < fr.len() implies fr2[j] == fr[j] by {}
            assert forall|j: int| 0 <= j < fr.len() implies m1.array_cursors[j] == m.array_cursors[j] by {}
            assert forall|j: int| 0 <= j < fr.len() implies m2.array_cursors[j] == m.array_cursors[j] by {}
        },
        JsonTokenView::ObjectClose(_) => {
            assert forall|j: int| 0 <= j < fr2.len() implies fr2[j] == fr[j] by {}
            assert forall|j: int| 0 <= j < fr2.len() implies m2.array_cursors[j] == m.array_cursors[j] by {}
        },
        JsonTokenView::ArrayClose(_) => {
            assert forall|j: int| 0 <= j < fr2.len() implies fr2[j] == fr[j] by {}
            assert forall|j: int| 0 <= j < fr2.len() implies m2.array_cursors[j] == m.array_cursors[j] by {}
        },
        JsonTokenView::PropertyName { .. } => {
            assert forall|j: int| 0 <= j < fr.len() - 1 implies fr2[j] == fr[j] by {}
        },
        JsonTokenView::ArrayItemDelimiter(_) => {
            assert forall|j: int| 0 <= j < fr.len() - 1 implies fr2[j] == fr[j] by {}
            assert forall|j: int| 0 <= j < fr.len() - 1 implies m2.array_cursors[j] == m.array_cursors[j] by {}
        },
        _ => {},
    }
}

proof fn lemma_parse_follows_cursor(q: QueryView, t: JsonTokenView)
    requires
        spec_parse(q, t) is Some,
    ensures
        cursor_step(q.cursor, t) is Some,
        spec_parse(q, t)->Some_0.0.cursor == cursor_step(q.cursor, t)->Some_0,
{
}

proof fn lemma_run_push(q: QueryView, ts: Seq<JsonTokenView>, t: JsonTokenView)
    requires
        run_query(q, ts) is Some,
        spec_parse(run_query(q, ts)->Some_0, t) is Some,
    ensures
        run_query(q, ts.push(t)) == Some(spec_parse(run_query(q, ts)->Some_0, t)->Some_0.0),
        frames_of(ts.push(t)) == frames_step(frames_of(ts), t),
{
    assert(ts.push(t).drop_last() =~= ts);
}

proof fn lemma_run_tracks(ops: Seq<JsonPathOperatorView>, ts: Seq<JsonTokenView>)
    requires
        plain_path(ops),
        well_placed(ts),
        run_query(initial_query(ops), ts) is Some,
    ensures
        run_query(initial_query(ops), ts)->Some_0.cursor.ops == ops,
        tracks(run_query(initial_query(ops), ts)->Some_0.cursor, frames_of(ts)),
    decreases ts.len(),
{
    if ts.len() > 0 {
        let pre = ts.drop_last();
        lemma_run_tracks(ops, pre);
        let q1 = run_query(initial_query(ops), pre)->Some_0;
        lemma_parse_follows_cursor(q1, ts.last());
        lemma_step_tracks(q1.cursor, frames_of(pre), ts.last());
    }
}

/// A selection only ends at or inside the addressed value: after any token,
/// a query whose cursor is not at the path's end has no ended selection.
pub proof fn law_selection_ends_only_at_path_end(q: QueryView, t: JsonTokenView)
    requires
        spec_parse(q, t) is Some,
        !spec_parse(q, t)->Some_0.0.cursor.matched,
    ensures
        !spec_parse(q, t)->Some_0.0.ended,
{
}

/// What the query is for: after it follows tokens placed as in a JSON
/// document, from the start of the document along a path of members and
/// array indices, its cursor is at the path's end exactly when the document
/// is at the value the path addresses, or inside it.
pub proof fn law_query_finds_the_addressed_value(ops: Seq<JsonPathOperatorView>, ts: Seq<JsonTokenView>)
    requires
        plain_path(ops),
        well_placed(ts),
        run_query(initial_query(ops), ts) is Some,
    ensures
        run_query(initial_query(ops), ts)->Some_0.cursor.matched == addresses(frames_of(ts), ops),
{
    lemma_run_tracks(ops, ts);
    lemma_tracks_matched(run_query(initial_query(ops), ts)->Some_0.cursor, frames_of(ts));
}

/// Only the addressed value is selected: a token that the query selects
/// leaves the document at the value the path addresses, or inside it.
pub proof fn law_only_the_addressed_value_is_selected(
    ops: Seq<JsonPathOperatorView>,
    ts: Seq<JsonTokenView>,
    t: JsonTokenView,
)
    requires
        plain_path(ops),
        well_placed(ts.push(t)),
        run_query(initial_query(ops), ts) is Some,
        spec_parse(run_query(initial_query(ops), ts)->Some_0, t) is Some,
        spec_parse(run_query(initial_query(ops), ts)->Some_0, t)->Some_0.1,
    ensures
        addresses(frames_of(ts.push(t)), ops),
{
    let q = run_query(initial_query(ops), ts)->Some_0;
    lemma_run_push(initial_query(ops), ts, t);
    law_selected_only_at_path_end(q, t);
    law_query_finds_the_addressed_value(ops, ts.push(t));
}

/// A string, integer or float is selected exactly when the document is at
/// the value the path addresses (or inside it) and the selection there has
/// not ended; away from the addressed value no selection has ended.
pub proof fn law_value_selected_iff_addressed(ops: Seq<JsonPathOperatorView>, ts: Seq<JsonTokenView>, t: JsonTokenView)
    requires
        plain_path(ops),
        well_placed(ts),
        run_query(initial_query(ops), ts) is Some,
        is_value(t),
    ensures
        spec_parse(run_query(initial_query(ops), ts)->Some_0, t) is Some,
        spec_parse(run_query(initial_query(ops), ts)->Some_0, t)->Some_0.1 == (addresses(frames_of(ts), ops)
            && !run_query(initial_query(ops), ts)->Some_0.ended),
        !addresses(frames_of(ts), ops) ==> !run_query(initial_query(ops), ts)->Some_0.ended,
{
    law_query_finds_the_addressed_value(ops, ts);
    if ts.len() > 0 && !addresses(frames_of(ts), ops) {
        let pre = ts.drop_last();
        let q1 = run_query(initial_query(ops), pre)->Some_0;
        law_selection_ends_only_at_path_end(q1, ts.last());
    }
}

/// Inside the selected value everything is selected: while the cursor is at
/// the path's end, the selection has not ended and the selected value is
/// open (its depth is positive), every token the query follows is selected,
/// brackets, names and delimiters as much as strings and numbers.
pub proof fn law_tokens_inside_the_selected_value_are_selected(q: QueryView, t: JsonTokenView)
    requires
        spec_parse(q, t) is Some,
        spec_parse(q, t)->Some_0.0.cursor.matched,
        !q.ended,
        q.depth > 0,
    ensures
        spec_parse(q, t)->Some_0.1,
{
}

/// The same along a path of members and indices, over tokens placed as in
/// a JSON document: a token after which the document is still at the
/// addressed value is selected whenever the selected value is open and the
/// selection has not ended.
pub proof fn law_addressed_value_is_selected_whole(
    ops: Seq<JsonPathOperatorView>,
    ts: Seq<JsonTokenView>,
    t: JsonTokenView,
)
    requires
        plain_path(ops),
        well_placed(ts.push(t)),
        run_query(initial_query(ops), ts) is Some,
        spec_parse(run_query(initial_query(ops), ts)->Some_0, t) is Some,
        addresses(frames_of(ts.push(t)), ops),
        !run_query(initial_query(ops), ts)->Some_0.ended,
        run_query(initial_query(ops), ts)->Some_0.depth > 0,
    ensures
        spec_parse(run_query(initial_query(ops), ts)->Some_0, t)->Some_0.1,
{
    let q = run_query(initial_query(ops), ts)->Some_0;
    lemma_run_push(initial_query(ops), ts, t);
    law_query_finds_the_addressed_value(ops, ts.push(t));
    law_tokens_inside_the_selected_value_are_selected(q, t);
}

/// Whether the token is a string, an integer or a float.
spec fn scalar(t: JsonTokenView) -> bool {
    t is StringValue || t is IntegerValue || t is FloatValue
}

proof fn lemma_value_count_at_least_one(sel: Seq<JsonTokenView>, i: int)
    requires
        0 <= i < sel.len(),
        scalar(sel[i]),
    ensures
        value_count(sel) >= 1,
    decreases sel.len(),
{
    if i < sel.len() - 1 {
        lemma_value_count_at_least_one(sel.drop_last(), i);
    }
}

proof fn lemma_value_count_at_least_two(sel: Seq<JsonTokenView>, i: int, j: int)
    requires
        0 <= i < j < sel.len(),
        scalar(sel[i]),
        scalar(sel[j]),
    ensures
        value_count(sel) >= 2,
    decreases sel.len(),
{
    if j < sel.len() - 1 {
        lemma_value_count_at_least_two(sel.drop_last(), i, j);
    } else {
        lemma_value_count_at_least_one(sel.drop_last(), i);
    }
}

proof fn lemma_no_values(sel: Seq<JsonTokenView>)
    requires
        forall|i: int| 0 <= i < sel.len() ==> !scalar(#[trigger] sel[i]),
    ensures
        value_count(sel) == 0,
        value_pieces(sel) == Seq::<OutputPieceView>::empty(),
    decreases sel.len(),
{
    if sel.len() > 0 {
        lemma_no_values(sel.drop_last());
        assert(!scalar(sel[sel.len() - 1]));
    }
}

proof fn lemma_one_value(sel: Seq<JsonTokenView>, i: int)
    requires
        0 <= i < sel.len(),
        forall|j: int| 0 <= j < sel.len() && j != i ==> !scalar(#[trigger] sel[j]),
    ensures
        value_count(sel) == if scalar(sel[i]) { 1nat } else { 0nat },
        value_pieces(sel) == value_piece(sel[i]),
    decreases sel.len(),
{
    if i < sel.len() - 1 {
        lemma_one_value(sel.drop_last(), i);
        assert(!scalar(sel[sel.len() - 1]));
    } else {
        let pre = sel.drop_last();
        assert forall|j: int| 0 <= j < pre.len() implies !scalar(#[trigger] pre[j]) by {
            assert(pre[j] == sel[j]);
        }
        lemma_no_values(pre);
    }
}

/// What a selection prints, case by case. Where two or more of the selected
/// tokens are strings, integers or floats, every selected token is printed
/// as its text, in order. Where none is, nothing is printed. Where exactly
/// one is, only its value is printed: a string without its quotes, an
/// integer as its value, a float as its text.
pub proof fn law_selection_output_cases(sel: Seq<JsonTokenView>)
    ensures
        (exists|i: int, j: int| 0 <= i < j < sel.len() && ((#[trigger] sel[i]) is StringValue || sel[i] is IntegerValue || sel[i] is FloatValue) && ((#[trigger] sel[j]) is StringValue || sel[j] is IntegerValue || sel[j] is FloatValue))
            ==> {
            &&& spec_selection_output(sel).len() == sel.len()
            &&& forall|k: int| 0 <= k < sel.len() ==> spec_selection_output(sel)[k] == OutputPieceView::Text(token_raw(#[trigger] sel[k]))
        },
        (forall|k: int| 0 <= k < sel.len() ==> !((#[trigger] sel[k]) is StringValue || sel[k] is IntegerValue || sel[k] is FloatValue)) ==> spec_selection_output(sel).len() == 0,
        forall|i: int|
            0 <= i < sel.len() && ((#[trigger] sel[i]) is StringValue || sel[i] is IntegerValue || sel[i] is FloatValue) && (forall|j: int| 0 <= j < sel.len() && j != i ==> !((#[trigger] sel[j]) is StringValue || sel[j] is IntegerValue || sel[j] is FloatValue))
            ==> spec_selection_output(sel) == match sel[i] {
                JsonTokenView::StringValue { value, .. } => seq![OutputPieceView::Text(value)],
                JsonTokenView::IntegerValue { value, .. } => seq![OutputPieceView::Integer(value)],
                JsonTokenView::FloatValue { raw } => seq![OutputPieceView::FloatRaw(raw)],
                _ => Seq::empty(),
            },
{
    if exists|i: int, j: int| 0 <= i < j < sel.len() && scalar(#[trigger] sel[i]) && scalar(#[trigger] sel[j]) {
        let (i, j) = choose|i: int, j: int| 0 <= i < j < sel.len() && scalar(#[trigger] sel[i]) && scalar(#[trigger] sel[j]);
        lemma_value_count_at_least_two(sel, i, j);
    }
    if forall|k: int| 0 <= k < sel.len() ==> !scalar(#[trigger] sel[k]) {
        lemma_no_values(sel);
    }
    assert forall|i: int|
        0 <= i < sel.len() && scalar(#[trigger] sel[i]) && (forall|j: int| 0 <= j < sel.len() && j != i ==> !scalar(#[trigger] sel[j]))
        implies spec_selection_output(sel) == match sel[i] {
            JsonTokenView::StringValue { value, .. } => seq![OutputPieceView::Text(value)],
            JsonTokenView::IntegerValue { value, .. } => seq![OutputPieceView::Integer(value)],
            JsonTokenView::FloatValue { raw } => seq![OutputPieceView::FloatRaw(raw)],
            _ => Seq::empty(),
        } by {
        lemma_one_value(sel, i);
    }
}

} // verus!
