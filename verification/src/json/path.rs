//! JSON paths: the sequence of steps that a query follows from the root
//! of a document.
use vstd::prelude::*;
use crate::text::{decimal_isize, parse_decimal, is_digit, all_digits};

verus! {

/// One step of a JSON path.
pub enum JsonPathOperator {
    /// `$`: the root object of the document.
    ObjectRoot,
    /// The item at this index of a root array.
    ArrayRoot(isize),
    /// `.name`: the member with this name.
    MemberAccess(String),
    /// `..name`: members with this name at any depth.
    DeepScanMemberAccess(String),
    /// `[n]`: the item at this index of an array.
    ArrayIndex(isize),
    /// `[a:b]`: the items from `a` up to `b` of an array.
    ArraySlice(isize, isize),
    /// `[?(...)]`: the items for which an expression holds.
    FilterExpression(String),
}

/// The mathematical value of a `JsonPathOperator`.
pub enum JsonPathOperatorView {
    ObjectRoot,
    ArrayRoot(isize),
    MemberAccess(Seq<char>),
    DeepScanMemberAccess(Seq<char>),
    ArrayIndex(isize),
    ArraySlice(isize, isize),
    FilterExpression(Seq<char>),
}

impl View for JsonPathOperator {
    type V = JsonPathOperatorView;

    open spec fn view(&self) -> JsonPathOperatorView {
        match self {
            JsonPathOperator::ObjectRoot => JsonPathOperatorView::ObjectRoot,
            JsonPathOperator::ArrayRoot(i) => JsonPathOperatorView::ArrayRoot(*i),
            JsonPathOperator::MemberAccess(n) => JsonPathOperatorView::MemberAccess(n@),
            JsonPathOperator::DeepScanMemberAccess(n) => JsonPathOperatorView::DeepScanMemberAccess(n@),
            JsonPathOperator::ArrayIndex(i) => JsonPathOperatorView::ArrayIndex(*i),
            JsonPathOperator::ArraySlice(a, b) => JsonPathOperatorView::ArraySlice(*a, *b),
            JsonPathOperator::FilterExpression(e) => JsonPathOperatorView::FilterExpression(e@),
        }
    }
}

/// A JSON path: its steps in order.
pub struct JsonPath {
    operations: Vec<JsonPathOperator>,
}

/// The values of a sequence of path steps.
pub open spec fn operators_view(ops: Seq<JsonPathOperator>) -> Seq<JsonPathOperatorView> {
    ops.map_values(|o: JsonPathOperator| o@)
}

impl View for JsonPath {
    type V = Seq<JsonPathOperatorView>;

    closed spec fn view(&self) -> Seq<JsonPathOperatorView> {
        operators_view(self.operations@)
    }
}

impl JsonPath {
    /// The path made of these steps.
    pub fn new(operations: Vec<JsonPathOperator>) -> (p: JsonPath)
        ensures
            p@ == operators_view(operations@),
    {
        JsonPath { operations }
    }

    /// The steps of the path.
    pub fn operations(&self) -> (ops: &Vec<JsonPathOperator>)
        ensures
            operators_view(ops@) == self@,
    {
        &self.operations
    }
}


// ---------------------------------------------------------------------------
// Reading a path from its text: `$` followed by steps, each `.name` (a
// member), `[n]` or `.[n]` (an array index), as in `$.batters.batter[1].type`
// and `$.[0].id`.
// ---------------------------------------------------------------------------

/// The first position from `k` on that ends a member name: a `.`, a `[`,
/// or the end of the text.
pub open spec fn name_end(s: Seq<char>, k: int) -> int
    decreases s.len() - k,
{
    if k < 0 || k >= s.len() || s[k] == '.' || s[k] == '[' {
        k
    } else {
        name_end(s, k + 1)
    }
}

/// The first position from `k` on that is not a decimal digit.
pub open spec fn digits_end(s: Seq<char>, k: int) -> int
    decreases s.len() - k,
{
    if k < 0 || k >= s.len() || !is_digit(s[k]) {
        k
    } else {
        digits_end(s, k + 1)
    }
}

/// A member name ends at or after where it starts, and within the text.
pub proof fn lemma_name_end(s: Seq<char>, k: int)
    requires
        0 <= k,
    ensures
        k <= name_end(s, k),
        name_end(s, k) <= s.len() || name_end(s, k) == k,
    decreases s.len() - k,
{
    if k < s.len() && s[k] != '.' && s[k] != '[' {
        lemma_name_end(s, k + 1);
    }
}

/// A run of digits ends at or after where it starts, and within the text.
pub proof fn lemma_digits_end(s: Seq<char>, k: int)
    requires
        0 <= k,
    ensures
        k <= digits_end(s, k),
        digits_end(s, k) <= s.len() || digits_end(s, k) == k,
    decreases s.len() - k,
{
    if k < s.len() && is_digit(s[k]) {
        lemma_digits_end(s, k + 1);
    }
}

/// The array index written from position `k` on as digits and a closing
/// `]`, and the position after the `]`.
pub open spec fn index_step(s: Seq<char>, k: int) -> Option<(JsonPathOperatorView, int)> {
    let j = digits_end(s, k);
    if 0 <= j < s.len() && s[j] == ']' && decimal_isize(s.subrange(k, j)) is Some {
        Some((JsonPathOperatorView::ArrayIndex(decimal_isize(s.subrange(k, j))->Some_0), j + 1))
    } else {
        None
    }
}

/// The step written at position `i`, and the position after it.
pub open spec fn next_step(s: Seq<char>, i: int) -> Option<(JsonPathOperatorView, int)> {
    if 0 <= i && i + 1 < s.len() && s[i] == '.' && s[i + 1] == '[' {
        index_step(s, i + 2)
    } else if 0 <= i < s.len() && s[i] == '[' {
        index_step(s, i + 1)
    } else if 0 <= i < s.len() && s[i] == '.' {
        let j = name_end(s, i + 1);
        if j == i + 1 {
            None
        } else {
            Some((JsonPathOperatorView::MemberAccess(s.subrange(i + 1, j)), j))
        }
    } else {
        None
    }
}

/// Each step read moves past at least one character, and stays within the text.
pub proof fn lemma_next_step_advances(s: Seq<char>, i: int)
    requires
        next_step(s, i) is Some,
    ensures
        i < next_step(s, i)->Some_0.1 <= s.len(),
{
    if 0 <= i && i + 1 < s.len() && s[i] == '.' && s[i + 1] == '[' {
        lemma_digits_end(s, i + 2);
    } else if 0 <= i < s.len() && s[i] == '[' {
        lemma_digits_end(s, i + 1);
    } else {
        lemma_name_end(s, i + 1);
    }
}

/// The steps written from position `i` to the end of the text.
pub open spec fn steps_from(s: Seq<char>, i: int) -> Option<Seq<JsonPathOperatorView>>
    decreases s.len() - i,
{
    if i < 0 || i >= s.len() {
        Some(Seq::empty())
    } else {
        match next_step(s, i) {
            Some((op, j)) => {
                proof {
                    lemma_next_step_advances(s, i);
                }
                match steps_from(s, j) {
                    Some(rest) => Some(seq![op] + rest),
                    None => None,
                }
            },
            None => None,
        }
    }
}

/// The path written as `s`: `$` (the root object) followed by its steps.
pub open spec fn path_of(s: Seq<char>) -> Option<Seq<JsonPathOperatorView>> {
    if s.len() > 0 && s[0] == '$' {
        match steps_from(s, 1) {
            Some(rest) => Some(seq![JsonPathOperatorView::ObjectRoot] + rest),
            None => None,
        }
    } else {
        None
    }
}

fn find_name_end(s: &str, n: usize, k: usize) -> (j: usize)
    requires
        n == s@.len(),
        k <= n,
    ensures
        j as int == name_end(s@, k as int),
        k <= j <= n,
{
    let mut j = k;
    while j < n
        invariant
            n == s@.len(),
            k <= j <= n,
            name_end(s@, k as int) == name_end(s@, j as int),
        decreases n - j,
    {
        let c = s.get_char(j);
        if c == '.' || c == '[' {
            return j;
        }
        j = j + 1;
    }
    j
}

fn find_digits_end(s: &str, n: usize, k: usize) -> (j: usize)
    requires
        n == s@.len(),
        k <= n,
    ensures
        j as int == digits_end(s@, k as int),
        k <= j <= n,
{
    let mut j = k;
    while j < n
        invariant
            n == s@.len(),
            k <= j <= n,
            digits_end(s@, k as int) == digits_end(s@, j as int),
        decreases n - j,
    {
        let c = s.get_char(j);
        if !('0' <= c && c <= '9') {
            return j;
        }
        j = j + 1;
    }
    j
}

fn read_index_step(s: &str, n: usize, k: usize) -> (r: Option<(JsonPathOperator, usize)>)
    requires
        n == s@.len(),
        k <= n,
    ensures
        r matches Some((op, j)) ==> index_step(s@, k as int) == Some((op@, j as int)),
        r is None ==> index_step(s@, k as int) is None,
{
    let j = find_digits_end(s, n, k);
    if j < n && s.get_char(j) == ']' {
        let digits = s.substring_char(k, j);
        match parse_decimal(digits) {
            Some(v) => Some((JsonPathOperator::ArrayIndex(v), j + 1)),
            None => None,
        }
    } else {
        None
    }
}

fn read_next_step(s: &str, n: usize, i: usize) -> (r: Option<(JsonPathOperator, usize)>)
    requires
        n == s@.len(),
        i < n,
    ensures
        r matches Some((op, j)) ==> next_step(s@, i as int) == Some((op@, j as int)),
        r is None ==> next_step(s@, i as int) is None,
{
    let c = s.get_char(i);
    if c == '.' && i + 1 < n && s.get_char(i + 1) == '[' {
        read_index_step(s, n, i + 2)
    } else if c == '[' {
        read_index_step(s, n, i + 1)
    } else if c == '.' {
        let j = find_name_end(s, n, i + 1);
        if j == i + 1 {
            None
        } else {
            let name = s.substring_char(i + 1, j).to_owned();
            Some((JsonPathOperator::MemberAccess(name), j))
        }
    } else {
        None
    }
}

impl JsonPath {
    /// Reads a path from its text (see `path_of`); `None` where the text is
    /// not a path.
    pub fn parse(s: &str) -> (r: Option<JsonPath>)
        ensures
            match r {
                Some(p) => path_of(s@) == Some(p@),
                None => path_of(s@) is None,
            },
    {
        let n = s.unicode_len();
        if n == 0 || s.get_char(0) != '$' {
            return None;
        }
        let mut ops: Vec<JsonPathOperator> = Vec::new();
        ops.push(JsonPathOperator::ObjectRoot);
        let mut i: usize = 1;
        proof {
            assert(operators_view(ops@) =~= seq![JsonPathOperatorView::ObjectRoot]);
        }
        while i < n
            invariant
                n == s@.len(),
                1 <= i <= n,
                path_of(s@) == (match steps_from(s@, i as int) {
                    Some(rest) => Some(operators_view(ops@) + rest),
                    None => None,
                }),
            decreases n - i,
        {
            match read_next_step(s, n, i) {
                Some((op, j)) => {
                    proof {
                        lemma_next_step_advances(s@, i as int);
                    }
                    let ghost before = operators_view(ops@);
                    let ghost opv = op@;
                    ops.push(op);
                    proof {
                        assert(operators_view(ops@) =~= before.push(opv));
                        match steps_from(s@, j as int) {
                            Some(rest) => assert(before + (seq![opv] + rest) =~= before.push(opv) + rest),
                            None => {},
                        }
                    }
                    i = j;
                },
                None => return None,
            }
        }
        proof {
            assert(operators_view(ops@) + Seq::<JsonPathOperatorView>::empty() =~= operators_view(ops@));
        }
        Some(JsonPath { operations: ops })
    }
}

proof fn lemma_digits_run(s: Seq<char>, k: int, m: int)
    requires
        0 <= k <= m <= s.len(),
        forall|i: int| k <= i < m ==> is_digit(#[trigger] s[i]),
        m < s.len() ==> !is_digit(s[m]),
    ensures
        digits_end(s, k) == m,
    decreases m - k,
{
    if k < m {
        lemma_digits_run(s, k + 1, m);
    }
}

proof fn lemma_name_end_extended(p: Seq<char>, x: Seq<char>, k: int)
    requires
        0 <= k <= p.len(),
        x.len() > 0,
        x[0] == '[',
    ensures
        name_end(p + x, k) == name_end(p, k),
    decreases p.len() - k,
{
    if k < p.len() {
        assert((p + x)[k] == p[k]);
        if p[k] != '.' && p[k] != '[' {
            lemma_name_end_extended(p, x, k + 1);
        }
    } else {
        assert((p + x)[k] == x[0]);
    }
}

proof fn lemma_digits_end_extended(p: Seq<char>, x: Seq<char>, k: int)
    requires
        0 <= k <= p.len(),
        x.len() > 0,
        x[0] == '[',
    ensures
        digits_end(p + x, k) == digits_end(p, k),
    decreases p.len() - k,
{
    if k < p.len() {
        assert((p + x)[k] == p[k]);
        if is_digit(p[k]) {
            lemma_digits_end_extended(p, x, k + 1);
        }
    } else {
        assert((p + x)[k] == x[0]);
    }
}

#[verifier::rlimit(30)]
proof fn lemma_steps_extended(p: Seq<char>, x: Seq<char>, i: int)
    requires
        1 <= i <= p.len(),
        x.len() > 0,
        x[0] == '[',
        steps_from(p, i) is Some,
        steps_from(p + x, p.len() as int) is Some,
    ensures
        steps_from(p + x, i) == Some(steps_from(p, i)->Some_0 + steps_from(p + x, p.len() as int)->Some_0),
    decreases p.len() - i,
{
    let s = p + x;
    let tail = steps_from(s, p.len() as int)->Some_0;
    if i == p.len() {
        assert(steps_from(p, i)->Some_0 + tail =~= tail);
    } else {
        assert(s[i] == p[i]);
        lemma_next_step_advances(p, i);
        let (op, j) = next_step(p, i)->Some_0;
        if i + 1 < p.len() {
            assert(s[i + 1] == p[i + 1]);
        }
        if i + 1 < p.len() && p[i] == '.' && p[i + 1] == '[' {
            lemma_digits_end_extended(p, x, i + 2);
            lemma_digits_end(p, i + 2);
            let e = digits_end(p, i + 2);
            assert(s[e] == p[e]);
            assert(s.subrange(i + 2, e) =~= p.subrange(i + 2, e));
        } else if p[i] == '[' {
            lemma_digits_end_extended(p, x, i + 1);
            lemma_digits_end(p, i + 1);
            let e = digits_end(p, i + 1);
            assert(s[e] == p[e]);
            assert(s.subrange(i + 1, e) =~= p.subrange(i + 1, e));
        } else {
            lemma_name_end_extended(p, x, i + 1);
            lemma_name_end(p, i + 1);
            assert(s.subrange(i + 1, j) =~= p.subrange(i + 1, j));
        }
        assert(next_step(s, i) == next_step(p, i));
        lemma_steps_extended(p, x, j);
        let rest = steps_from(p, j)->Some_0;
        assert(seq![op] + (rest + tail) =~= (seq![op] + rest) + tail);
    }
}

/// An index step may be appended to any path: `p` followed by `[` and a
/// run of digits and `]` is the path `p` with one more step, the array
/// index whose value is all of the digits read as a decimal number.
pub proof fn law_index_step_appends(p: Seq<char>, d: Seq<char>)
    requires
        path_of(p) is Some,
        decimal_isize(d) is Some,
    ensures
        path_of(p + (seq!['['] + d + seq![']'])) == Some(
            path_of(p)->Some_0.push(JsonPathOperatorView::ArrayIndex(decimal_isize(d)->Some_0)),
        ),
{
    let x = seq!['['] + d + seq![']'];
    let s = p + x;
    let n = p.len() as int;
    let e = n + 1 + d.len();
    assert(s[n] == '[');
    assert forall|i: int| n + 1 <= i < e implies is_digit(#[trigger] s[i]) by {
        assert(s[i] == d[i - n - 1]);
    }
    assert(s[e] == ']');
    lemma_digits_run(s, n + 1, e);
    assert(s.subrange(n + 1, e) =~= d);
    assert(next_step(s, n) == Some((JsonPathOperatorView::ArrayIndex(decimal_isize(d)->Some_0), e + 1)));
    assert(steps_from(s, e + 1) == Some(Seq::<JsonPathOperatorView>::empty()));
    let op = JsonPathOperatorView::ArrayIndex(decimal_isize(d)->Some_0);
    assert(steps_from(s, n) == Some(seq![op] + Seq::<JsonPathOperatorView>::empty()));
    assert(seq![op] + Seq::<JsonPathOperatorView>::empty() =~= seq![op]);
    assert(x[0] == '[');
    assert(s[0] == p[0]);
    lemma_steps_extended(p, x, 1);
    let rest = steps_from(p, 1)->Some_0;
    assert(seq![JsonPathOperatorView::ObjectRoot] + (rest + seq![op]) =~= (seq![JsonPathOperatorView::ObjectRoot]
        + rest).push(op));
}
} // verus!
