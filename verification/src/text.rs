//! Character-level helpers shared by the lexers.
use vstd::prelude::*;

verus! {

/// Appends one character to a `String`.
///
/// Trusted: calls `String::push`, which std documents as appending the
/// given `char` to the end of the string; the contract claims exactly that
/// of the string's sequence of characters.
#[verifier::external_body]
pub(crate) fn string_push(s: &mut String, c: char)
    ensures
        final(s)@ == old(s)@.push(c),
{
    s.push(c);
}

/// A string that holds exactly the character `c`.
pub fn string_of(c: char) -> (s: String)
    ensures
        s@ == seq![c],
{
    let mut s = String::new();
    string_push(&mut s, c);
    s
}

/// Whether `c` is one of the ASCII decimal digits.
pub open spec fn is_digit(c: char) -> bool {
    '0' <= c && c <= '9'
}

/// The numeric value of an ASCII decimal digit.
pub open spec fn digit_value(c: char) -> int {
    (c as int) - ('0' as int)
}

/// Whether every character of `s` is a decimal digit.
pub open spec fn all_digits(s: Seq<char>) -> bool {
    forall|i: int| 0 <= i < s.len() ==> #[trigger] is_digit(s[i])
}

/// The value of a sequence of decimal digits, read most significant first.
pub open spec fn decimal_value(s: Seq<char>) -> nat
    decreases s.len(),
{
    if s.len() == 0 {
        0
    } else {
        (decimal_value(s.drop_last()) * 10 + digit_value(s.last())) as nat
    }
}

/// What reading `s` as a decimal `isize` gives: the value when `s` is a
/// non-empty run of digits whose value fits, and nothing otherwise.
pub open spec fn decimal_isize(s: Seq<char>) -> Option<isize> {
    if s.len() > 0 && all_digits(s) && decimal_value(s) <= isize::MAX {
        Some(decimal_value(s) as isize)
    } else {
        None
    }
}

proof fn lemma_decimal_value_monotone(s: Seq<char>, k: int)
    requires
        0 <= k <= s.len(),
        all_digits(s),
    ensures
        decimal_value(s.take(k)) <= decimal_value(s),
    decreases s.len() - k,
{
    if k < s.len() {
        lemma_decimal_value_monotone(s, k + 1);
        assert(s.take(k + 1).drop_last() =~= s.take(k));
        assert(s.take(k + 1).last() == s[k]);
        assert(is_digit(s[k]));
    } else {
        assert(s.take(k) =~= s);
    }
}

/// Reads `s` as a decimal `isize` (see `decimal_isize`).
pub fn parse_decimal(s: &str) -> (r: Option<isize>)
    ensures
        r == decimal_isize(s@),
{
    let n = s.unicode_len();
    if n == 0 {
        return None;
    }
    let mut v: isize = 0;
    let mut i: usize = 0;
    while i < n
        invariant
            n == s@.len(),
            0 <= i <= n,
            all_digits(s@.take(i as int)),
            v as int == decimal_value(s@.take(i as int)),
            0 <= v,
        decreases n - i,
    {
        let c = s.get_char(i);
        if !('0' <= c && c <= '9') {
            proof {
                assert(!is_digit(s@[i as int]));
            }
            return None;
        }
        let d = (c as u32 - '0' as u32) as isize;
        assert(s@.take(i + 1).drop_last() =~= s@.take(i as int));
        assert(s@.take(i + 1).last() == c);
        if v > (isize::MAX - d) / 10 {
            proof {
                assert(v * 10 + d > isize::MAX) by (nonlinear_arith)
                    requires
                        v > (isize::MAX - d) / 10,
                        0 <= d <= 9,
                ;
                assert forall|j: int| 0 <= j < i + 1 implies #[trigger] is_digit(s@.take(i + 1)[j]) by {
                    if j < i {
                        assert(s@.take(i + 1)[j] == s@.take(i as int)[j]);
                    }
                }
                if all_digits(s@) {
                    lemma_decimal_value_monotone(s@, i + 1);
                }
            }
            return None;
        }
        assert(v * 10 + d <= isize::MAX) by (nonlinear_arith)
            requires
                v <= (isize::MAX - d) / 10,
                0 <= d <= 9,
                0 <= v,
        ;
        v = v * 10 + d;
        i = i + 1;
        assert forall|j: int| 0 <= j < i implies #[trigger] is_digit(s@.take(i as int)[j]) by {
            if j < i - 1 {
                assert(s@.take(i as int)[j] == s@.take(i - 1)[j]);
            }
        }
    }
    assert(s@.take(n as int) =~= s@);
    Some(v)
}

/// Whether `c` occurs in `s`.
pub fn contains_char(s: &str, c: char) -> (r: bool)
    ensures
        r == s@.contains(c),
{
    let n = s.unicode_len();
    let mut i: usize = 0;
    while i < n
        invariant
            n == s@.len(),
            0 <= i <= n,
            forall|j: int| 0 <= j < i ==> s@[j] != c,
        decreases n - i,
    {
        if s.get_char(i) == c {
            return true;
        }
        i = i + 1;
    }
    false
}

} // verus!
