//! Extraction primitives: pure operations that split an input string into a
//! consumed prefix and the unconsumed remainder.
//!
//! The split point of a predicate-driven extraction is described by
//! [`run_len`]: the length of the longest prefix whose characters all satisfy
//! the predicate. [`extract_digits`] and [`extract_whitespace`] are
//! specializations of [`take_while`] for ASCII digits and the space character;
//! [`extract_operator`] takes exactly one character, whatever it is.

use vstd::prelude::*;

verus! {

/// An ASCII decimal digit, `'0'` through `'9'`.
pub open spec fn is_digit(c: char) -> bool {
    '0' <= c && c <= '9'
}

/// The one whitespace character recognized: a literal ASCII space.
/// Tabs and newlines are not whitespace here.
pub open spec fn is_space(c: char) -> bool {
    c == ' '
}

/// Length of the longest prefix of `s` whose characters all satisfy `p`:
/// the index of the first character failing `p`, or `s.len()` if none does.
pub open spec fn run_len(p: spec_fn(char) -> bool, s: Seq<char>) -> nat
    decreases s.len(),
{
    if s.len() == 0 || !p(s[0]) {
        0
    } else {
        1 + run_len(p, s.drop_first())
    }
}

/// The split point of a digit extraction on `s`.
pub open spec fn digit_run(s: Seq<char>) -> nat {
    run_len(|c: char| is_digit(c), s)
}

/// The split point of a whitespace extraction on `s`.
pub open spec fn space_run(s: Seq<char>) -> nat {
    run_len(|c: char| is_space(c), s)
}

/// `run_len` points at a genuine split: it is within bounds, every character
/// before it satisfies `p`, and the character at it (if any) does not.
pub proof fn lemma_run_len_spec(p: spec_fn(char) -> bool, s: Seq<char>)
    ensures
        run_len(p, s) <= s.len(),
        forall|j: int| 0 <= j < run_len(p, s) ==> p(#[trigger] s[j]),
        run_len(p, s) < s.len() ==> !p(s[run_len(p, s) as int]),
    decreases s.len(),
{
    if s.len() != 0 && p(s[0]) {
        lemma_run_len_spec(p, s.drop_first());
        assert(forall|j: int| 1 <= j < s.len() ==> #[trigger] s[j] == s.drop_first()[j - 1]);
    }
}

/// The split point is determined by the pointwise behaviour of `p`: any index
/// `i` with all characters before it satisfying `p` and the character at it
/// (if any) failing `p` is `run_len(p, s)`.
pub proof fn lemma_run_len_from_pointwise(p: spec_fn(char) -> bool, s: Seq<char>, i: int)
    requires
        0 <= i <= s.len(),
        forall|j: int| 0 <= j < i ==> p(#[trigger] s[j]),
        i < s.len() ==> !p(s[i]),
    ensures
        run_len(p, s) == i,
    decreases s.len(),
{
    if s.len() != 0 && p(s[0]) {
        lemma_run_len_from_pointwise(p, s.drop_first(), i - 1);
    }
}

/// Splits `s` at the first character that does not satisfy `accept`, or at
/// the end if every character does. Returns `(remainder, matched)`: the
/// suffix from the split point, and the matched prefix before it. Never
/// fails; an empty match is an ordinary outcome.
///
/// The ghost predicate `p` names what `accept` computes, so that the split
/// point can be stated as `run_len(p, s@)`.
fn take_while<F: Fn(char) -> bool>(
    accept: F,
    s: &str,
    Ghost(p): Ghost<spec_fn(char) -> bool>,
) -> (r: (&str, &str))
    requires
        forall|c: char| #[trigger] call_requires(accept, (c,)),
        forall|c: char, b: bool| #[trigger] call_ensures(accept, (c,), b) ==> b == p(c),
    ensures
        r.0@ == s@.skip(run_len(p, s@) as int),
        r.1@ == s@.take(run_len(p, s@) as int),
{
    let len = s.unicode_len();
    let mut i: usize = 0;
    while i < len
        invariant
            forall|c: char| #[trigger] call_requires(accept, (c,)),
            forall|c: char, b: bool| #[trigger] call_ensures(accept, (c,), b) ==> b == p(c),
            len == s@.len(),
            0 <= i <= len,
            forall|j: int| 0 <= j < i ==> p(#[trigger] s@[j]),
        ensures
            0 <= i <= len,
            forall|j: int| 0 <= j < i ==> p(#[trigger] s@[j]),
            i < len ==> !p(s@[i as int]),
        decreases len - i,
    {
        if !accept(s.get_char(i)) {
            break;
        }
        i = i + 1;
    }
    proof {
        lemma_run_len_from_pointwise(p, s@, i as int);
    }
    let matched = s.substring_char(0, i);
    let rest = s.substring_char(i, len);
    proof {
        assert(rest@ =~= s@.skip(i as int));
        assert(matched@ =~= s@.take(i as int));
    }
    (rest, matched)
}

/// Law: digit extraction is idempotent on its remainder. The remainder of a
/// digit extraction never starts with a digit, so extracting digits from it
/// again matches nothing: it yields the very same remainder and an empty
/// match, as extraction is a pure function of its input.
pub proof fn lemma_extract_digits_idempotent(s: Seq<char>)
    ensures
        digit_run(s.skip(digit_run(s) as int)) == 0,
        s.skip(digit_run(s) as int).skip(0) == s.skip(digit_run(s) as int),
        s.skip(digit_run(s) as int).take(0) == Seq::<char>::empty(),
{
    let d = digit_run(s) as int;
    lemma_run_len_spec(|c: char| is_digit(c), s);
    let rest = s.skip(d);
    if rest.len() > 0 {
        assert(rest[0] == s[d]);
        assert(!is_digit(rest[0]));
    }
    assert(rest.skip(0) =~= rest);
    assert(rest.take(0) =~= Seq::<char>::empty());
}

/// Runtime check for [`is_digit`].
fn digit_char(c: char) -> (b: bool)
    ensures
        b == is_digit(c),
{
    '0' <= c && c <= '9'
}

/// Runtime check for [`is_space`].
fn space_char(c: char) -> (b: bool)
    ensures
        b == is_space(c),
{
    c == ' '
}

/// Splits `s` before the first non-digit character: returns the remainder
/// from that point and the (possibly empty) run of ASCII digits before it.
/// Never fails.
pub fn extract_digits(s: &str) -> (r: (&str, &str))
    ensures
        r.0@ == s@.skip(digit_run(s@) as int),
        r.1@ == s@.take(digit_run(s@) as int),
{
    take_while(digit_char, s, Ghost(|c: char| is_digit(c)))
}

/// Splits `s` before the first character that is not a literal space: returns
/// the remainder from that point and the (possibly empty) run of spaces
/// before it. Never fails.
pub fn extract_whitespace(s: &str) -> (r: (&str, &str))
    ensures
        r.0@ == s@.skip(space_run(s@) as int),
        r.1@ == s@.take(space_run(s@) as int),
{
    take_while(space_char, s, Ghost(|c: char| is_space(c)))
}

/// Takes the first character of `s` as the operator token, with no check
/// that it is a recognized operator symbol, and returns `(remainder, token)`.
/// Returns `None` exactly when `s` is empty, there being no character to take.
pub fn extract_operator(s: &str) -> (r: Option<(&str, char)>)
    ensures
        s@.len() == 0 ==> r is None,
        s@.len() > 0 ==> (r matches Some(t) && t.0@ == s@.skip(1) && t.1 == s@[0]),
{
    let len = s.unicode_len();
    if len == 0 {
        return None;
    }
    let c = s.get_char(0);
    let rest = s.substring_char(1, len);
    proof {
        assert(rest@ =~= s@.skip(1));
    }
    Some((rest, c))
}

} // verus!
