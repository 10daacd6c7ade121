//! Structured parsers: [`Number`], [`Op`] and [`Expr`], built on the
//! extraction primitives of [`crate::scan`].
//!
//! Each parser consumes a prefix of its input and returns the unconsumed
//! remainder alongside the parsed value, or a [`ParseError`] saying exactly
//! why the input was rejected. The spec functions [`spec_number`],
//! [`spec_op`] and [`spec_expr`] state, over sequences of characters, the
//! one result each parser owes for every input.

use vstd::arithmetic::div_mod::lemma_fundamental_div_mod;
use vstd::prelude::*;

use crate::scan::{digit_run, extract_digits, extract_operator, extract_whitespace, is_digit,
    lemma_run_len_from_pointwise, lemma_run_len_spec, space_run};

verus! {

/// Why a parse was rejected.
#[derive(Clone, Copy, Debug, PartialEq, Eq, Structural)]
pub enum ParseError {
    /// An extraction that needs at least one character (the operator token)
    /// was given an empty input.
    EmptyInput,
    /// A digit run could not be converted to a number: it was empty, or its
    /// value exceeds the representable range.
    ParseFailure,
    /// The consumed operator character is none of `+`, `-`, `*`, `/`.
    UnrecognizedSymbol,
}

/// A parsed number: one or more ASCII digits converted to a signed integer.
#[derive(Clone, Copy, Debug, PartialEq, Eq, Structural)]
pub struct Number(pub i32);

/// A parsed operator.
#[derive(Clone, Copy, Debug, PartialEq, Eq, Structural)]
pub enum Op {
    Add,
    Sub,
    Mul,
    Div,
}

/// A parsed expression: left operand, operator, right operand.
#[derive(Clone, Copy, Debug, PartialEq, Eq, Structural)]
pub struct Expr {
    pub lhs: Number,
    pub rhs: Number,
    pub operator: Op,
}

/// Numeric value of one digit character.
pub open spec fn digit_val(c: char) -> int
    recommends
        is_digit(c),
{
    c as int - '0' as int
}

/// Numeric value of a digit string read as a decimal numeral.
/// The empty string reads as zero.
pub open spec fn digits_val(s: Seq<char>) -> int
    recommends
        forall|j: int| 0 <= j < s.len() ==> is_digit(#[trigger] s[j]),
    decreases s.len(),
{
    if s.len() == 0 {
        0
    } else {
        10 * digits_val(s.drop_last()) + digit_val(s.last())
    }
}

/// A digit string reads as a non-negative value.
pub proof fn lemma_digits_val_nonneg(s: Seq<char>)
    requires
        forall|j: int| 0 <= j < s.len() ==> is_digit(#[trigger] s[j]),
    ensures
        digits_val(s) >= 0,
    decreases s.len(),
{
    if s.len() > 0 {
        lemma_digits_val_nonneg(s.drop_last());
    }
}

/// Appending a digit multiplies the value by ten and adds the digit.
pub proof fn lemma_digits_val_push(s: Seq<char>, c: char)
    ensures
        digits_val(s.push(c)) == 10 * digits_val(s) + digit_val(c),
{
    assert(s.push(c).drop_last() =~= s);
    assert(s.push(c).last() == c);
}

/// The value of a prefix of a digit string never exceeds the value of the
/// whole string.
pub proof fn lemma_digits_val_prefix_le(s: Seq<char>, k: int)
    requires
        forall|j: int| 0 <= j < s.len() ==> is_digit(#[trigger] s[j]),
        0 <= k <= s.len(),
    ensures
        digits_val(s.take(k)) <= digits_val(s),
    decreases s.len(),
{
    if k == s.len() {
        assert(s.take(k) =~= s);
    } else {
        assert(s.drop_last().take(k) =~= s.take(k));
        lemma_digits_val_prefix_le(s.drop_last(), k);
        lemma_digits_val_nonneg(s.drop_last());
    }
}

/// The one result a number parse owes on input `s`: reject an empty digit
/// run and a value beyond `i32::MAX`; otherwise the digit run's value,
/// together with everything after the digit run, unmodified.
pub open spec fn spec_number(s: Seq<char>) -> Result<(Seq<char>, Number), ParseError> {
    let d = digit_run(s) as int;
    if d == 0 || digits_val(s.take(d)) > i32::MAX {
        Err(ParseError::ParseFailure)
    } else {
        Ok((s.skip(d), Number(digits_val(s.take(d)) as i32)))
    }
}

impl Number {
    /// Parses one or more leading ASCII digits of `s` as a signed integer,
    /// returning the remainder after the digit run (whitespace is not
    /// consumed here) alongside the number. Fails with `ParseFailure` exactly
    /// when `s` starts with no digit or the digit run's value overflows.
    pub fn new(s: &str) -> (r: Result<(&str, Number), ParseError>)
        ensures
            (match spec_number(s@) {
                Ok(t) => r matches Ok(e) && e.0@ == t.0 && e.1 == t.1,
                Err(pe) => r matches Err(e) && e == pe,
            }),
    {
        let (rest, digits) = extract_digits(s);
        proof {
            lemma_run_len_spec(|c: char| is_digit(c), s@);
        }
        let ghost ds = digits@;
        assert(forall|j: int| 0 <= j < ds.len() ==> is_digit(#[trigger] ds[j]));
        let len = digits.unicode_len();
        if len == 0 {
            return Err(ParseError::ParseFailure);
        }
        let mut acc: i32 = 0;
        let mut i: usize = 0;
        while i < len
            invariant
                len == ds.len(),
                ds == digits@,
                ds == s@.take(digit_run(s@) as int),
                forall|j: int| 0 <= j < ds.len() ==> is_digit(#[trigger] ds[j]),
                0 <= i <= len,
                0 <= acc,
                acc == digits_val(ds.take(i as int)),
            decreases len - i,
        {
            let c = digits.get_char(i);
            let d: u32 = (c as u32) - 48;
            proof {
                lemma_digits_val_push(ds.take(i as int), c);
                assert(ds.take(i as int).push(c) =~= ds.take(i + 1));
            }
            let step = match acc.checked_mul(10) {
                Some(m) => m.checked_add(d as i32),
                None => None,
            };
            match step {
                Some(v) => {
                    acc = v;
                },
                None => {
                    proof {
                        assert(is_digit(ds[i as int]));
                        assert(digit_val(c) == d as int);
                        assert(digits_val(ds.take(i + 1)) == 10 * acc + d as int);
                        assert(digits_val(ds.take(i + 1)) > i32::MAX);
                        lemma_digits_val_prefix_le(ds, i + 1);
                    }
                    return Err(ParseError::ParseFailure);
                },
            }
            i = i + 1;
        }
        proof {
            assert(ds.take(len as int) =~= ds);
        }
        Ok((rest, Number(acc)))
    }
}

/// The digit character of one decimal digit value.
pub open spec fn decimal_digit(d: int) -> char
    recommends
        0 <= d < 10,
{
    ((48 + d) as u8) as char
}

/// The decimal numeral of a non-negative integer: its digit characters, most
/// significant first, with no sign and no leading zero (except for zero
/// itself).
pub open spec fn decimal_repr(n: int) -> Seq<char>
    recommends
        n >= 0,
    decreases n,
{
    if n < 10 {
        seq![decimal_digit(n)]
    } else {
        decimal_repr(n / 10).push(decimal_digit(n % 10))
    }
}

/// A decimal numeral is non-empty, consists of digits alone, and reads back
/// as the integer it represents.
pub proof fn lemma_decimal_repr_digits(n: int)
    requires
        n >= 0,
    ensures
        decimal_repr(n).len() > 0,
        forall|j: int| 0 <= j < decimal_repr(n).len() ==> is_digit(#[trigger] decimal_repr(n)[j]),
        digits_val(decimal_repr(n)) == n,
    decreases n,
{
    if n < 10 {
        assert(decimal_repr(n).drop_last() =~= Seq::<char>::empty());
        assert(digits_val(Seq::<char>::empty()) == 0);
        assert(is_digit(decimal_digit(n)));
        assert(digit_val(decimal_digit(n)) == n);
    } else {
        lemma_decimal_repr_digits(n / 10);
        lemma_fundamental_div_mod(n, 10);
        lemma_digits_val_push(decimal_repr(n / 10), decimal_digit(n % 10));
        assert(is_digit(decimal_digit(n % 10)));
        assert(digit_val(decimal_digit(n % 10)) == n % 10);
    }
}

/// Law: for every non-negative integer representable in the target width,
/// digit extraction on its decimal numeral matches the numeral whole: the
/// remainder is empty, the match is the exact numeral, and a number parse on
/// the numeral returns precisely that integer with nothing left over.
pub proof fn lemma_decimal_numeral_extracts_whole(n: int)
    requires
        0 <= n <= i32::MAX,
    ensures
        digit_run(decimal_repr(n)) == decimal_repr(n).len(),
        decimal_repr(n).take(digit_run(decimal_repr(n)) as int) == decimal_repr(n),
        decimal_repr(n).skip(digit_run(decimal_repr(n)) as int) == Seq::<char>::empty(),
        spec_number(decimal_repr(n)) == Ok::<(Seq<char>, Number), ParseError>(
            (Seq::<char>::empty(), Number(n as i32)),
        ),
{
    let s = decimal_repr(n);
    lemma_decimal_repr_digits(n);
    lemma_run_len_from_pointwise(|c: char| is_digit(c), s, s.len() as int);
    assert(s.take(s.len() as int) =~= s);
    assert(s.skip(s.len() as int) =~= Seq::<char>::empty());
}

/// An operator character: one of `+`, `-`, `*`, `/`.
pub open spec fn is_op_char(c: char) -> bool {
    c == '+' || c == '-' || c == '*' || c == '/'
}

/// The operator an operator character stands for.
pub open spec fn op_of_char(c: char) -> Op
    recommends
        is_op_char(c),
{
    if c == '+' {
        Op::Add
    } else if c == '-' {
        Op::Sub
    } else if c == '*' {
        Op::Mul
    } else {
        Op::Div
    }
}

/// The one result an operator parse owes on input `s`: reject an empty input
/// and an unrecognized first character; otherwise the operator the first
/// character stands for, together with everything after it.
pub open spec fn spec_op(s: Seq<char>) -> Result<(Seq<char>, Op), ParseError> {
    if s.len() == 0 {
        Err(ParseError::EmptyInput)
    } else if !is_op_char(s[0]) {
        Err(ParseError::UnrecognizedSymbol)
    } else {
        Ok((s.skip(1), op_of_char(s[0])))
    }
}

impl Op {
    /// Consumes exactly one character of `s` and maps it to an operator,
    /// returning it alongside the remainder. Fails with `EmptyInput` exactly
    /// when `s` is empty, and with `UnrecognizedSymbol` exactly when the
    /// consumed character is none of `+`, `-`, `*`, `/`.
    pub fn new(s: &str) -> (r: Result<(&str, Op), ParseError>)
        ensures
            (match spec_op(s@) {
                Ok(t) => r matches Ok(e) && e.0@ == t.0 && e.1 == t.1,
                Err(pe) => r matches Err(e) && e == pe,
            }),
    {
        let (rest, token) = match extract_operator(s) {
            Some(t) => t,
            None => {
                return Err(ParseError::EmptyInput);
            },
        };
        let operator = match token {
            '+' => Op::Add,
            '-' => Op::Sub,
            '*' => Op::Mul,
            '/' => Op::Div,
            _ => {
                return Err(ParseError::UnrecognizedSymbol);
            },
        };
        Ok((rest, operator))
    }
}

/// The one result an expression parse owes on input `s`: a number, an
/// operator and a second number in that order, spaces allowed and discarded
/// after each of the three, anything further left as the remainder; the first
/// failing step's error otherwise.
pub open spec fn spec_expr(s: Seq<char>) -> Result<(Seq<char>, Expr), ParseError> {
    match spec_number(s) {
        Err(e) => Err(e),
        Ok((s1, lhs)) => {
            let s2 = s1.skip(space_run(s1) as int);
            match spec_op(s2) {
                Err(e) => Err(e),
                Ok((s3, operator)) => {
                    let s4 = s3.skip(space_run(s3) as int);
                    match spec_number(s4) {
                        Err(e) => Err(e),
                        Ok((s5, rhs)) => {
                            let s6 = s5.skip(space_run(s5) as int);
                            Ok((s6, Expr { lhs, rhs, operator }))
                        },
                    }
                },
            }
        },
    }
}

impl Expr {
    /// Parses `<number><operator><number>` from the front of `s`, each token
    /// optionally followed by spaces, which are discarded. Returns the
    /// expression alongside whatever of `s` remains after the trailing
    /// spaces; leftover characters are returned as-is, not treated as an
    /// error. Fails with the error of the first step that fails: the numbers
    /// and the operator as in [`Number::new`] and [`Op::new`].
    pub fn new(s: &str) -> (r: Result<(&str, Expr), ParseError>)
        ensures
            (match spec_expr(s@) {
                Ok(t) => r matches Ok(e) && e.0@ == t.0 && e.1 == t.1,
                Err(pe) => r matches Err(e) && e == pe,
            }),
    {
        let (s, lhs) = match Number::new(s) {
            Ok(t) => t,
            Err(e) => {
                return Err(e);
            },
        };
        let (s, _) = extract_whitespace(s);

        let (s, operator) = match Op::new(s) {
            Ok(t) => t,
            Err(e) => {
                return Err(e);
            },
        };
        let (s, _) = extract_whitespace(s);

        let (s, rhs) = match Number::new(s) {
            Ok(t) => t,
            Err(e) => {
                return Err(e);
            },
        };
        let (s, _) = extract_whitespace(s);

        Ok((s, Expr { lhs, rhs, operator }))
    }
}

} // verus!
