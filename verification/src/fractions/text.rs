//! Fractions as text: `<numerator>/<denominator>` going out, and the same
//! or a bare integer coming in.

use crate::auxiliary::{canonical_spec, lemma_reduce_keeps_lowest_terms};
use crate::decimal::{
    chars_of, decimal_of, lemma_decimal_lacks, lemma_parse_decimal, parse_i32_between,
    parse_i32_spec, push_decimal, IntParseError,
};
use crate::fractions::parse_error::FractionParseError;
use crate::fractions::Fraction;
use std::str::FromStr;
use vstd::prelude::*;
use vstd::string::StringExecFns;

verus! {

/// The index of the first `c` in `s`, or the length of `s` if there is none.
pub open spec fn position(s: Seq<char>, c: char) -> int
    decreases s.len(),
{
    if s.len() == 0 || s[0] == c {
        0
    } else {
        1 + position(s.drop_first(), c)
    }
}

/// How a fraction is written: numerator, `/`, denominator.
pub open spec fn text_spec(f: (int, int)) -> Seq<char> {
    decimal_of(f.0) + seq!['/'] + decimal_of(f.1)
}

/// What reading a text as a fraction gives.
///
/// A text without `/` is a bare integer `n` and stands for `n/1`; it has
/// the wrong form unless it is an optional sign and digits. A text with one
/// `/` and something on both sides is read as numerator and denominator; a
/// text with an empty side or a second `/` has the wrong form. A
/// denominator that reads as zero is an error of its own. A negative
/// denominator moves its sign to the numerator, which fails as too large
/// a number where either of the two is `i32::MIN`.
pub open spec fn parse_spec(s: Seq<char>) -> Result<(int, int), FractionParseError<IntParseError>> {
    let at = position(s, '/');
    if at == s.len() {
        match parse_i32_spec(s) {
            Ok(n) => Ok(canonical_spec(n, 1)),
            Err(IntParseError::PosOverflow) => Err(
                FractionParseError::NumParseError(IntParseError::PosOverflow),
            ),
            Err(IntParseError::NegOverflow) => Err(
                FractionParseError::NumParseError(IntParseError::NegOverflow),
            ),
            Err(_) => Err(FractionParseError::IncorrectForm),
        }
    } else {
        let left = s.subrange(0, at);
        let right = s.subrange(at + 1, s.len() as int);
        if left.len() == 0 || right.len() == 0 || position(right, '/') < right.len() {
            Err(FractionParseError::IncorrectForm)
        } else {
            match parse_i32_spec(left) {
                Err(e) => Err(FractionParseError::NumParseError(e)),
                Ok(n) => match parse_i32_spec(right) {
                    Err(e) => Err(FractionParseError::NumParseError(e)),
                    Ok(d) => if d == 0 {
                        Err(FractionParseError::ZeroDenominator)
                    } else if d < 0 && (n == i32::MIN || d == i32::MIN) {
                        Err(FractionParseError::NumParseError(IntParseError::PosOverflow))
                    } else {
                        Ok(canonical_spec(n, d))
                    },
                },
            }
        }
    }
}

/// `position` is where the first `c` is: at most the length, with no `c`
/// before it and a `c` at it unless it is the length.
pub proof fn lemma_position(s: Seq<char>, c: char)
    ensures
        0 <= position(s, c) <= s.len(),
        forall|j: int| 0 <= j < position(s, c) ==> s[j] != c,
        position(s, c) < s.len() ==> s[position(s, c)] == c,
    decreases s.len(),
{
    if s.len() != 0 && s[0] != c {
        let rest = s.drop_first();
        lemma_position(rest, c);
        assert forall|j: int| 0 <= j < position(s, c) implies s[j] != c by {
            if j > 0 {
                assert(s[j] == rest[j - 1]);
            }
        }
    }
}

/// An index with no `c` before it, and with a `c` at it or at the end of
/// the text, is the `position` of `c`.
pub proof fn lemma_position_is(s: Seq<char>, c: char, i: int)
    requires
        0 <= i <= s.len(),
        forall|j: int| 0 <= j < i ==> s[j] != c,
        i < s.len() ==> s[i] == c,
    ensures
        position(s, c) == i,
{
    lemma_position(s, c);
}

/// An executable result with its fraction taken by its view.
pub open spec fn as_pair_result(r: Result<Fraction, FractionParseError<IntParseError>>) -> Result<
    (int, int),
    FractionParseError<IntParseError>,
> {
    match r {
        Ok(f) => Ok(f@),
        Err(e) => Err(e),
    }
}

/// The index of the first `/` in `v` at or after `from`, or the length of
/// `v` if there is none.
fn find_slash(v: &Vec<char>, from: usize) -> (at: usize)
    requires
        from <= v.len(),
    ensures
        from <= at <= v.len(),
        at - from == position(v@.subrange(from as int, v.len() as int), '/'),
{
    let mut i: usize = from;
    while i < v.len() && v[i] != '/'
        invariant
            from <= i <= v.len(),
            forall|j: int| from <= j < i ==> v@[j] != '/',
        decreases v.len() - i,
    {
        i += 1;
    }
    proof {
        lemma_position_is(v@.subrange(from as int, v.len() as int), '/', i - from);
    }
    i
}

impl Fraction {
    /// The text `<numerator>/<denominator>`.
    pub fn to_string(&self) -> (s: String)
        ensures
            s@ == text_spec(self@),
    {
        let mut s = String::new();
        push_decimal(self.numerator, &mut s);
        s.append("/");
        proof {
            reveal_strlit("/");
        }
        push_decimal(self.denominator, &mut s);
        assert(s@ =~= text_spec(self@));
        s
    }

    /// Reads a fraction from `<numerator>/<denominator>` or from a bare
    /// integer. The result is in lowest terms with the sign in the
    /// numerator.
    pub fn parse(s: &str) -> (r: Result<Fraction, FractionParseError<IntParseError>>)
        ensures
            as_pair_result(r) == parse_spec(s@),
            r matches Ok(f) ==> f.wf(),
    {
        let v = chars_of(s);
        let n: usize = v.len();
        assert(v@.subrange(0, n as int) =~= s@);
        let at: usize = find_slash(&v, 0);
        if at == n {
            return match parse_i32_between(&v, 0, n) {
                Ok(k) => Ok(Fraction::new(k, 1)),
                Err(IntParseError::PosOverflow) => Err(
                    FractionParseError::NumParseError(IntParseError::PosOverflow),
                ),
                Err(IntParseError::NegOverflow) => Err(
                    FractionParseError::NumParseError(IntParseError::NegOverflow),
                ),
                Err(_) => Err(FractionParseError::IncorrectForm),
            };
        }
        let next: usize = find_slash(&v, at + 1);
        assert(v@.subrange(0, at as int) =~= s@.subrange(0, at as int));
        assert(v@.subrange(at + 1, n as int) =~= s@.subrange(at + 1, s@.len() as int));
        if at == 0 || at + 1 == n || next < n {
            return Err(FractionParseError::IncorrectForm);
        }
        let numerator: i32 = match parse_i32_between(&v, 0, at) {
            Ok(k) => k,
            Err(e) => {
                return Err(FractionParseError::NumParseError(e));
            },
        };
        let denominator: i32 = match parse_i32_between(&v, at + 1, n) {
            Ok(k) => k,
            Err(e) => {
                return Err(FractionParseError::NumParseError(e));
            },
        };
        if denominator == 0 {
            Err(FractionParseError::ZeroDenominator)
        } else if denominator < 0 && (numerator == i32::MIN || denominator == i32::MIN) {
            Err(FractionParseError::NumParseError(IntParseError::PosOverflow))
        } else {
            Ok(Fraction::new(numerator, denominator))
        }
    }
}

impl FromStr for Fraction {
    type Err = FractionParseError<IntParseError>;

    /// Reads a fraction as `Fraction::parse` does.
    fn from_str(s: &str) -> (r: Result<Fraction, FractionParseError<IntParseError>>)
        ensures
            as_pair_result(r) == parse_spec(s@),
            r matches Ok(f) ==> f.wf(),
    {
        Fraction::parse(s)
    }
}

/// Reading the text of a fraction gives the fraction back.
pub proof fn lemma_parse_text(f: Fraction)
    requires
        f.wf(),
    ensures
        parse_spec(text_spec(f@)) == Ok::<(int, int), FractionParseError<IntParseError>>(f@),
{
    let (n, d) = f@;
    let s = text_spec(f@);
    let left = decimal_of(n);
    let right = decimal_of(d);
    lemma_decimal_lacks(n, '/');
    lemma_decimal_lacks(d, '/');
    assert forall|j: int| 0 <= j < left.len() implies s[j] != '/' by {
        assert(s[j] == left[j]);
        assert(left.contains(left[j]));
    }
    lemma_position_is(s, '/', left.len() as int);
    assert(s.subrange(0, left.len() as int) =~= left);
    assert(s.subrange(left.len() as int + 1, s.len() as int) =~= right);
    assert forall|j: int| 0 <= j < right.len() implies right[j] != '/' by {
        assert(right.contains(right[j]));
    }
    lemma_position_is(right, '/', right.len() as int);
    lemma_parse_decimal(n);
    lemma_parse_decimal(d);
    lemma_reduce_keeps_lowest_terms(n, d);
}

} // verus!
