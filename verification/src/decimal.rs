//! Decimal text for `i32`: how a number is written, how it is read, and the
//! proof that reading what was written gives the number back.

use vstd::prelude::*;
use vstd::string::StringExecFns;

verus! {

/// Why a text is not an `i32`.
#[derive(Debug, Copy, Clone, PartialEq, Eq, Structural)]
pub enum IntParseError {
    /// The text is empty.
    Empty,
    /// The text holds something other than digits after an optional sign,
    /// or no digit at all.
    InvalidDigit,
    /// The number is above `i32::MAX`.
    PosOverflow,
    /// The number is below `i32::MIN`.
    NegOverflow,
}

impl IntParseError {
    /// The message for each error, as text.
    pub open spec fn message_spec(self) -> Seq<char> {
        match self {
            IntParseError::Empty => "cannot parse integer from empty string"@,
            IntParseError::InvalidDigit => "invalid digit found in string"@,
            IntParseError::PosOverflow => "number too large to fit in target type"@,
            IntParseError::NegOverflow => "number too small to fit in target type"@,
        }
    }

    /// A message that says what was wrong with the number.
    pub fn to_string(&self) -> (s: String)
        ensures
            s@ == self.message_spec(),
    {
        match self {
            IntParseError::Empty => "cannot parse integer from empty string".to_owned(),
            IntParseError::InvalidDigit => "invalid digit found in string".to_owned(),
            IntParseError::PosOverflow => "number too large to fit in target type".to_owned(),
            IntParseError::NegOverflow => "number too small to fit in target type".to_owned(),
        }
    }
}

/// The character is one of `0` to `9`.
pub open spec fn is_digit(c: char) -> bool {
    '0' <= c && c <= '9'
}

/// The number that a digit stands for.
pub open spec fn digit_value(c: char) -> int {
    c as int - 48
}

/// The digit that stands for a number below ten.
pub open spec fn digit_char(d: int) -> char {
    (d + 48) as char
}

/// All characters of the text are digits.
pub open spec fn all_digits(s: Seq<char>) -> bool {
    forall|i: int| 0 <= i < s.len() ==> is_digit(#[trigger] s[i])
}

/// The number that a run of digits stands for, the last digit counting
/// least. The empty run stands for zero.
pub open spec fn digits_value(s: Seq<char>) -> int
    decreases s.len(),
{
    if s.len() == 0 {
        0
    } else {
        10 * digits_value(s.drop_last()) + digit_value(s.last())
    }
}

/// What reading a text as an `i32` gives: an optional `+` or `-`, then one
/// or more digits and nothing else, standing for a number within `i32`.
pub open spec fn parse_i32_spec(s: Seq<char>) -> Result<int, IntParseError> {
    if s.len() == 0 {
        Err(IntParseError::Empty)
    } else {
        let body = if s[0] == '-' || s[0] == '+' {
            s.subrange(1, s.len() as int)
        } else {
            s
        };
        if body.len() == 0 || !all_digits(body) {
            Err(IntParseError::InvalidDigit)
        } else {
            let value = if s[0] == '-' {
                -digits_value(body)
            } else {
                digits_value(body)
            };
            if value > i32::MAX {
                Err(IntParseError::PosOverflow)
            } else if value < i32::MIN {
                Err(IntParseError::NegOverflow)
            } else {
                Ok(value)
            }
        }
    }
}

/// The digits of a natural number, without leading zeros; zero is `0`.
pub open spec fn digits_of(n: nat) -> Seq<char>
    decreases n,
{
    if n < 10 {
        seq![digit_char(n as int)]
    } else {
        digits_of(n / 10).push(digit_char((n % 10) as int))
    }
}

/// How an integer is written: a `-` for a negative number, then the digits
/// of its magnitude.
pub open spec fn decimal_of(n: int) -> Seq<char> {
    if n < 0 {
        seq!['-'] + digits_of((-n) as nat)
    } else {
        digits_of(n as nat)
    }
}

/// The digits of a number are digits, at least one of them, and stand for
/// the number.
pub proof fn lemma_digits_of(n: nat)
    ensures
        digits_of(n).len() >= 1,
        all_digits(digits_of(n)),
        digits_value(digits_of(n)) == n,
    decreases n,
{
    if n < 10 {
        let s = digits_of(n);
        assert(s.drop_last().len() == 0);
        assert(digits_value(s.drop_last()) == 0);
    } else {
        lemma_digits_of(n / 10);
        let s = digits_of(n);
        assert(s.drop_last() =~= digits_of(n / 10));
    }
}

/// Reading what was written gives the number back.
pub proof fn lemma_parse_decimal(n: int)
    requires
        i32::MIN <= n <= i32::MAX,
    ensures
        parse_i32_spec(decimal_of(n)) == Ok::<int, IntParseError>(n),
{
    let s = decimal_of(n);
    if n < 0 {
        lemma_digits_of((-n) as nat);
        assert(s.subrange(1, s.len() as int) =~= digits_of((-n) as nat));
    } else {
        lemma_digits_of(n as nat);
        assert(is_digit(s[0]));
    }
}

/// A written number holds digits and at most a leading `-`, so none of its
/// characters is `c` where `c` is neither.
pub proof fn lemma_decimal_lacks(n: int, c: char)
    requires
        !is_digit(c),
        c != '-',
    ensures
        decimal_of(n).len() >= 1,
        !decimal_of(n).contains(c),
{
    let s = decimal_of(n);
    if n < 0 {
        lemma_digits_of((-n) as nat);
        assert forall|i: int| 0 <= i < s.len() implies s[i] != c by {
            if i > 0 {
                assert(s[i] == digits_of((-n) as nat)[i - 1]);
            }
        }
    } else {
        lemma_digits_of(n as nat);
    }
}

/// The text of a digit below ten.
fn digit_text(d: u32) -> (t: &'static str)
    requires
        d < 10,
    ensures
        t@ == seq![digit_char(d as int)],
{
    proof {
        reveal_strlit("0");
        reveal_strlit("1");
        reveal_strlit("2");
        reveal_strlit("3");
        reveal_strlit("4");
        reveal_strlit("5");
        reveal_strlit("6");
        reveal_strlit("7");
        reveal_strlit("8");
        reveal_strlit("9");
    }
    let t: &'static str = if d == 0 {
        "0"
    } else if d == 1 {
        "1"
    } else if d == 2 {
        "2"
    } else if d == 3 {
        "3"
    } else if d == 4 {
        "4"
    } else if d == 5 {
        "5"
    } else if d == 6 {
        "6"
    } else if d == 7 {
        "7"
    } else if d == 8 {
        "8"
    } else {
        "9"
    };
    assert(t@ =~= seq![digit_char(d as int)]);
    t
}

/// Appends the digits of `n` to `out`.
fn push_digits(n: u32, out: &mut String)
    ensures
        final(out)@ == old(out)@ + digits_of(n as nat),
    decreases n,
{
    if n >= 10 {
        push_digits(n / 10, out);
    }
    out.append(digit_text(n % 10));
    assert(final(out)@ =~= old(out)@ + digits_of(n as nat));
}

/// Appends the decimal text of `n` to `out`.
pub(crate) fn push_decimal(n: i32, out: &mut String)
    ensures
        final(out)@ == old(out)@ + decimal_of(n as int),
{
    if n < 0 {
        out.append("-");
        proof {
            reveal_strlit("-");
        }
        let magnitude: i64 = -(n as i64);
        push_digits(magnitude as u32, out);
    } else {
        push_digits(n as u32, out);
    }
    assert(final(out)@ =~= old(out)@ + decimal_of(n as int));
}

/// The decimal text of `n`.
pub fn format_i32(n: i32) -> (s: String)
    ensures
        s@ == decimal_of(n as int),
{
    let mut s = String::new();
    push_decimal(n, &mut s);
    assert(s@ =~= decimal_of(n as int));
    s
}

/// The characters of a text, in order.
pub(crate) fn chars_of(s: &str) -> (v: Vec<char>)
    ensures
        v@ == s@,
{
    let mut v: Vec<char> = Vec::new();
    for c in it: s.chars()
        invariant
            v@ == it.seq().take(it.index() as int),
            it.seq() == s@,
    {
        v.push(c);
    }
    v
}

/// An executable result with its number taken as a mathematical integer.
pub open spec fn as_int_result(r: Result<i32, IntParseError>) -> Result<int, IntParseError> {
    match r {
        Ok(v) => Ok(v as int),
        Err(e) => Err(e),
    }
}

/// Reads the characters of `v` from `from` up to `to` as an `i32`.
pub(crate) fn parse_i32_between(v: &Vec<char>, from: usize, to: usize) -> (r: Result<
    i32,
    IntParseError,
>)
    requires
        from <= to <= v.len(),
    ensures
        as_int_result(r) == parse_i32_spec(v@.subrange(from as int, to as int)),
{
    let ghost s = v@.subrange(from as int, to as int);
    if from == to {
        return Err(IntParseError::Empty);
    }
    let first: char = v[from];
    assert(s[0] == first);
    let negative: bool = first == '-';
    let start: usize = if first == '-' || first == '+' {
        from + 1
    } else {
        from
    };
    let ghost body = v@.subrange(start as int, to as int);
    assert(body =~= if s[0] == '-' || s[0] == '+' {
        s.subrange(1, s.len() as int)
    } else {
        s
    });
    if start == to {
        return Err(IntParseError::InvalidDigit);
    }
    let limit: i64 = if negative {
        2147483648
    } else {
        2147483647
    };
    let mut magnitude: i64 = 0;
    let mut overflow: bool = false;
    let mut i: usize = start;
    while i < to
        invariant
            from <= start <= i <= to <= v.len(),
            start < to,
            s == v@.subrange(from as int, to as int),
            body == v@.subrange(start as int, to as int),
            body == if s[0] == '-' || s[0] == '+' {
                s.subrange(1, s.len() as int)
            } else {
                s
            },
            negative == (s[0] == '-'),
            limit == 2147483648 || limit == 2147483647,
            all_digits(v@.subrange(start as int, i as int)),
            !overflow ==> magnitude == digits_value(v@.subrange(start as int, i as int)) && 0
                <= magnitude <= limit,
            overflow ==> digits_value(v@.subrange(start as int, i as int)) > limit,
        decreases to - i,
    {
        let c: char = v[i];
        if !('0' <= c && c <= '9') {
            assert(body[i - start] == c);
            return Err(IntParseError::InvalidDigit);
        }
        let digit: i64 = (c as u32 - 48) as i64;
        let ghost before = v@.subrange(start as int, i as int);
        let ghost after = v@.subrange(start as int, i + 1);
        assert(after.drop_last() =~= before);
        assert(after.last() == c);
        assert(digits_value(after) == 10 * digits_value(before) + digit);
        if !overflow {
            let next: i64 = magnitude * 10 + digit;
            if next > limit {
                overflow = true;
            } else {
                magnitude = next;
            }
        }
        i += 1;
    }
    assert(v@.subrange(start as int, i as int) == body);
    if overflow {
        if negative {
            Err(IntParseError::NegOverflow)
        } else {
            Err(IntParseError::PosOverflow)
        }
    } else if negative {
        Ok((-magnitude) as i32)
    } else {
        Ok(magnitude as i32)
    }
}

/// Reads a text as an `i32`: an optional sign, then digits only.
pub fn parse_i32(s: &str) -> (r: Result<i32, IntParseError>)
    ensures
        as_int_result(r) == parse_i32_spec(s@),
{
    let v = chars_of(s);
    assert(v@.subrange(0, v.len() as int) =~= s@);
    parse_i32_between(&v, 0, v.len())
}

} // verus!
