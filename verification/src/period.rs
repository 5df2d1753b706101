//! Reading a period of time as a caller writes it: a number, and a unit
//! where the number is not in milliseconds.

use vstd::prelude::*;
use vstd::string::*;
use crate::ident::{digits_value, is_digit};

verus! {

/// Why a text is no period.
#[derive(Clone, Copy, Debug, PartialEq, Eq, Structural)]
pub enum PeriodError {
    /// The text does not start with a digit.
    NoDigits,
    /// What follows the digits is no unit.
    Units,
    /// The period does not fit 64 bits of microseconds.
    TooLong,
}

pub const MICROS_PER_MILLI: u64 = 1_000;

pub const MICROS_PER_SECOND: u64 = 1_000_000;

pub const MICROS_PER_MINUTE: u64 = 60_000_000;

/// The digits that a text starts with end at `n`.
pub open spec fn digits_end_at(s: Seq<char>, n: int) -> bool {
    &&& 0 <= n <= s.len()
    &&& forall|j: int| 0 <= j < n ==> is_digit(#[trigger] s[j])
    &&& n < s.len() ==> !is_digit(s[n])
}

/// Where the digits that a text starts with end.
pub open spec fn digits_end(s: Seq<char>) -> int {
    choose|n: int| digits_end_at(s, n)
}

/// The unit is the one character.
pub open spec fn one_letter(unit: Seq<char>, a: char) -> bool {
    unit.len() == 1 && unit[0] == a
}

/// The unit is the two characters.
pub open spec fn two_letters(unit: Seq<char>, a: char, b: char) -> bool {
    unit.len() == 2 && unit[0] == a && unit[1] == b
}

/// The microseconds in one of a unit: `us` is the microsecond, `ms` the
/// millisecond, `s` the second and `m` the minute. Where no unit is
/// written, the millisecond is meant.
pub open spec fn unit_scale(unit: Seq<char>) -> Option<u64> {
    if unit.len() == 0 || two_letters(unit, 'm', 's') {
        Some(MICROS_PER_MILLI)
    } else if two_letters(unit, 'u', 's') {
        Some(1)
    } else if one_letter(unit, 's') {
        Some(MICROS_PER_SECOND)
    } else if one_letter(unit, 'm') {
        Some(MICROS_PER_MINUTE)
    } else {
        None
    }
}

/// The period that a text writes, in microseconds: the number that its
/// leading digits write, times the unit that follows them.
pub open spec fn period_of(s: Seq<char>) -> Result<u64, PeriodError> {
    let n = digits_end(s);
    if n == 0 {
        Err(PeriodError::NoDigits)
    } else {
        match unit_scale(s.subrange(n, s.len() as int)) {
            None => Err(PeriodError::Units),
            Some(scale) => {
                let micros = digits_value(s.subrange(0, n)) * scale;
                if micros > u64::MAX {
                    Err(PeriodError::TooLong)
                } else {
                    Ok(micros as u64)
                }
            },
        }
    }
}

/// The leading digits of a text end at one place only.
pub proof fn lemma_digits_end(s: Seq<char>, n: int)
    requires
        digits_end_at(s, n),
    ensures
        digits_end(s) == n,
{
    let m = digits_end(s);
    if m < n {
        assert(is_digit(s[m]));
    } else if n < m {
        assert(is_digit(s[n]));
    }
}

fn scale_of(s: &str, from: usize, len: usize) -> (r: Option<u64>)
    requires
        from <= len,
        len == s@.len(),
    ensures
        r == unit_scale(s@.subrange(from as int, len as int)),
{
    let ghost unit = s@.subrange(from as int, len as int);
    let rest = len - from;
    if rest == 0 {
        Some(MICROS_PER_MILLI)
    } else if rest == 1 {
        let a = s.get_char(from);
        assert(unit[0] == a);
        if a == 's' {
            Some(MICROS_PER_SECOND)
        } else if a == 'm' {
            Some(MICROS_PER_MINUTE)
        } else {
            None
        }
    } else if rest == 2 {
        let a = s.get_char(from);
        let b = s.get_char(from + 1);
        assert(unit[0] == a && unit[1] == b);
        if b != 's' {
            None
        } else if a == 'm' {
            Some(MICROS_PER_MILLI)
        } else if a == 'u' {
            Some(1)
        } else {
            None
        }
    } else {
        None
    }
}

/// Reads a period of time. The result is in microseconds.
pub fn parse_period(s: &str) -> (r: Result<u64, PeriodError>)
    ensures
        r == period_of(s@),
{
    let len = s.unicode_len();
    let mut n: usize = 0;
    let mut more = true;
    let mut number: Option<u64> = Some(0);
    assert(s@.subrange(0, 0) =~= Seq::<char>::empty());
    while more && n < len
        invariant
            n <= len,
            len == s@.len(),
            forall|j: int| 0 <= j < n ==> is_digit(#[trigger] s@[j]),
            !more ==> n < len && !is_digit(s@[n as int]),
            match number {
                Some(v) => v == digits_value(s@.subrange(0, n as int)),
                None => digits_value(s@.subrange(0, n as int)) > u64::MAX,
            },
        decreases
                len - n + (if more {
                    1int
                } else {
                    0int
                }),
    {
        let c: u32 = s.get_char(n) as u32;
        if c < 48 || c > 57 {
            more = false;
        } else {
            let digit: u64 = (c - 48) as u64;
            proof {
                let next = s@.subrange(0, n + 1);
                assert(next.drop_last() =~= s@.subrange(0, n as int));
                assert(next.last() == s@[n as int]);
            }
            number = match number {
                Some(v) => match v.checked_mul(10) {
                    Some(tens) => tens.checked_add(digit),
                    None => None,
                },
                None => None,
            };
            n = n + 1;
        }
    }
    proof {
        lemma_digits_end(s@, n as int);
    }
    if n == 0 {
        return Err(PeriodError::NoDigits);
    }
    let scale = match scale_of(s, n, len) {
        Some(scale) => scale,
        None => {
            return Err(PeriodError::Units);
        },
    };
    let ghost value = digits_value(s@.subrange(0, n as int));
    match number {
        Some(v) => match v.checked_mul(scale) {
            Some(micros) => Ok(micros),
            None => Err(PeriodError::TooLong),
        },
        None => {
            assert(value * scale >= value) by (nonlinear_arith)
                requires
                    value >= 0,
                    scale >= 1,
            ;
            Err(PeriodError::TooLong)
        },
    }
}

} // verus!
