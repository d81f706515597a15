//! Reading a raw input string as a decimal sequence number.
//!
//! The input model is the UTF-8 byte content of the string: a well-formed
//! input is an optional leading plus sign followed by one or more ASCII
//! digits, exactly the strings the widget accepts as non-negative integers.

use vstd::prelude::*;
use vstd::string::StringSliceAdditionalSpecFns;

verus! {

/// ASCII code of the plus sign.
pub const PLUS_SIGN: u8 = 43;

/// ASCII code of the digit zero.
pub const DIGIT_ZERO: u8 = 48;

/// ASCII code of the digit nine.
pub const DIGIT_NINE: u8 = 57;

/// The byte is an ASCII decimal digit.
pub open spec fn is_ascii_digit(b: u8) -> bool {
    DIGIT_ZERO <= b && b <= DIGIT_NINE
}

/// Numeric value of an ASCII digit byte.
pub open spec fn digit_value(b: u8) -> nat
    recommends
        is_ascii_digit(b),
{
    (b - DIGIT_ZERO) as nat
}

/// The bytes of the input with a single leading plus sign, if any, removed.
pub open spec fn unsigned_part(s: Seq<u8>) -> Seq<u8> {
    if s.len() > 0 && s[0] == PLUS_SIGN {
        s.subrange(1, s.len() as int)
    } else {
        s
    }
}

/// The input is a well-formed non-negative decimal integer: an optional
/// leading plus sign followed by at least one ASCII digit.
pub open spec fn is_decimal(s: Seq<u8>) -> bool {
    &&& unsigned_part(s).len() > 0
    &&& forall|i: int|
        0 <= i < unsigned_part(s).len() ==> is_ascii_digit(#[trigger] unsigned_part(s)[i])
}

/// Value of a string of digit bytes, most significant digit first.
pub open spec fn digits_value(s: Seq<u8>) -> nat
    decreases s.len(),
{
    if s.len() == 0 {
        0
    } else {
        digits_value(s.drop_last()) * 10 + digit_value(s.last())
    }
}

/// Numeric value of a well-formed decimal input (sign stripped).
pub open spec fn decimal_value(s: Seq<u8>) -> nat {
    digits_value(unsigned_part(s))
}

/// How one raw input string reads as a decimal sequence number.
#[derive(Clone, Copy, Debug, PartialEq, Eq)]
pub enum ParsedInput {
    /// The input held no bytes at all.
    Empty,
    /// The input was non-empty but not a well-formed non-negative integer.
    NotDecimal,
    /// The input was a well-formed integer; a value above the cap handed to
    /// [`parse_sequence`] is reported as cap + 1.
    Number(usize),
}

/// Read `raw` as a non-negative base-10 integer. Values above `cap` are
/// clamped to `cap + 1`, so inputs of any length need no wide arithmetic
/// while every value the caller distinguishes is reported exactly.
pub fn parse_sequence(raw: &str, cap: usize) -> (r: ParsedInput)
    requires
        10 * (cap as int) + 19 <= usize::MAX as int,
    ensures
        ({
            let s = raw.spec_bytes();
            match r {
                ParsedInput::Empty => s.len() == 0,
                ParsedInput::NotDecimal => s.len() > 0 && !is_decimal(s),
                ParsedInput::Number(v) => {
                    &&& is_decimal(s)
                    &&& decimal_value(s) <= cap ==> v == decimal_value(s)
                    &&& decimal_value(s) > cap ==> v == cap + 1
                },
            }
        }),
{
    let bytes: &[u8] = raw.as_bytes();
    let n: usize = bytes.len();
    if n == 0 {
        return ParsedInput::Empty;
    }
    let start: usize = if bytes[0] == PLUS_SIGN {
        1
    } else {
        0
    };
    let ghost u: Seq<u8> = unsigned_part(bytes@);
    proof {
        if start == 1 {
            assert(u =~= bytes@.subrange(1int, n as int));
        } else {
            assert(u =~= bytes@.subrange(0int, n as int));
        }
    }
    if start == n {
        // a bare sign with no digits
        assert(!is_decimal(bytes@));
        return ParsedInput::NotDecimal;
    }
    let mut acc: usize = 0;
    let mut i: usize = start;
    while i < n
        invariant
            start <= i <= n,
            start < n,
            n == bytes@.len(),
            bytes@ == raw.spec_bytes(),
            u == unsigned_part(bytes@),
            u == bytes@.subrange(start as int, n as int),
            10 * (cap as int) + 19 <= usize::MAX as int,
            forall|j: int| 0 <= j < i - start ==> is_ascii_digit(#[trigger] u[j]),
            ({
                let val = digits_value(u.subrange(0, i - start));
                &&& (val <= cap ==> acc == val)
                &&& (val > cap ==> acc == cap + 1)
            }),
            acc <= cap + 1,
        decreases n - i,
    {
        let b: u8 = bytes[i];
        if b < DIGIT_ZERO || b > DIGIT_NINE {
            proof {
                assert(u[i - start] == b);
                assert(!is_ascii_digit(u[i - start]));
            }
            return ParsedInput::NotDecimal;
        }
        let d: usize = (b - DIGIT_ZERO) as usize;
        proof {
            let p = u.subrange(0, i - start);
            let q = u.subrange(0, i + 1 - start);
            assert(q.drop_last() =~= p);
            assert(q.last() == u[i - start]);
            assert(digits_value(q) == digits_value(p) * 10 + digit_value(b));
        }
        if acc > cap {
            // the value already exceeds the cap; further digits keep it there
            acc = cap + 1;
        } else {
            let t: usize = acc * 10 + d;
            if t > cap {
                acc = cap + 1;
            } else {
                acc = t;
            }
        }
        i = i + 1;
    }
    proof {
        assert(u.subrange(0, n - start) =~= u);
        assert(is_decimal(bytes@));
    }
    ParsedInput::Number(acc)
}

} // verus!
