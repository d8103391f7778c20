//! Reading numbers.

use vstd::prelude::*;

verus! {

/// True iff `b` is a decimal digit.
pub open spec fn spec_is_digit(b: u8) -> bool {
    0x30 <= b <= 0x39
}

/// The number that the digits `s` denote.
pub open spec fn digits_value(s: Seq<u8>) -> int
    decreases s.len(),
{
    if s.len() == 0 {
        0
    } else {
        digits_value(s.drop_last()) * 10 + (s.last() - 0x30)
    }
}

/// True iff `s` is made of digits, and of at least one.
pub open spec fn all_digits(s: Seq<u8>) -> bool {
    s.len() > 0 && forall|i: int| 0 <= i < s.len() ==> spec_is_digit(#[trigger] s[i])
}

/// The integer that `token` denotes: digits, with a sign before them or
/// without. `None` where `token` is nothing of the kind.
pub open spec fn spec_integer_value(token: Seq<u8>) -> Option<int> {
    if token.len() > 0 && token[0] == 0x2D {
        if all_digits(token.drop_first()) {
            Some(-digits_value(token.drop_first()))
        } else {
            None
        }
    } else if token.len() > 0 && token[0] == 0x2B {
        if all_digits(token.drop_first()) {
            Some(digits_value(token.drop_first()))
        } else {
            None
        }
    } else if all_digits(token) {
        Some(digits_value(token))
    } else {
        None
    }
}

/// The integer that `token` denotes, where it denotes one in the range of
/// `i32`.
pub open spec fn spec_parse_integer(token: Seq<u8>) -> Option<i32> {
    match spec_integer_value(token) {
        Some(v) => if i32::MIN <= v <= i32::MAX {
            Some(v as i32)
        } else {
            None
        },
        None => None,
    }
}

/// The integer that `token` denotes, where it denotes one in the range of
/// `i32`.
pub fn parse_integer(token: &[u8]) -> (r: Option<i32>)
    ensures
        r == spec_parse_integer(token@),
{
    let n: usize = token.len();
    if n == 0 {
        return None;
    }
    let negative = token[0] == 0x2D;
    let start: usize = if token[0] == 0x2D || token[0] == 0x2B {
        1
    } else {
        0
    };
    if start >= n {
        return None;
    }
    let ghost body = token@.subrange(start as int, n as int);
    proof {
        if start == 1 {
            assert(body =~= token@.drop_first());
        } else {
            assert(body =~= token@);
        }
    }
    let mut value: i64 = 0;
    let mut overflow = false;
    let mut i: usize = start;
    while i < n
        invariant
            start <= i <= n,
            n == token@.len(),
            body == token@.subrange(start as int, n as int),
            start == 1 ==> body == token@.drop_first() && (token@[0] == 0x2D || token@[0] == 0x2B),
            start == 0 ==> body == token@ && token@[0] != 0x2D && token@[0] != 0x2B,
            start == 0 || start == 1,
            negative == (token@[0] == 0x2D),
            forall|j: int| 0 <= j < i - start ==> spec_is_digit(#[trigger] body[j]),
            !overflow ==> value == digits_value(body.take(i - start)) && 0 <= value
                <= 0x8000_0000,
            overflow ==> digits_value(body.take(i - start)) > 0x8000_0000,
        decreases n - i,
    {
        let b: u8 = token[i];
        if b < 0x30 || b > 0x39 {
            proof {
                assert(body[i - start] == b);
                assert(!all_digits(body));
            }
            return None;
        }
        proof {
            assert(body[i - start] == b);
            assert(body.take(i + 1 - start).drop_last() =~= body.take(i - start));
            assert(body.take(i + 1 - start).last() == b);
        }
        if !overflow {
            value = value * 10 + (b - 0x30) as i64;
            if value > 0x8000_0000 {
                overflow = true;
            }
        }
        i += 1;
    }
    proof {
        assert(body.take(n - start) =~= body);
        assert(all_digits(body));
    }
    if overflow {
        return None;
    }
    let signed: i64 = if negative {
        -value
    } else {
        value
    };
    if signed < i32::MIN as i64 || signed > i32::MAX as i64 {
        None
    } else {
        Some(signed as i32)
    }
}

/// True iff `token` is made of what numbers are made of: digits, signs, a
/// dot, the letter of an exponent; and has a digit in it.
pub open spec fn spec_looks_numeric(token: Seq<u8>) -> bool {
    &&& exists|i: int| 0 <= i < token.len() && spec_is_digit(#[trigger] token[i])
    &&& forall|i: int|
        0 <= i < token.len() ==> {
            let b = #[trigger] token[i];
            spec_is_digit(b) || b == 0x2B || b == 0x2D || b == 0x2E || b == 0x65 || b == 0x45
        }
}

/// True iff `token` is made of what numbers are made of, and has a digit in
/// it.
pub fn looks_numeric(token: &[u8]) -> (r: bool)
    ensures
        r == spec_looks_numeric(token@),
{
    let mut digit = false;
    let mut i: usize = 0;
    while i < token.len()
        invariant
            i <= token@.len(),
            digit <==> exists|j: int| 0 <= j < i && spec_is_digit(#[trigger] token@[j]),
            forall|j: int|
                0 <= j < i ==> {
                    let b = #[trigger] token@[j];
                    spec_is_digit(b) || b == 0x2B || b == 0x2D || b == 0x2E || b == 0x65 || b
                        == 0x45
                },
        decreases token@.len() - i,
    {
        let b: u8 = token[i];
        if 0x30 <= b && b <= 0x39 {
            digit = true;
        } else if !(b == 0x2B || b == 0x2D || b == 0x2E || b == 0x65 || b == 0x45) {
            return false;
        }
        i += 1;
    }
    digit
}

} // verus!
