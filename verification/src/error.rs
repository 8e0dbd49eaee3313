use vstd::prelude::*;
use vstd::string::StringExecFns;

verus! {

/// The single error of the library: a raw value fell outside the valid
/// range, which is `[0, max)` for the reported `max`.
#[derive(Debug, Clone, Copy, PartialEq, Eq, Structural)]
pub enum TokauError {
    OutOfRange { value: u32, max: u32 },
}

/// The decimal digit character for `d`.
pub open spec fn digit_char(d: int) -> char
    recommends
        0 <= d <= 9,
{
    if d == 0 {
        '0'
    } else if d == 1 {
        '1'
    } else if d == 2 {
        '2'
    } else if d == 3 {
        '3'
    } else if d == 4 {
        '4'
    } else if d == 5 {
        '5'
    } else if d == 6 {
        '6'
    } else if d == 7 {
        '7'
    } else if d == 8 {
        '8'
    } else {
        '9'
    }
}

/// The decimal rendering of `n`, most significant digit first.
pub open spec fn dec_digits(n: int) -> Seq<char>
    recommends
        n >= 0,
    decreases n,
{
    if n < 10 {
        seq![digit_char(n)]
    } else {
        dec_digits(n / 10) + seq![digit_char(n % 10)]
    }
}

/// The text of an error: the offending value and the violated range.
pub open spec fn error_message(e: TokauError) -> Seq<char> {
    match e {
        TokauError::OutOfRange { value, max } => "Token ID "@ + dec_digits(value as int)
            + " is out of valid range [0, "@ + dec_digits(max as int) + ")"@,
    }
}

/// The decimal rendering of `n` as a string.
fn u32_to_decimal(n: u32) -> (r: String)
    ensures
        r@ == dec_digits(n as int),
    decreases n,
{
    let d = n % 10;
    let digit: &str = if d == 0 {
        "0"
    } else if d == 1 {
        "1"
    } else if d == 2 {
        "2"
    } else if d == 3 {
        "3"
    } else if d == 4 {
        "4"
    } else if d == 5 {
        "5"
    } else if d == 6 {
        "6"
    } else if d == 7 {
        "7"
    } else if d == 8 {
        "8"
    } else {
        "9"
    };
    proof {
        reveal_strlit("0");
        reveal_strlit("1");
        reveal_strlit("2");
        reveal_strlit("3");
        reveal_strlit("4");
        reveal_strlit("5");
        reveal_strlit("6");
        reveal_strlit("7");
        reveal_strlit("8");
        reveal_strlit("9");
        assert(digit@ =~= seq![digit_char(d as int)]);
    }
    if n < 10 {
        let r = String::from_str(digit);
        proof {
            assert(r@ =~= dec_digits(n as int));
        }
        r
    } else {
        let mut r = u32_to_decimal(n / 10);
        r.append(digit);
        proof {
            assert(r@ =~= dec_digits(n as int));
        }
        r
    }
}

impl TokauError {
    /// The error rendered as text: the offending value and the violated
    /// range.
    pub fn message(&self) -> (r: String)
        ensures
            r@ == error_message(*self),
    {
        match self {
            TokauError::OutOfRange { value, max } => {
                let mut r = String::from_str("Token ID ");
                let value_digits = u32_to_decimal(*value);
                r.append(value_digits.as_str());
                r.append(" is out of valid range [0, ");
                let max_digits = u32_to_decimal(*max);
                r.append(max_digits.as_str());
                r.append(")");
                r
            },
        }
    }
}

} // verus!
