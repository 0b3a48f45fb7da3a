//! The "H:MM" rendering of an amount of time.

use vstd::prelude::*;
use vstd::string::{StrSliceExecFns, StringExecFns};

verus! {

/// Microseconds in a minute.
pub const MICROS_PER_MINUTE: u128 = 60_000_000;

pub open spec fn digit(d: int) -> char {
    "0123456789"@[d]
}

/// Decimal digits of a natural number, most significant first.
pub open spec fn decimal(n: nat) -> Seq<char>
    decreases n,
{
    if n < 10 {
        seq![digit(n as int)]
    } else {
        decimal(n / 10).push(digit((n % 10) as int))
    }
}

/// Number of whole minutes in `micros`, rounded to the nearest minute with
/// halves away from zero.
pub open spec fn rounded_minutes(micros: int) -> int {
    if micros >= 0 {
        (micros + 30_000_000) / 60_000_000
    } else {
        -((-micros + 30_000_000) / 60_000_000)
    }
}

pub open spec fn abs(x: int) -> int {
    if x < 0 { -x } else { x }
}

/// "H:MM" for an amount of microseconds: a minus sign when the rounded
/// minutes are negative, whole hours, and the remaining minutes on two digits.
pub open spec fn hm_text(micros: int) -> Seq<char> {
    let t = rounded_minutes(micros);
    let a = abs(t);
    let m = a % 60;
    (if t < 0 { "-"@ } else { Seq::empty() }) + decimal((a / 60) as nat) + ":"@ + seq![
        digit(m / 10),
        digit(m % 10),
    ]
}

fn push_digit(out: &mut String, d: u128)
    requires
        d < 10,
    ensures
        final(out)@ == old(out)@.push(digit(d as int)),
{
    let digits = "0123456789";
    proof {
        reveal_strlit("0123456789");
    }
    let one = digits.substring_char(d as usize, d as usize + 1);
    out.append(one);
    assert(one@ =~= seq![digit(d as int)]);
}

fn push_decimal(out: &mut String, n: u128)
    ensures
        final(out)@ == old(out)@ + decimal(n as nat),
    decreases n,
{
    if n >= 10 {
        push_decimal(out, n / 10);
    }
    push_digit(out, n % 10);
    if n < 10 {
        assert(n % 10 == n);
    }
    assert(old(out)@ + decimal(n as nat) =~= (if n >= 10 { old(out)@ + decimal((n / 10) as nat) } else { old(out)@ }).push(digit((n % 10) as int)));
}

/// "H:MM" for an amount of microseconds; minutes are rounded, not truncated.
pub fn format_hm(micros: i128) -> (r: String)
    ensures
        r@ == hm_text(micros as int),
{
    let magnitude: u128 = if micros < 0 { (-(micros + 1)) as u128 + 1 } else { micros as u128 };
    let minutes: u128 = (magnitude + MICROS_PER_MINUTE / 2) / MICROS_PER_MINUTE;
    let negative = micros < 0 && minutes > 0;
    let mut out = String::new();
    if negative {
        proof {
            reveal_strlit("-");
        }
        out.append("-");
    }
    push_decimal(&mut out, minutes / 60);
    proof {
        reveal_strlit(":");
    }
    out.append(":");
    let m = minutes % 60;
    push_digit(&mut out, m / 10);
    push_digit(&mut out, m % 10);
    proof {
        let t = rounded_minutes(micros as int);
        assert(abs(t) == minutes);
        assert(t < 0 <==> negative);
        assert(out@ =~= hm_text(micros as int));
    }
    out
}

} // verus!
