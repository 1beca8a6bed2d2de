//! Display of durations.
//!
//! A duration renders as hours and minutes once it reaches a full hour,
//! and as minutes and seconds below that.  A negative duration is treated
//! as rounding noise and rendered as zero — never surfaced as negative.

use vstd::prelude::*;
use vstd::string::StringExecFns;

verus! {

/// The decimal digit character for a value below ten.
pub open spec fn digit_char(d: nat) -> char {
    if d == 0 {
        '0'
    } else if d == 1 {
        '1'
    } else if d == 2 {
        '2'
    } else if d == 3 {
        '3'
    } else if d == 4 {
        '4'
    } else if d == 5 {
        '5'
    } else if d == 6 {
        '6'
    } else if d == 7 {
        '7'
    } else if d == 8 {
        '8'
    } else {
        '9'
    }
}

/// The decimal notation of a number, most significant digit first, with no
/// leading zeros (zero itself renders as one digit).
pub open spec fn spec_decimal(n: nat) -> Seq<char>
    decreases n,
{
    if n < 10 {
        seq![digit_char(n)]
    } else {
        spec_decimal(n / 10).push(digit_char(n % 10))
    }
}

/// What a duration of `d` seconds displays as: clamped at zero, then
/// "<hours>h <minutes>m" from one hour up and "<minutes>m <seconds>s"
/// below.
pub open spec fn spec_fmt_duration(d: int) -> Seq<char> {
    let c = if d < 0 {
        0
    } else {
        d
    };
    let hours = c / 3600;
    let minutes = (c / 60) % 60;
    let seconds = c % 60;
    if hours > 0 {
        spec_decimal(hours as nat) + ("h ")@ + spec_decimal(minutes as nat) + ("m")@
    } else {
        spec_decimal(minutes as nat) + ("m ")@ + spec_decimal(seconds as nat) + ("s")@
    }
}

/// One decimal digit as a string.
pub(crate) fn digit_str(d: u128) -> (r: &'static str)
    requires
        d < 10,
    ensures
        r@ == seq![digit_char(d as nat)],
{
    proof {
        reveal_strlit("0");
        reveal_strlit("1");
        reveal_strlit("2");
        reveal_strlit("3");
        reveal_strlit("4");
        reveal_strlit("5");
        reveal_strlit("6");
        reveal_strlit("7");
        reveal_strlit("8");
        reveal_strlit("9");
    }
    let r = match d {
        0 => "0",
        1 => "1",
        2 => "2",
        3 => "3",
        4 => "4",
        5 => "5",
        6 => "6",
        7 => "7",
        8 => "8",
        _ => "9",
    };
    proof {
        assert(r@ =~= seq![digit_char(d as nat)]);
    }
    r
}

/// A number in decimal notation.
pub fn fmt_u128(n: u128) -> (s: String)
    ensures
        s@ == spec_decimal(n as nat),
    decreases n,
{
    if n < 10 {
        String::from_str(digit_str(n))
    } else {
        proof {
            assert(n / 10 < n) by (nonlinear_arith)
                requires
                    n >= 10,
            ;
        }
        let mut s = fmt_u128(n / 10);
        s.append(digit_str(n % 10));
        proof {
            assert(s@ =~= spec_decimal((n / 10) as nat).push(digit_char((n % 10) as nat)));
        }
        s
    }
}

/// Renders a duration of `d` seconds for display, as `spec_fmt_duration`
/// defines it.  Durations below zero are clamped to zero before display.
pub fn fmt_duration(d: i128) -> (s: String)
    ensures
        s@ == spec_fmt_duration(d as int),
{
    let c: u128 = if d < 0 {
        0
    } else {
        d as u128
    };
    let hours = c / 3600;
    let minutes = (c / 60) % 60;
    let seconds = c % 60;
    if hours > 0 {
        let mut s = fmt_u128(hours);
        s.append("h ");
        s.append(fmt_u128(minutes).as_str());
        s.append("m");
        proof {
            assert(s@ =~= spec_fmt_duration(d as int));
        }
        s
    } else {
        let mut s = fmt_u128(minutes);
        s.append("m ");
        s.append(fmt_u128(seconds).as_str());
        s.append("s");
        proof {
            assert(s@ =~= spec_fmt_duration(d as int));
        }
        s
    }
}

} // verus!
