//! The textual encoding of stored timestamps.
//!
//! A timestamp persists as eighteen characters: twelve decimal digits of
//! the UTC instant, zero-padded — wide enough for every instant up to
//! `MAX_TS` — then the sign of the local offset and five decimal digits
//! of its magnitude in seconds.  The encoding is textual, preserves the
//! local offset, sorts by instant (the fixed-width instant is the prefix,
//! so lexicographic order is instant order) and is reversible: `parse_ts`
//! inverts `encode_ts` exactly, which `lemma_encode_parse_round_trip`
//! proves.

use vstd::prelude::*;
use vstd::string::StrSliceExecFns;
use vstd::string::StringExecFns;

use crate::fmt::digit_char;
use crate::time::{ts_valid, Timestamp};

verus! {

/// The width of the encoded UTC instant, in digits.
pub const TS_DIGITS: usize = 12;

/// The width of the encoded offset magnitude, in digits.
pub const OFF_DIGITS: usize = 5;

/// The full width of an encoded timestamp.
pub const TS_TEXT_LEN: usize = 18;

/// Ten to the `w`th power.
pub open spec fn pow10(w: nat) -> int
    decreases w,
{
    if w == 0 {
        1
    } else {
        10 * pow10((w - 1) as nat)
    }
}

/// The last `w` decimal digits of a number, zero-padded to width `w`,
/// most significant first.
pub open spec fn spec_digits(n: nat, w: nat) -> Seq<char>
    decreases w,
{
    if w == 0 {
        Seq::empty()
    } else {
        spec_digits(n / 10, (w - 1) as nat).push(digit_char(n % 10))
    }
}

/// The numeric value of a digit character; ten for anything else.
pub open spec fn spec_digit_val(c: char) -> int {
    if c == '0' {
        0
    } else if c == '1' {
        1
    } else if c == '2' {
        2
    } else if c == '3' {
        3
    } else if c == '4' {
        4
    } else if c == '5' {
        5
    } else if c == '6' {
        6
    } else if c == '7' {
        7
    } else if c == '8' {
        8
    } else if c == '9' {
        9
    } else {
        10
    }
}

/// Every character of the sequence is a decimal digit.
pub open spec fn all_digits(s: Seq<char>) -> bool {
    forall|i: int| 0 <= i < s.len() ==> spec_digit_val(#[trigger] s[i]) < 10
}

/// The number a digit sequence denotes, most significant digit first.
pub open spec fn spec_digits_value(s: Seq<char>) -> int
    decreases s.len(),
{
    if s.len() == 0 {
        0
    } else {
        spec_digits_value(s.drop_last()) * 10 + spec_digit_val(s.last())
    }
}

/// The sign character of an offset.
pub open spec fn spec_sign_char(offset: int) -> char {
    if offset < 0 {
        '-'
    } else {
        '+'
    }
}

/// What `encode_ts` writes: the instant's digits, the offset's sign, the
/// offset magnitude's digits.
pub open spec fn spec_encode_ts(t: Timestamp) -> Seq<char> {
    spec_digits(t.utc as nat, TS_DIGITS as nat) + seq![spec_sign_char(t.offset as int)]
        + spec_digits((if t.offset < 0 {
        -(t.offset as int)
    } else {
        t.offset as int
    }) as nat, OFF_DIGITS as nat)
}

/// What a stored timestamp text parses to: the denoted instant and offset
/// when the text has exactly the encoding's shape, nothing otherwise.
pub open spec fn spec_parse_ts(s: Seq<char>) -> Option<Timestamp> {
    if s.len() == TS_TEXT_LEN && all_digits(s.subrange(0, TS_DIGITS as int)) && (s[
        TS_DIGITS as int
    ] == '+' || s[TS_DIGITS as int] == '-') && all_digits(
        s.subrange(TS_DIGITS as int + 1, TS_TEXT_LEN as int),
    ) {
        let utc = spec_digits_value(s.subrange(0, TS_DIGITS as int));
        let mag = spec_digits_value(s.subrange(TS_DIGITS as int + 1, TS_TEXT_LEN as int));
        let off = if s[TS_DIGITS as int] == '-' {
            -mag
        } else {
            mag
        };
        Some(Timestamp { utc: utc as i64, offset: off as i32 })
    } else {
        None
    }
}

/// Encoding then parsing gives the number back: the digits of `n` denote
/// `n` again whenever `n` fits the width.
pub proof fn lemma_digits_value(n: nat, w: nat)
    requires
        n < pow10(w),
    ensures
        spec_digits_value(spec_digits(n, w)) == n,
        spec_digits(n, w).len() == w,
        all_digits(spec_digits(n, w)),
    decreases w,
{
    if w > 0 {
        assert(n / 10 < pow10((w - 1) as nat)) by {
            vstd::arithmetic::div_mod::lemma_fundamental_div_mod(n as int, 10);
            if n / 10 >= pow10((w - 1) as nat) {
                assert(n >= 10 * pow10((w - 1) as nat)) by (nonlinear_arith)
                    requires
                        n as int == 10 * ((n as int) / 10) + ((n as int) % 10),
                        (n as int) / 10 >= pow10((w - 1) as nat),
                        (n as int) % 10 >= 0,
                ;
            }
        }
        lemma_digits_value(n / 10, (w - 1) as nat);
        let s = spec_digits(n, w);
        assert(s.drop_last() =~= spec_digits(n / 10, (w - 1) as nat));
        assert(spec_digit_val(digit_char(n % 10)) == n % 10);
        vstd::arithmetic::div_mod::lemma_fundamental_div_mod(n as int, 10);
    }
}

/// A digit is never a sign character.
proof fn lemma_digit_not_sign(s: Seq<char>)
    requires
        all_digits(s),
    ensures
        forall|i: int| 0 <= i < s.len() ==> s[i] != '+' && s[i] != '-',
{
    assert forall|i: int| 0 <= i < s.len() implies s[i] != '+' && s[i] != '-' by {
        assert(spec_digit_val(s[i]) < 10);
    }
}

/// Law: the stored timestamp encoding is reversible — parsing what
/// `encode_ts` writes for any timestamp in the store's domain gives back
/// exactly that timestamp, offset included.
pub proof fn lemma_encode_parse_round_trip(t: Timestamp)
    requires
        ts_valid(t),
    ensures
        spec_parse_ts(spec_encode_ts(t)) == Some(t),
{
    reveal_with_fuel(pow10, 13);
    assert(pow10(12) == 1_000_000_000_000);
    assert(pow10(5) == 100_000);
    let mag: nat = (if t.offset < 0 {
        -(t.offset as int)
    } else {
        t.offset as int
    }) as nat;
    lemma_digits_value(t.utc as nat, TS_DIGITS as nat);
    lemma_digits_value(mag, OFF_DIGITS as nat);
    let s = spec_encode_ts(t);
    assert(s.subrange(0, TS_DIGITS as int) =~= spec_digits(t.utc as nat, TS_DIGITS as nat));
    assert(s[TS_DIGITS as int] == spec_sign_char(t.offset as int));
    assert(s.subrange(TS_DIGITS as int + 1, TS_TEXT_LEN as int) =~= spec_digits(
        mag,
        OFF_DIGITS as nat,
    ));
    lemma_digit_not_sign(spec_digits(t.utc as nat, TS_DIGITS as nat));
    if t.offset < 0 {
        assert(spec_parse_ts(s) == Some(t));
    } else {
        assert(spec_parse_ts(s) == Some(t));
    }
}

/// The decimal digits of a number, zero-padded to the given width.
fn digits(n: u64, w: usize) -> (s: String)
    ensures
        s@ == spec_digits(n as nat, w as nat),
    decreases w,
{
    if w == 0 {
        String::new()
    } else {
        let mut s = digits(n / 10, w - 1);
        s.append(crate::fmt::digit_str((n % 10) as u128));
        proof {
            assert(s@ =~= spec_digits((n / 10) as nat, (w - 1) as nat).push(
                digit_char((n % 10) as nat),
            ));
        }
        s
    }
}

/// Encodes a timestamp for storage.
pub fn encode_ts(t: Timestamp) -> (s: String)
    requires
        ts_valid(t),
    ensures
        s@ == spec_encode_ts(t),
        s@.len() == TS_TEXT_LEN,
        spec_parse_ts(s@) == Some(t),
{
    proof {
        lemma_encode_parse_round_trip(t);
        reveal_with_fuel(pow10, 13);
        lemma_digits_value(t.utc as nat, TS_DIGITS as nat);
        lemma_digits_value(
            (if t.offset < 0 {
                -(t.offset as int)
            } else {
                t.offset as int
            }) as nat,
            OFF_DIGITS as nat,
        );
    }
    let mut s = digits(t.utc as u64, TS_DIGITS);
    let mag: u64 = if t.offset < 0 {
        (-(t.offset as i64)) as u64
    } else {
        t.offset as u64
    };
    if t.offset < 0 {
        s.append("-");
    } else {
        s.append("+");
    }
    let tail = digits(mag, OFF_DIGITS);
    s.append(tail.as_str());
    proof {
        reveal_strlit("+");
        reveal_strlit("-");
        assert(s@ =~= spec_encode_ts(t));
    }
    s
}

/// The value of one digit character, or ten for anything else.
fn digit_val(c: char) -> (v: u8)
    ensures
        v == spec_digit_val(c),
{
    match c {
        '0' => 0,
        '1' => 1,
        '2' => 2,
        '3' => 3,
        '4' => 4,
        '5' => 5,
        '6' => 6,
        '7' => 7,
        '8' => 8,
        '9' => 9,
        _ => 10,
    }
}

/// The value of a run of digit characters inside the text.
fn parse_digits(s: &str, from: usize, to: usize) -> (r: Option<i64>)
    requires
        from <= to <= s@.len(),
        to - from <= TS_DIGITS,
    ensures
        r matches Some(v) ==> all_digits(s@.subrange(from as int, to as int)) && v
            == spec_digits_value(s@.subrange(from as int, to as int)) && 0 <= v < pow10(
            (to - from) as nat,
        ),
        r is None ==> !all_digits(s@.subrange(from as int, to as int)),
{
    let mut acc: i64 = 0;
    let mut i: usize = from;
    while i < to
        invariant
            from <= i <= to <= s@.len(),
            to - from <= TS_DIGITS,
            acc == spec_digits_value(s@.subrange(from as int, i as int)),
            0 <= acc < pow10((i - from) as nat),
            forall|k: int| from <= k < i ==> spec_digit_val(#[trigger] s@[k]) < 10,
        decreases to - i,
    {
        let c = s.get_char(i);
        let d = digit_val(c);
        if d >= 10 {
            proof {
                let sub = s@.subrange(from as int, to as int);
                assert(sub[i - from] == s@[i as int]);
            }
            return None;
        }
        proof {
            assert(s@.subrange(from as int, i + 1).drop_last() =~= s@.subrange(
                from as int,
                i as int,
            ));
            assert(s@.subrange(from as int, i + 1).last() == s@[i as int]);
            reveal_with_fuel(pow10, 13);
            assert(acc * 10 + d < pow10((i + 1 - from) as nat)) by (nonlinear_arith)
                requires
                    0 <= acc < pow10((i - from) as nat),
                    d < 10,
                    pow10((i + 1 - from) as nat) == 10 * pow10((i - from) as nat),
            ;
            assert(pow10((i + 1 - from) as nat) <= pow10(12)) by {
                lemma_pow10_increases((i + 1 - from) as nat, 12);
            }
        }
        acc = acc * 10 + d as i64;
        i = i + 1;
    }
    proof {
        assert forall|k: int|
            0 <= k < s@.subrange(from as int, to as int).len() implies spec_digit_val(
            #[trigger] s@.subrange(from as int, to as int)[k],
        ) < 10 by {
            assert(s@.subrange(from as int, to as int)[k] == s@[from + k]);
        }
    }
    Some(acc)
}

/// Parses a stored timestamp text, as `spec_parse_ts` defines it: `None`
/// for anything that does not have exactly the encoding's shape.
pub fn parse_ts(s: &str) -> (r: Option<Timestamp>)
    ensures
        r == spec_parse_ts(s@),
{
    let n = s.unicode_len();
    if n != TS_TEXT_LEN {
        return None;
    }
    let utc = match parse_digits(s, 0, TS_DIGITS) {
        Some(v) => v,
        None => {
            return None;
        }
    };
    let sign = s.get_char(TS_DIGITS);
    if sign != '+' && sign != '-' {
        return None;
    }
    let mag = match parse_digits(s, TS_DIGITS + 1, TS_TEXT_LEN) {
        Some(v) => v,
        None => {
            return None;
        }
    };
    proof {
        reveal_with_fuel(pow10, 13);
    }
    let offset: i32 = if sign == '-' {
        -(mag as i32)
    } else {
        mag as i32
    };
    Some(Timestamp { utc, offset })
}

/// `pow10` grows with its exponent.
proof fn lemma_pow10_increases(a: nat, b: nat)
    requires
        a <= b,
    ensures
        pow10(a) <= pow10(b),
    decreases b,
{
    if a < b {
        lemma_pow10_increases(a, (b - 1) as nat);
        assert(pow10(b) == 10 * pow10((b - 1) as nat));
        assert(pow10((b - 1) as nat) >= 1) by {
            lemma_pow10_positive((b - 1) as nat);
        }
    }
}

/// `pow10` is positive.
proof fn lemma_pow10_positive(w: nat)
    ensures
        pow10(w) >= 1,
    decreases w,
{
    if w > 0 {
        lemma_pow10_positive((w - 1) as nat);
    }
}

} // verus!
