//! The time domain of the engine.
//!
//! A timestamp carries its local time-zone offset: `utc` counts seconds
//! from the Unix epoch, and `offset` is the local zone's offset from UTC
//! at that moment, in seconds.  Elapsed time is the difference of the
//! `utc` instants, so a block spanning an offset change keeps its true
//! duration; calendar bucketing uses the local civil time `utc + offset`.
//! Days are counted in whole civil days from 1970-01-01.
//!
//! The store accepts instants from the epoch up to `MAX_TS`, the first
//! second of year 10000 UTC, with offsets up to a day in either direction.

use vstd::prelude::*;
use vstd::arithmetic::div_mod::{
    lemma_fundamental_div_mod, lemma_fundamental_div_mod_converse,
};

verus! {

/// Seconds in one day.
pub const SECS_PER_DAY: i64 = 86_400;

/// The last instant the store accepts: midnight starting year 10000, UTC.
pub const MAX_TS: i64 = 253_402_300_800;

/// The day number of `MAX_TS`: `MAX_TS == MAX_DAY * SECS_PER_DAY`.
pub const MAX_DAY: i64 = 2_932_897;

/// The widest time-zone offset the store accepts, in seconds: strictly
/// less than one day in either direction.
pub const MAX_OFFSET: i32 = 86_399;

/// An instant with its local time-zone offset.
#[derive(Clone, Copy, Debug, PartialEq, Eq, Structural)]
pub struct Timestamp {
    /// Seconds from the Unix epoch, UTC.
    pub utc: i64,
    /// The local zone's offset from UTC at that moment, in seconds.
    pub offset: i32,
}

/// A timestamp the store accepts.
pub open spec fn ts_valid(t: Timestamp) -> bool {
    &&& 0 <= t.utc <= MAX_TS
    &&& -MAX_OFFSET <= t.offset <= MAX_OFFSET
}

/// The local civil time a timestamp reads as, in seconds from the start
/// of 1970-01-01 civil time.
pub open spec fn spec_civil(t: Timestamp) -> int {
    t.utc + t.offset
}

/// The day that a civil time falls in.
pub open spec fn spec_day_of(c: int) -> int {
    c / (SECS_PER_DAY as int)
}

/// The civil seconds of every valid timestamp lie in this window.
pub open spec fn civil_in_domain(c: int) -> bool {
    -MAX_OFFSET <= c <= MAX_TS + MAX_OFFSET
}

/// A civil time `c` falls in day `d` exactly when it lies in
/// `[d * SECS_PER_DAY, (d + 1) * SECS_PER_DAY)`.
pub proof fn lemma_day_of_range(d: int, c: int)
    requires
        d * (SECS_PER_DAY as int) <= c < (d + 1) * (SECS_PER_DAY as int),
    ensures
        spec_day_of(c) == d,
{
    lemma_fundamental_div_mod_converse(
        c,
        SECS_PER_DAY as int,
        d,
        c - d * (SECS_PER_DAY as int),
    );
}

/// Every civil time in the domain lies between the midnight of its day
/// (inclusive) and the midnight of the next day (exclusive), and its day
/// stays within one day of the store's day range.
pub proof fn lemma_civil_day_bounds(c: int)
    requires
        civil_in_domain(c),
    ensures
        spec_day_of(c) * (SECS_PER_DAY as int) <= c < (spec_day_of(c) + 1) * (
        SECS_PER_DAY as int),
        -1 <= spec_day_of(c) <= MAX_DAY,
{
    lemma_fundamental_div_mod(c, SECS_PER_DAY as int);
    assert(0 <= c % (SECS_PER_DAY as int) < SECS_PER_DAY);
    if spec_day_of(c) < -1 {
        assert(c < -(SECS_PER_DAY as int));
    }
    if spec_day_of(c) > MAX_DAY {
        assert(c >= (MAX_DAY + 1) * (SECS_PER_DAY as int));
    }
}

/// The local civil seconds of a timestamp, as executable code.
pub fn civil_of(t: Timestamp) -> (c: i64)
    requires
        ts_valid(t),
    ensures
        c == spec_civil(t),
        civil_in_domain(c as int),
{
    t.utc + t.offset as i64
}

/// The day that a civil time falls in, as executable code.
pub fn day_of(c: i64) -> (d: i64)
    requires
        civil_in_domain(c as int),
    ensures
        d == spec_day_of(c as int),
        -1 <= d <= MAX_DAY,
{
    proof {
        lemma_civil_day_bounds(c as int);
    }
    if c >= 0 {
        c / SECS_PER_DAY
    } else {
        proof {
            lemma_day_of_range(-1, c as int);
        }
        -1
    }
}

} // verus!
