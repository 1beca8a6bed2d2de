//! Day and week summaries over the store, and goal-progress figures.
//!
//! A block belongs to the day its start reads as in local civil time;
//! a block spanning midnight counts its full duration toward that day.
//! Weeks begin on a configurable weekday: the week containing a day
//! starts at the most recent day, possibly the same one, whose weekday
//! equals the configured start of week.

use vstd::prelude::*;
use vstd::arithmetic::div_mod::{
    lemma_fundamental_div_mod, lemma_mod_multiples_vanish, lemma_small_mod,
};

use crate::blocks::{
    all_resolve, block_matches_row, row_resolves, row_valid, total_of, Block, BlockRow,
};
use crate::database::Database;
use crate::error::StoreError;
use crate::tags::TagRow;
use crate::time::{
    civil_of, day_of, spec_civil, spec_day_of, ts_valid, Timestamp, MAX_DAY, MAX_TS,
};

verus! {

/// A day of the week.
#[derive(Clone, Copy, Debug, PartialEq, Eq, Structural)]
pub enum Weekday {
    Mon,
    Tue,
    Wed,
    Thu,
    Fri,
    Sat,
    Sun,
}

/// The position of a weekday in the week, counting Monday as 0.
pub open spec fn weekday_index(w: Weekday) -> int {
    match w {
        Weekday::Mon => 0,
        Weekday::Tue => 1,
        Weekday::Wed => 2,
        Weekday::Thu => 3,
        Weekday::Fri => 4,
        Weekday::Sat => 5,
        Weekday::Sun => 6,
    }
}

/// The weekday of a day number, as its position counting Monday as 0:
/// day 0 (1970-01-01) was a Thursday.
pub open spec fn spec_weekday_of_day(day: int) -> int {
    (day + 3) % 7
}

/// The most recent day, possibly `day` itself, whose weekday is `start`.
pub open spec fn spec_start_of_week(day: int, start: Weekday) -> int {
    day - ((spec_weekday_of_day(day) - weekday_index(start)) % 7)
}

/// The start of a week lies at most six days back and carries the
/// configured weekday.
pub proof fn lemma_start_of_week_weekday(day: int, start: Weekday)
    ensures
        spec_weekday_of_day(spec_start_of_week(day, start)) == weekday_index(start),
        day - 6 <= spec_start_of_week(day, start) <= day,
{
    let w = spec_weekday_of_day(day);
    let s = weekday_index(start);
    let off = (w - s) % 7;
    lemma_fundamental_div_mod(day + 3, 7);
    lemma_fundamental_div_mod(w - s, 7);
    let q = (day + 3) / 7;
    let k = (w - s) / 7;
    let sow = spec_start_of_week(day, start);
    assert(sow + 3 == 7 * (q + k) + s);
    lemma_mod_multiples_vanish(q + k, s, 7);
    lemma_small_mod(s as nat, 7);
}

/// Law: taking the start of the week is idempotent — the start of a week
/// is the start of its own week.
pub proof fn lemma_start_of_week_idempotent(day: int, start: Weekday)
    ensures
        spec_start_of_week(spec_start_of_week(day, start), start) == spec_start_of_week(
            day,
            start,
        ),
{
    lemma_start_of_week_weekday(day, start);
    let s = weekday_index(start);
    lemma_small_mod(0nat, 7);
}

/// The weekday of a day number, as executable code.  The domain covers
/// every day the store can mention, including the day before the epoch
/// that an offset can reach into.
pub fn weekday_of_day(day: i64) -> (w: Weekday)
    requires
        -8 <= day <= MAX_DAY + 8,
    ensures
        weekday_index(w) == spec_weekday_of_day(day as int),
{
    let m = (day + 31) % 7;
    proof {
        lemma_mod_multiples_vanish(4, day as int + 3, 7);
    }
    match m {
        0 => Weekday::Mon,
        1 => Weekday::Tue,
        2 => Weekday::Wed,
        3 => Weekday::Thu,
        4 => Weekday::Fri,
        5 => Weekday::Sat,
        _ => Weekday::Sun,
    }
}

/// The position of a weekday, as executable code.
pub fn weekday_number(w: Weekday) -> (n: u8)
    ensures
        n == weekday_index(w),
{
    match w {
        Weekday::Mon => 0,
        Weekday::Tue => 1,
        Weekday::Wed => 2,
        Weekday::Thu => 3,
        Weekday::Fri => 4,
        Weekday::Sat => 5,
        Weekday::Sun => 6,
    }
}

/// The bound every aggregate the store can produce stays under: a table
/// cannot hold more rows than `usize` counts, and no block is longer than
/// the timestamp domain.
pub const MAX_TOTAL: i128 = 253_402_300_800 * 18_446_744_073_709_551_615;

/// Progress toward a configured goal duration.
#[derive(Clone, Copy, Debug, PartialEq, Eq, Structural)]
pub enum GoalState {
    /// The goal duration is zero or negative: goal tracking is off.
    ZeroGoal,
    /// This many seconds are still missing.
    StillNeeds(i128),
    /// The elapsed time has reached the goal.
    Reached,
}

/// What remains of a goal after some elapsed time: disabled for a
/// non-positive goal, reached exactly when the elapsed time has caught up,
/// and the missing remainder otherwise.
pub open spec fn spec_remaining_goal(goal: int, elapsed: int) -> GoalState {
    if goal <= 0 {
        GoalState::ZeroGoal
    } else if elapsed >= goal {
        GoalState::Reached
    } else {
        GoalState::StillNeeds((goal - elapsed) as i128)
    }
}

/// Law: as elapsed time grows toward the goal, the missing remainder never
/// grows, and the goal reads `Reached` exactly when the elapsed time has
/// reached it.
pub proof fn lemma_remaining_goal_monotone(goal: i64, e1: i128, e2: i128)
    requires
        e1 <= e2,
        -8 * MAX_TOTAL <= e1,
        e2 <= 8 * MAX_TOTAL,
    ensures
        (spec_remaining_goal(goal as int, e1 as int) is StillNeeds && spec_remaining_goal(
            goal as int,
            e2 as int,
        ) is StillNeeds) ==> spec_remaining_goal(goal as int, e2 as int)->StillNeeds_0
            <= spec_remaining_goal(goal as int, e1 as int)->StillNeeds_0,
        goal > 0 ==> (spec_remaining_goal(goal as int, e2 as int) == GoalState::Reached <==> e2
            >= goal),
{
}

/// Computes the remaining goal.  `elapsed` is a figure the store produced,
/// so it stays within what any table of blocks can sum to.
pub fn remaining_goal(goal: i64, elapsed: i128) -> (r: GoalState)
    requires
        -8 * MAX_TOTAL <= elapsed <= 8 * MAX_TOTAL,
    ensures
        r == spec_remaining_goal(goal as int, elapsed as int),
{
    if goal <= 0 {
        GoalState::ZeroGoal
    } else if elapsed >= goal as i128 {
        GoalState::Reached
    } else {
        GoalState::StillNeeds(goal as i128 - elapsed)
    }
}

/// The block starts in the given civil day.
pub open spec fn row_in_day(r: BlockRow, day: int) -> bool {
    spec_day_of(spec_civil(r.start)) == day
}

/// The rows of blocks that start in the given civil day, in table order.
pub open spec fn day_rows(rows: Seq<BlockRow>, day: int) -> Seq<BlockRow>
    decreases rows.len(),
{
    if rows.len() == 0 {
        Seq::empty()
    } else {
        let prefix = day_rows(rows.drop_last(), day);
        if row_in_day(rows.last(), day) {
            prefix.push(rows.last())
        } else {
            prefix
        }
    }
}

/// Every selected row comes from the table and starts in the day.
pub proof fn lemma_in_day_props(rows: Seq<BlockRow>, day: int)
    ensures
        forall|i: int|
            0 <= i < day_rows(rows, day).len() ==> rows.contains(#[trigger] day_rows(rows, day)[i])
                && row_in_day(day_rows(rows, day)[i], day),
    decreases rows.len(),
{
    if rows.len() > 0 {
        lemma_in_day_props(rows.drop_last(), day);
        assert forall|i: int|
            0 <= i < rows.drop_last().len() && rows.drop_last().contains(
                rows.drop_last()[i],
            ) implies rows.contains(rows.drop_last()[i]) by {
            assert(rows[i] == rows.drop_last()[i]);
        }
        assert(rows.contains(rows.last()));
        let sel = day_rows(rows, day);
        let prefix = day_rows(rows.drop_last(), day);
        assert forall|i: int| 0 <= i < sel.len() implies rows.contains(sel[i]) && row_in_day(
            sel[i],
            day,
        ) by {
            if i < prefix.len() {
                assert(sel[i] == prefix[i]);
                let w = choose|j: int|
                    0 <= j < rows.drop_last().len() && rows.drop_last()[j] == prefix[i];
                assert(rows[w] == prefix[i]);
            }
        }
    }
}

/// A row that starts in the day is among the selected rows.
pub proof fn lemma_in_day_contains(rows: Seq<BlockRow>, day: int, i: int)
    requires
        0 <= i < rows.len(),
        row_in_day(rows[i], day),
    ensures
        day_rows(rows, day).contains(rows[i]),
    decreases rows.len(),
{
    if i == rows.len() - 1 {
        assert(rows.last() == rows[i]);
        let sel = day_rows(rows, day);
        assert(sel.last() == rows[i]);
    } else {
        lemma_in_day_contains(rows.drop_last(), day, i);
        assert(rows.drop_last()[i] == rows[i]);
        let prefix = day_rows(rows.drop_last(), day);
        let w = choose|j: int| 0 <= j < prefix.len() && prefix[j] == rows[i];
        let sel = day_rows(rows, day);
        assert(sel[w] == rows[i]);
    }
}

/// The total of one day of valid rows stays within `MAX_TOTAL`.
pub proof fn lemma_day_total_bound(rows: Seq<BlockRow>, day: int)
    requires
        forall|i: int| 0 <= i < rows.len() ==> row_valid(#[trigger] rows[i]),
        rows.len() <= 18_446_744_073_709_551_615,
    ensures
        -MAX_TOTAL <= total_of(day_rows(rows, day)) <= MAX_TOTAL,
        -(rows.len() * MAX_TS) <= total_of(day_rows(rows, day)) <= rows.len() * MAX_TS,
    decreases rows.len(),
{
    if rows.len() == 0 {
    } else {
        assert forall|i: int| 0 <= i < rows.drop_last().len() implies row_valid(
            #[trigger] rows.drop_last()[i],
        ) by {
            assert(rows.drop_last()[i] == rows[i]);
        }
        lemma_day_total_bound(rows.drop_last(), day);
        assert(row_valid(rows.last())) by {
            assert(rows.last() == rows[rows.len() - 1]);
        }
        let sel = day_rows(rows, day);
        let prefix = day_rows(rows.drop_last(), day);
        if row_in_day(rows.last(), day) {
            assert(sel == prefix.push(rows.last()));
            assert(sel.drop_last() =~= prefix);
            assert(sel.last() == rows.last());
        }
        assert(rows.len() * MAX_TS <= 18_446_744_073_709_551_615 * 253_402_300_800)
            by (nonlinear_arith)
            requires
                rows.len() <= 18_446_744_073_709_551_615,
        ;
    }
}

/// The sum of the day totals of `count` consecutive days from `first`.
pub open spec fn days_total(rows: Seq<BlockRow>, first: int, count: nat) -> int
    decreases count,
{
    if count == 0 {
        0
    } else {
        days_total(rows, first, (count - 1) as nat) + total_of(day_rows(rows, first + count - 1))
    }
}

/// Details of one day: its day number, the blocks that start in it, and
/// the sum of their full durations (a block spanning midnight counts its
/// whole duration toward the day containing its start).
pub struct DayBlock {
    pub day: i64,
    pub blocks: Vec<Block>,
    pub total: i128,
}

/// A `DayBlock` presents exactly the store's blocks of its day, resolved.
pub open spec fn day_block_ok(rows: Seq<BlockRow>, tags: Seq<TagRow>, d: DayBlock) -> bool {
    let sel = day_rows(rows, d.day as int);
    &&& d.total == total_of(sel)
    &&& d.blocks@.len() == sel.len()
    &&& forall|i: int|
        0 <= i < sel.len() ==> block_matches_row(#[trigger] d.blocks@[i], sel[i], tags)
}

/// The aggregation layer: day and week summaries and goal figures, all
/// derived from block-store queries.
pub struct History;

impl History {
    /// Removes a block by id, as an edit from the interface layer.
    /// Rejected with `NotFound` when the block no longer exists.
    pub fn delete_block(db: &mut Database, block: &Block) -> (r: Result<(), StoreError>)
        requires
            old(db).wf(),
        ensures
            final(db).wf(),
            final(db).tags == old(db).tags,
            final(db).schema == old(db).schema,
            !crate::blocks::has_block_id(old(db).blocks.rows@, block.id) ==> r == Err::<
                (),
                StoreError,
            >(StoreError::NotFound) && *final(db) == *old(db),
            crate::blocks::has_block_id(old(db).blocks.rows@, block.id) ==> {
                &&& r == Ok::<(), StoreError>(())
                &&& final(db).blocks.next_id == old(db).blocks.next_id
                &&& final(db).blocks.rows@ == crate::blocks::remove_id(
                    old(db).blocks.rows@,
                    block.id,
                )
            },
    {
        db.blocks.delete(block)
    }

    /// The summary of one day: the blocks starting in that civil day,
    /// resolved, with their summed duration.  A block in the day
    /// referencing a missing tag is an `IntegrityFault`.
    pub fn day_block(db: &Database, day: i64) -> (r: Result<DayBlock, StoreError>)
        requires
            db.wf(),
        ensures
            all_resolve(day_rows(db.blocks.rows@, day as int), db.tags.rows@) <==> r is Ok,
            r matches Ok(d) ==> d.day == day && day_block_ok(db.blocks.rows@, db.tags.rows@, d)
                && -MAX_TOTAL <= d.total <= MAX_TOTAL,
            !all_resolve(day_rows(db.blocks.rows@, day as int), db.tags.rows@) ==> r == Err::<
                DayBlock,
                StoreError,
            >(StoreError::IntegrityFault),
    {
        let rows = &db.blocks.rows;
        let n = rows.len();
        let mut out: Vec<Block> = Vec::new();
        let mut total: i128 = 0;
        let mut i: usize = 0;
        while i < n
            invariant
                n == rows@.len(),
                rows@ == db.blocks.rows@,
                i <= n,
                db.wf(),
                out@.len() == day_rows(rows@.take(i as int), day as int).len(),
                total == total_of(day_rows(rows@.take(i as int), day as int)),
                -MAX_TOTAL <= total <= MAX_TOTAL,
                all_resolve(day_rows(rows@.take(i as int), day as int), db.tags.rows@),
                forall|k: int|
                    0 <= k < out@.len() ==> block_matches_row(
                        #[trigger] out@[k],
                        day_rows(rows@.take(i as int), day as int)[k],
                        db.tags.rows@,
                    ),
            decreases n - i,
        {
            proof {
                assert(rows@.take(i + 1).drop_last() =~= rows@.take(i as int));
                assert(rows@.take(i + 1).last() == rows@[i as int]);
            }
            let row = &rows[i];
            let c = civil_of(row.start);
            let d = day_of(c);
            if d == day {
                match crate::blocks::to_blocks(row, &db.tags) {
                    Ok(b) => {
                        proof {
                            let taken = rows@.take(i + 1);
                            let sel = day_rows(taken, day as int);
                            assert(sel.drop_last() =~= day_rows(rows@.take(i as int), day as int));
                            assert forall|k: int| 0 <= k < taken.len() implies row_valid(
                                #[trigger] taken[k],
                            ) by {
                                assert(taken[k] == rows@[k]);
                            }
                            lemma_day_total_bound(taken, day as int);
                        }
                        out.push(b);
                        total = total + (row.end.utc as i128 - row.start.utc as i128);
                    },
                    Err(e) => {
                        proof {
                            lemma_in_day_contains(rows@, day as int, i as int);
                            let sel = day_rows(rows@, day as int);
                            let w = choose|k: int|
                                0 <= k < sel.len() && sel[k] == rows@[i as int];
                            assert(!row_resolves(sel[w], db.tags.rows@));
                        }
                        return Err(StoreError::IntegrityFault);
                    },
                }
            }
            i = i + 1;
        }
        proof {
            assert(rows@.take(n as int) =~= rows@);
        }
        Ok(DayBlock { day, blocks: out, total })
    }

    /// The blocks of the day containing `ts`, with their summed duration.
    pub fn blocks_in_day(db: &Database, ts: Timestamp) -> (r: Result<
        (i128, Vec<Block>),
        StoreError,
    >)
        requires
            db.wf(),
            ts_valid(ts),
        ensures
            all_resolve(day_rows(db.blocks.rows@, spec_day_of(spec_civil(ts))), db.tags.rows@)
                <==> r is Ok,
            r matches Ok((total, blocks)) ==> ({
                let sel = day_rows(db.blocks.rows@, spec_day_of(spec_civil(ts)));
                &&& total == total_of(sel)
                &&& -MAX_TOTAL <= total <= MAX_TOTAL
                &&& blocks@.len() == sel.len()
                &&& forall|i: int|
                    0 <= i < sel.len() ==> block_matches_row(
                        #[trigger] blocks@[i],
                        sel[i],
                        db.tags.rows@,
                    )
            }),
            r is Err ==> r == Err::<(i128, Vec<Block>), StoreError>(StoreError::IntegrityFault),
    {
        let day = day_of(civil_of(ts));
        match Self::day_block(db, day) {
            Ok(d) => Ok((d.total, d.blocks)),
            Err(e) => Err(e),
        }
    }

    /// The summed duration of the blocks of the day containing `ts`.
    pub fn total_time(db: &Database, ts: Timestamp) -> (r: Result<i128, StoreError>)
        requires
            db.wf(),
            ts_valid(ts),
        ensures
            all_resolve(day_rows(db.blocks.rows@, spec_day_of(spec_civil(ts))), db.tags.rows@)
                <==> r is Ok,
            r matches Ok(total) ==> total == total_of(
                day_rows(db.blocks.rows@, spec_day_of(spec_civil(ts))),
            ) && -MAX_TOTAL <= total <= MAX_TOTAL,
            r is Err ==> r == Err::<i128, StoreError>(StoreError::IntegrityFault),
    {
        match Self::blocks_in_day(db, ts) {
            Ok((total, _)) => Ok(total),
            Err(e) => Err(e),
        }
    }

    /// The most recent day, possibly `day` itself, whose weekday is
    /// `start`: the first day of the week containing `day`.
    pub fn start_of_week(day: i64, start: Weekday) -> (r: i64)
        requires
            -8 <= day <= MAX_DAY + 8,
        ensures
            r == spec_start_of_week(day as int, start),
            day - 6 <= r <= day,
            spec_weekday_of_day(r as int) == weekday_index(start),
    {
        proof {
            lemma_start_of_week_weekday(day as int, start);
        }
        let w = (day + 31) % 7;
        proof {
            lemma_mod_multiples_vanish(4, day as int + 3, 7);
        }
        let s = weekday_number(start) as i64;
        let diff = w - s;
        let off = if diff < 0 {
            diff + 7
        } else {
            diff
        };
        proof {
            if diff < 0 {
                vstd::arithmetic::div_mod::lemma_fundamental_div_mod_converse(
                    diff as int,
                    7,
                    -1,
                    diff as int + 7,
                );
            } else {
                lemma_small_mod(diff as nat, 7);
            }
        }
        day - off
    }

    /// The week containing the day of `ts`: seven `DayBlock`s for seven
    /// consecutive days, the first of them on the configured start-of-week
    /// weekday, with the grand total of their durations.  A block in the
    /// week referencing a missing tag is an `IntegrityFault`.
    pub fn blocks_in_week(db: &Database, ts: Timestamp, start: Weekday) -> (r: Result<
        (i128, Vec<DayBlock>),
        StoreError,
    >)
        requires
            db.wf(),
            ts_valid(ts),
        ensures
            ({
                let sow = spec_start_of_week(spec_day_of(spec_civil(ts)), start);
                &&& (forall|d: int|
                    sow <= d < sow + 7 ==> all_resolve(
                        #[trigger] day_rows(db.blocks.rows@, d),
                        db.tags.rows@,
                    )) <==> r is Ok
                &&& (r matches Ok((grand, days)) ==> {
                    &&& days@.len() == 7
                    &&& forall|i: int| 0 <= i < 7 ==> (#[trigger] days@[i]).day == sow + i
                    &&& spec_weekday_of_day(days@[0].day as int) == weekday_index(start)
                    &&& forall|i: int|
                        0 <= i < 7 ==> day_block_ok(
                            db.blocks.rows@,
                            db.tags.rows@,
                            #[trigger] days@[i],
                        )
                    &&& grand == days_total(db.blocks.rows@, sow, 7)
                    &&& -8 * MAX_TOTAL <= grand <= 8 * MAX_TOTAL
                })
                &&& (r is Err ==> r == Err::<(i128, Vec<DayBlock>), StoreError>(
                    StoreError::IntegrityFault,
                ))
            }),
    {
        proof {
            crate::time::lemma_civil_day_bounds(spec_civil(ts));
            lemma_start_of_week_weekday(spec_day_of(spec_civil(ts)), start);
        }
        let day = day_of(civil_of(ts));
        let sow = Self::start_of_week(day, start);
        let mut days: Vec<DayBlock> = Vec::new();
        let mut grand: i128 = 0;
        let mut i: u8 = 0;
        while i < 7
            invariant
                db.wf(),
                0 <= i <= 7,
                sow == spec_start_of_week(spec_day_of(spec_civil(ts)), start),
                -7 <= sow <= MAX_DAY,
                days@.len() == i,
                grand == days_total(db.blocks.rows@, sow as int, i as nat),
                -((i as int) * MAX_TOTAL) <= grand <= (i as int) * MAX_TOTAL,
                forall|k: int| 0 <= k < i ==> (#[trigger] days@[k]).day == sow + k,
                forall|k: int|
                    0 <= k < i ==> day_block_ok(db.blocks.rows@, db.tags.rows@, #[trigger] days@[k]),
                forall|k: int|
                    sow <= k < sow + i ==> all_resolve(
                        #[trigger] day_rows(db.blocks.rows@, k),
                        db.tags.rows@,
                    ),
            decreases 7 - i,
        {
            let d = match Self::day_block(db, sow + i as i64) {
                Ok(d) => d,
                Err(e) => {
                    return Err(StoreError::IntegrityFault);
                }
            };
            proof {
                assert((i as int) * MAX_TOTAL + MAX_TOTAL == (i as int + 1) * MAX_TOTAL)
                    by (nonlinear_arith);
                assert((i as int + 1) * MAX_TOTAL <= 8 * MAX_TOTAL) by (nonlinear_arith)
                    requires
                        0 <= i as int + 1 <= 8,
                ;
            }
            grand = grand + d.total;
            days.push(d);
            i = i + 1;
        }
        proof {
            assert(days@[0].day == sow);
        }
        Ok((grand, days))
    }

    /// Progress toward the daily goal: the goal measured against the
    /// summed duration of the blocks of the day containing `ts`.  Succeeds
    /// exactly when every block of that day resolves its tag; a dangling
    /// reference is an `IntegrityFault`.
    pub fn remaining_daily_goal(db: &Database, ts: Timestamp, goal: i64) -> (r: Result<
        GoalState,
        StoreError,
    >)
        requires
            db.wf(),
            ts_valid(ts),
        ensures
            all_resolve(day_rows(db.blocks.rows@, spec_day_of(spec_civil(ts))), db.tags.rows@)
                <==> r is Ok,
            r matches Ok(g) ==> g == spec_remaining_goal(
                goal as int,
                total_of(day_rows(db.blocks.rows@, spec_day_of(spec_civil(ts)))),
            ),
            r is Err ==> r == Err::<GoalState, StoreError>(StoreError::IntegrityFault),
    {
        match Self::total_time(db, ts) {
            Ok(total) => Ok(remaining_goal(goal, total)),
            Err(e) => Err(e),
        }
    }

    /// Progress toward the weekly goal: the goal measured against the
    /// grand total of the week containing `ts`.  Succeeds exactly when
    /// every block of that week resolves its tag; a dangling reference is
    /// an `IntegrityFault`.
    pub fn remaining_weekly_goal(db: &Database, ts: Timestamp, start: Weekday, goal: i64) -> (r:
        Result<GoalState, StoreError>)
        requires
            db.wf(),
            ts_valid(ts),
        ensures
            ({
                let sow = spec_start_of_week(spec_day_of(spec_civil(ts)), start);
                &&& ((forall|d: int|
                    sow <= d < sow + 7 ==> all_resolve(
                        #[trigger] day_rows(db.blocks.rows@, d),
                        db.tags.rows@,
                    )) <==> r is Ok)
                &&& (r matches Ok(g) ==> g == spec_remaining_goal(
                    goal as int,
                    days_total(db.blocks.rows@, sow, 7),
                ))
                &&& (r is Err ==> r == Err::<GoalState, StoreError>(StoreError::IntegrityFault))
            }),
    {
        match Self::blocks_in_week(db, ts, start) {
            Ok((grand, _)) => Ok(remaining_goal(goal, grand)),
            Err(e) => Err(e),
        }
    }
}

} // verus!
