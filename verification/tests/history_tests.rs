//! Tests for day/week aggregation, goals and duration display.

use timekeeper::fmt_duration;
use timekeeper::time::Timestamp;
use timekeeper::history::remaining_goal;
use timekeeper::history::weekday_of_day;
use timekeeper::Database;
use timekeeper::GoalState;
use timekeeper::History;
use timekeeper::Weekday;

const DAY: i64 = 86_400;
const HOUR: i64 = 3600;

fn ts(utc: i64) -> Timestamp {
    Timestamp { utc, offset: 0 }
}

// 1970-01-05 was a Monday: day 4.
const MONDAY: i64 = 4;

#[test]
fn weekday_anchor_is_thursday() {
    assert_eq!(weekday_of_day(0), Weekday::Thu);
    assert_eq!(weekday_of_day(1), Weekday::Fri);
    assert_eq!(weekday_of_day(MONDAY), Weekday::Mon);
    assert_eq!(weekday_of_day(MONDAY + 7), Weekday::Mon);
}

#[test]
fn start_of_week_lands_on_the_weekday() {
    // Wednesday day 6; week starting Monday begins at day 4.
    assert_eq!(History::start_of_week(6, Weekday::Mon), 4);
    // A Monday is its own week start.
    assert_eq!(History::start_of_week(MONDAY, Weekday::Mon), MONDAY);
    // Week starting Sunday: Sunday is day 3.
    assert_eq!(History::start_of_week(6, Weekday::Sun), 3);
    assert_eq!(weekday_of_day(History::start_of_week(123_456, Weekday::Sat)), Weekday::Sat);
}

#[test]
fn start_of_week_is_idempotent() {
    for day in [0, 5, 100, 12_345] {
        for wd in [Weekday::Mon, Weekday::Sun, Weekday::Wed] {
            let sow = History::start_of_week(day, wd);
            if sow >= 0 {
                assert_eq!(History::start_of_week(sow, wd), sow);
            }
        }
    }
}

#[test]
fn week_has_seven_consecutive_days_first_on_start_weekday() {
    let db = Database::new();
    let now = ts((MONDAY + 2) * DAY + 12 * HOUR);  // a Wednesday, noon
    let (total, days) = History::blocks_in_week(&db, now, Weekday::Mon).unwrap();
    assert_eq!(total, 0);
    assert_eq!(days.len(), 7);
    assert_eq!(weekday_of_day(days[0].day), Weekday::Mon);
    for i in 0..7 {
        assert_eq!(days[i].day, days[0].day + i as i64);
    }
}

#[test]
fn blocks_in_day_counts_full_duration_of_spanning_block() {
    // A block spanning midnight counts its full duration toward the day
    // containing its start.
    let mut db = Database::new();
    let day: i64 = 100;
    let start = day * DAY + 23 * HOUR;
    db.blocks.insert(ts(start), ts(start + 2 * HOUR), None, false).unwrap();

    let (total, blocks) = History::blocks_in_day(&db, ts(day * DAY + HOUR)).unwrap();
    assert_eq!(blocks.len(), 1);
    assert_eq!(total, (2 * HOUR) as i128);

    // the next day sees nothing of it
    let (next_total, next_blocks) = History::blocks_in_day(&db, ts((day + 1) * DAY + HOUR)).unwrap();
    assert_eq!(next_total, 0);
    assert!(next_blocks.is_empty());
}

#[test]
fn block_starting_at_midnight_belongs_to_that_day() {
    let mut db = Database::new();
    let day: i64 = 200;
    db.blocks.insert(ts(day * DAY), ts(day * DAY + HOUR), None, false).unwrap();
    let (total, blocks) = History::blocks_in_day(&db, ts(day * DAY)).unwrap();
    assert_eq!(blocks.len(), 1);
    assert_eq!(total, HOUR as i128);
}

#[test]
fn week_grand_total_sums_the_days() {
    let mut db = Database::new();
    let sow = MONDAY + 7 * 100;  // some Monday
    db.blocks.insert(ts(sow * DAY + HOUR), ts(sow * DAY + 2 * HOUR), None, false).unwrap();
    db.blocks.insert(ts((sow + 3) * DAY), ts((sow + 3) * DAY + 30 * 60), None, false).unwrap();
    // a block in the week before must not count
    db.blocks.insert(ts((sow - 1) * DAY), ts((sow - 1) * DAY + HOUR), None, false).unwrap();

    let now = ts((sow + 6) * DAY + 5 * HOUR);  // the Sunday of that week
    let (total, days) = History::blocks_in_week(&db, now, Weekday::Mon).unwrap();
    assert_eq!(days[0].day, sow);
    assert_eq!(total, (HOUR + 30 * 60) as i128);
    assert_eq!(days[0].total, HOUR as i128);
    assert_eq!(days[3].total, (30 * 60) as i128);
}

#[test]
fn remaining_goal_tri_state() {
    assert_eq!(remaining_goal(0, 100), GoalState::ZeroGoal);
    assert_eq!(remaining_goal(-5, 100), GoalState::ZeroGoal);
    assert_eq!(remaining_goal(3600, 0), GoalState::StillNeeds(3600));
    assert_eq!(remaining_goal(3600, 1800), GoalState::StillNeeds(1800));
    assert_eq!(remaining_goal(3600, 3600), GoalState::Reached);
    assert_eq!(remaining_goal(3600, 5000), GoalState::Reached);
    // negative elapsed time still just widens the remainder
    assert_eq!(remaining_goal(60, -60), GoalState::StillNeeds(120));
}

#[test]
fn remaining_goal_shrinks_as_time_accumulates() {
    let goal = 8 * HOUR;
    let mut last: i128 = i128::MAX;
    for elapsed in [0, HOUR, 2 * HOUR, 7 * HOUR, 8 * HOUR - 1] {
        match remaining_goal(goal, elapsed as i128) {
            GoalState::StillNeeds(n) => {
                assert!(n < last);
                last = n;
            }
            other => panic!("expected StillNeeds, got {:?}", other),
        }
    }
    assert_eq!(remaining_goal(goal, (8 * HOUR) as i128), GoalState::Reached);
}

#[test]
fn daily_and_weekly_goals_measure_store_totals() {
    let mut db = Database::new();
    let day = MONDAY + 7 * 50;
    let now = ts(day * DAY + 12 * HOUR);
    db.blocks.insert(ts(day * DAY + HOUR), ts(day * DAY + 3 * HOUR), None, false).unwrap();

    match History::remaining_daily_goal(&db, now, 8 * HOUR).unwrap() {
        GoalState::StillNeeds(n) => assert_eq!(n, (6 * HOUR) as i128),
        other => panic!("unexpected {:?}", other),
    }
    match History::remaining_weekly_goal(&db, now, Weekday::Mon, 2 * HOUR).unwrap() {
        GoalState::Reached => {}
        other => panic!("unexpected {:?}", other),
    }
}

#[test]
fn fmt_duration_exact_values() {
    assert_eq!(fmt_duration(5400), "1h 30m");
    assert_eq!(fmt_duration(3600), "1h 0m");
    assert_eq!(fmt_duration(90), "1m 30s");
    assert_eq!(fmt_duration(0), "0m 0s");
    assert_eq!(fmt_duration(59), "0m 59s");
    assert_eq!(fmt_duration(3599), "59m 59s");
    assert_eq!(fmt_duration(25 * 3600 + 60), "25h 1m");
    assert_eq!(fmt_duration(123_456_789), "34293h 33m");
}

#[test]
fn fmt_duration_clamps_negative_to_zero() {
    assert_eq!(fmt_duration(-1), "0m 0s");
    assert_eq!(fmt_duration(-987_654), "0m 0s");
}

#[test]
fn duration_and_day_respect_the_offset() {
    // A block recorded across a zone-offset change keeps its true elapsed
    // time: one hour of real time, although the civil clock jumped.
    let mut db = Database::new();
    let day: i64 = 300;
    let start = Timestamp { utc: day * DAY + 10 * HOUR, offset: 0 };
    let end = Timestamp { utc: day * DAY + 11 * HOUR, offset: 3600 };
    db.blocks.insert(start, end, None, false).unwrap();
    let (total, blocks) = History::blocks_in_day(&db, ts(day * DAY + HOUR)).unwrap();
    assert_eq!(blocks.len(), 1);
    assert_eq!(total, HOUR as i128);
    assert_eq!(blocks[0].duration(), HOUR as i128);

    // A block whose civil start reads past midnight belongs to that civil
    // day, although its instant lies before the day's first UTC second.
    let mut db2 = Database::new();
    let late = Timestamp { utc: day * DAY - 1800, offset: 3600 };  // 00:30 civil
    db2.blocks.insert(late, late, None, false).unwrap();
    let (_, in_day) = History::blocks_in_day(&db2, ts(day * DAY + HOUR)).unwrap();
    assert_eq!(in_day.len(), 1);
    let (_, day_before) = History::blocks_in_day(&db2, ts((day - 1) * DAY + HOUR)).unwrap();
    assert!(day_before.is_empty());
}
