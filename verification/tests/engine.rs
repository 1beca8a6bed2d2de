//! Scenario tests for the stopwatch and the block/tag stores.

use timekeeper::blocks::BlockRow;
use timekeeper::time::Timestamp;
use timekeeper::Database;
use timekeeper::History;
use timekeeper::StopWatch;
use timekeeper::StoreError;
use timekeeper::Tag;

const HOUR: i64 = 3600;
const T: i64 = 1_000_000_000;

fn ts(utc: i64) -> Timestamp {
    Timestamp { utc, offset: 0 }
}

#[test]
fn start_then_stop_round_trip() {
    // Start at T, stop at T+90min: current() is none and the one block in
    // range has duration 90min.
    let mut db = Database::new();
    let sw = StopWatch::new(ts(T));
    sw.start(&mut db, None).unwrap();
    let sw2 = StopWatch::new(ts(T + 90 * 60));
    sw2.stop(&mut db).unwrap();

    let current = db.blocks.current(&db.tags).unwrap();
    assert!(current.is_none());

    let blocks = db.blocks.in_range(T - 60, T + 100 * 60, &db.tags).unwrap();
    assert_eq!(blocks.len(), 1);
    assert_eq!(blocks[0].duration(), 90 * 60);
    assert_eq!(blocks[0].start, ts(T));
    assert_eq!(blocks[0].end, ts(T + 90 * 60));
    assert!(!blocks[0].running);
}

#[test]
fn double_start_is_rejected() {
    // A second start without an intervening stop is rejected and the store
    // still holds exactly one running block.
    let mut db = Database::new();
    let sw = StopWatch::new(ts(T));
    sw.start(&mut db, None).unwrap();
    let again = StopWatch::new(ts(T + 5));
    assert_eq!(again.start(&mut db, None), Err(StoreError::UniquenessViolation));

    let running: Vec<&BlockRow> = db.blocks.rows.iter().filter(|r| r.running).collect();
    assert_eq!(running.len(), 1);
    assert_eq!(db.blocks.rows.len(), 1);
}

#[test]
fn stop_while_stopped_is_rejected() {
    let mut db = Database::new();
    let sw = StopWatch::new(ts(T));
    assert_eq!(sw.stop(&mut db), Err(StoreError::NotFound));
    assert!(db.blocks.rows.is_empty());
}

#[test]
fn insert_and_read_back_with_tag() {
    // Round trip: a block written with a given start, end and tag reads
    // back with equal start, end and resolved tag.
    let mut db = Database::new();
    let tag = db.tags.create("Focus").unwrap();
    let sw = StopWatch::new(ts(T));
    sw.start(&mut db, Some(tag.clone())).unwrap();

    let blocks = db.blocks.in_range(T - 1, T + 1, &db.tags).unwrap();
    assert_eq!(blocks.len(), 1);
    assert_eq!(blocks[0].start, ts(T));
    assert_eq!(blocks[0].end, ts(T));
    let resolved = blocks[0].tag.as_ref().unwrap();
    assert_eq!(resolved.name, "Focus");
    assert!(*resolved == tag);
}

#[test]
fn rename_updates_resolved_tag_without_reattaching() {
    // Create "Focus", attach it, rename it to "Deep Focus": the block's
    // resolved tag name updates, and the tag is still the same tag.
    let mut db = Database::new();
    let tag = db.tags.create("Focus").unwrap();
    let sw = StopWatch::new(ts(T));
    sw.start(&mut db, Some(tag.clone())).unwrap();

    db.tags.rename(&tag, "Deep Focus").unwrap();

    let current = db.blocks.current(&db.tags).unwrap().unwrap();
    let resolved = current.tag.as_ref().unwrap();
    assert_eq!(resolved.name, "Deep Focus");
    assert!(*resolved == tag);
}

#[test]
fn update_refreshes_running_end_only() {
    let mut db = Database::new();
    StopWatch::new(ts(T)).start(&mut db, None).unwrap();
    let sw = StopWatch::new(ts(T + 50));
    let current = sw.current(&mut db).unwrap().unwrap();
    assert_eq!(current.start, ts(T));
    assert_eq!(current.end, ts(T + 50));
    assert!(current.running);
}

#[test]
fn current_of_stopped_store_is_none() {
    let mut db = Database::new();
    let sw = StopWatch::new(ts(T));
    assert_eq!(sw.current(&mut db).unwrap().is_none(), true);
}

#[test]
fn delete_running_block_ends_tracking() {
    let mut db = Database::new();
    StopWatch::new(ts(T)).start(&mut db, None).unwrap();
    let current = db.blocks.current(&db.tags).unwrap().unwrap();
    History::delete_block(&mut db, &current).unwrap();
    assert!(db.blocks.current(&db.tags).unwrap().is_none());
    assert!(db.blocks.rows.is_empty());
}

#[test]
fn delete_missing_block_is_not_found() {
    let mut db = Database::new();
    let id = db.blocks.insert(ts(T), ts(T + HOUR), None, false).unwrap();
    let blocks = db.blocks.in_range(T - 1, T + 1, &db.tags).unwrap();
    db.blocks.delete(&blocks[0]).unwrap();
    assert_eq!(db.blocks.delete(&blocks[0]), Err(StoreError::NotFound));
    assert_eq!(blocks[0].id(), id);
}

#[test]
fn ids_are_never_reused() {
    let mut db = Database::new();
    db.blocks.insert(ts(T), ts(T), None, false).unwrap();
    let blocks = db.blocks.in_range(T - 1, T + 1, &db.tags).unwrap();
    db.blocks.delete(&blocks[0]).unwrap();
    let second = db.blocks.insert(ts(T), ts(T), None, false).unwrap();
    assert_ne!(blocks[0].id(), second);
}

#[test]
fn update_tag_rewrites_reference() {
    let mut db = Database::new();
    let work = db.tags.create("Work").unwrap();
    let play = db.tags.create("Play").unwrap();
    StopWatch::new(ts(T)).start(&mut db, Some(work)).unwrap();

    let mut block = db.blocks.current(&db.tags).unwrap().unwrap();
    block.tag = Some(play.clone());
    db.blocks.update_tag(&block).unwrap();

    let current = db.blocks.current(&db.tags).unwrap().unwrap();
    assert_eq!(current.tag.as_ref().unwrap().name, "Play");
}

#[test]
fn total_time_sums_all_blocks() {
    let mut db = Database::new();
    db.blocks.insert(ts(T), ts(T + HOUR), None, false).unwrap();
    db.blocks.insert(ts(T + 2 * HOUR), ts(T + 3 * HOUR + 1800), None, false).unwrap();
    assert_eq!(db.blocks.total_time(), (HOUR + HOUR + 1800) as i128);
}

#[test]
fn in_range_bounds_are_exclusive() {
    let mut db = Database::new();
    db.blocks.insert(ts(T), ts(T), None, false).unwrap();
    // start strictly between the bounds: endpoints themselves do not match
    assert_eq!(db.blocks.in_range(T, T + 1, &db.tags).unwrap().len(), 0);
    assert_eq!(db.blocks.in_range(T - 1, T, &db.tags).unwrap().len(), 0);
    assert_eq!(db.blocks.in_range(T - 1, T + 1, &db.tags).unwrap().len(), 1);
}

#[test]
fn dangling_tag_reference_is_integrity_fault() {
    let mut db = Database::new();
    db.blocks.insert(ts(T), ts(T), Some(99), true).unwrap();
    assert!(matches!(db.blocks.current(&db.tags), Err(StoreError::IntegrityFault)));
    assert!(matches!(
        db.blocks.in_range(T - 1, T + 1, &db.tags),
        Err(StoreError::IntegrityFault)
    ));
}

#[test]
fn tag_equality_is_identity_not_name() {
    let a = Tag { id: 1, name: "A".to_string() };
    let same_id = Tag { id: 1, name: "B".to_string() };
    let same_name = Tag { id: 2, name: "A".to_string() };
    assert!(a == same_id);
    assert!(a != same_name);
}

#[test]
fn create_duplicate_tag_name_is_rejected() {
    let mut db = Database::new();
    db.tags.create("Focus").unwrap();
    assert!(matches!(db.tags.create("Focus"), Err(StoreError::UniquenessViolation)));
}

#[test]
fn create_empty_tag_name_is_rejected() {
    let mut db = Database::new();
    assert!(matches!(db.tags.create(""), Err(StoreError::InvalidName)));
}

#[test]
fn rename_to_taken_name_is_rejected() {
    let mut db = Database::new();
    let a = db.tags.create("A").unwrap();
    db.tags.create("B").unwrap();
    assert_eq!(db.tags.rename(&a, "B"), Err(StoreError::UniquenessViolation));
    // renaming to its own name is allowed
    db.tags.rename(&a, "A").unwrap();
}

#[test]
fn rename_missing_tag_is_not_found() {
    let mut db = Database::new();
    let ghost_tag = Tag { id: 42, name: "Gone".to_string() };
    assert_eq!(db.tags.rename(&ghost_tag, "New"), Err(StoreError::NotFound));
}

#[test]
fn deleted_tag_is_hidden_but_preserved() {
    let mut db = Database::new();
    let tag = db.tags.create("Old").unwrap();
    StopWatch::new(ts(T)).start(&mut db, Some(tag.clone())).unwrap();
    db.tags.delete(&tag).unwrap();

    // hidden from the listing
    assert!(db.tags.all().is_empty());
    // but the block still resolves against it
    let current = db.blocks.current(&db.tags).unwrap().unwrap();
    assert_eq!(current.tag.as_ref().unwrap().name, "Old");
    // and its name keeps occupying the uniqueness constraint
    assert!(matches!(db.tags.create("Old"), Err(StoreError::UniquenessViolation)));
}

#[test]
fn all_lists_live_tags_in_insertion_order() {
    let mut db = Database::new();
    db.tags.create("A").unwrap();
    let b = db.tags.create("B").unwrap();
    db.tags.create("C").unwrap();
    db.tags.delete(&b).unwrap();
    let names: Vec<String> = db.tags.all().into_iter().map(|t| t.name).collect();
    assert_eq!(names, vec!["A".to_string(), "C".to_string()]);
}

#[test]
fn stopwatch_clock_is_in_domain() {
    // runs the real clock behind Database::stopwatch
    let db = Database::new();
    let sw = db.stopwatch();
    assert!(sw.now.utc >= 0 && sw.now.utc <= timekeeper::time::MAX_TS);
    assert!(sw.now.offset.abs() <= timekeeper::time::MAX_OFFSET);
    assert!(sw.now.utc > 0);
}

#[test]
fn capacity_exhaustion_is_reported() {
    let mut db = Database::new();
    db.blocks.next_id = u64::MAX;
    assert_eq!(
        db.blocks.insert(ts(T), ts(T), None, false),
        Err(StoreError::CapacityExhausted)
    );
    db.tags.next_id = u64::MAX;
    assert!(matches!(db.tags.create("X"), Err(StoreError::CapacityExhausted)));
}
