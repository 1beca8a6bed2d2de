//! Tests for schema version detection, migration and the store loader.

use timekeeper::blocks::{BlockRow, Blocks};
use timekeeper::time::Timestamp;
use timekeeper::database::from_rows;
use timekeeper::migrations::{database_version, migrate, Schema, CURRENT_VERSION};
use timekeeper::tags::{TagRow, Tags};
use timekeeper::Database;
use timekeeper::StoreError;

fn ts(utc: i64) -> Timestamp {
    Timestamp { utc, offset: 0 }
}

fn v1_store() -> Database {
    Database {
        blocks: Blocks {
            rows: vec![BlockRow { id: 0, start: ts(100), end: ts(200), tag: Some(7), running: false }],
            next_id: 1,
        },
        tags: Tags {
            rows: vec![TagRow {
                id: 7,
                name: "Work".to_string(),
                protected: true,
                to_delete: false,
            }],
            next_id: 8,
        },
        schema: Schema {
            has_tags: true,
            has_time_blocks: true,
            has_app_info: false,
            tags_protected_col: true,
            tags_to_delete_col: false,
            recorded_version: None,
        },
    }
}

fn empty_v0_store() -> Database {
    Database {
        blocks: Blocks { rows: vec![], next_id: 0 },
        tags: Tags { rows: vec![], next_id: 0 },
        schema: Schema {
            has_tags: false,
            has_time_blocks: false,
            has_app_info: false,
            tags_protected_col: false,
            tags_to_delete_col: false,
            recorded_version: None,
        },
    }
}

#[test]
fn version_is_inferred_structurally_below_two() {
    assert_eq!(database_version(&empty_v0_store().schema), Ok(0));
    assert_eq!(database_version(&v1_store().schema), Ok(1));
    assert_eq!(database_version(&Database::new().schema), Ok(CURRENT_VERSION));
}

#[test]
fn unreadable_version_record_is_a_migration_fault() {
    let mut db = Database::new();
    db.schema.recorded_version = None;
    assert_eq!(database_version(&db.schema), Err(StoreError::MigrationFault));
    assert_eq!(migrate(&mut db), Err(StoreError::MigrationFault));
}

#[test]
fn newer_store_is_refused() {
    let mut db = Database::new();
    db.schema.recorded_version = Some(CURRENT_VERSION + 1);
    assert_eq!(migrate(&mut db), Err(StoreError::MigrationFault));
    // untouched
    assert_eq!(db.schema.recorded_version, Some(CURRENT_VERSION + 1));
}

#[test]
fn v1_store_migrates_to_version_two() {
    // A v1-shaped store (no version table) ends at version 2: the version
    // record exists, the tag table carries the soft-delete column, and the
    // old "protected" column is gone; data is preserved.
    let mut db = v1_store();
    migrate(&mut db).unwrap();

    assert!(db.schema.has_app_info);
    assert_eq!(db.schema.recorded_version, Some(2));
    assert!(!db.schema.tags_protected_col);
    assert!(db.schema.tags_to_delete_col);
    assert_eq!(database_version(&db.schema), Ok(2));

    assert_eq!(db.tags.rows.len(), 1);
    assert_eq!(db.tags.rows[0].id, 7);
    assert_eq!(db.tags.rows[0].name, "Work");
    assert!(!db.tags.rows[0].protected);
    assert!(!db.tags.rows[0].to_delete);

    assert_eq!(db.blocks.rows.len(), 1);
    assert_eq!(db.blocks.rows[0].start, ts(100));
    assert_eq!(db.blocks.rows[0].end, ts(200));
    assert_eq!(db.blocks.rows[0].tag, Some(7));
}

#[test]
fn v0_store_migrates_to_version_two() {
    let mut db = empty_v0_store();
    migrate(&mut db).unwrap();
    assert!(db.schema.has_tags);
    assert!(db.schema.has_time_blocks);
    assert!(db.schema.has_app_info);
    assert_eq!(database_version(&db.schema), Ok(2));
}

#[test]
fn migrate_twice_leaves_store_unchanged() {
    // Idempotence: a second migrate is a no-op on version and data.
    let mut db = v1_store();
    migrate(&mut db).unwrap();

    let schema_snapshot = db.schema;
    let tag_names: Vec<String> = db.tags.rows.iter().map(|r| r.name.clone()).collect();
    let block_count = db.blocks.rows.len();

    migrate(&mut db).unwrap();

    assert_eq!(db.schema.has_app_info, schema_snapshot.has_app_info);
    assert_eq!(db.schema.recorded_version, schema_snapshot.recorded_version);
    assert_eq!(db.schema.tags_protected_col, schema_snapshot.tags_protected_col);
    assert_eq!(db.schema.tags_to_delete_col, schema_snapshot.tags_to_delete_col);
    let names_after: Vec<String> = db.tags.rows.iter().map(|r| r.name.clone()).collect();
    assert_eq!(names_after, tag_names);
    assert_eq!(db.blocks.rows.len(), block_count);
}

#[test]
fn from_rows_rebuilds_a_store() {
    let blocks = vec![
        BlockRow { id: 3, start: ts(100), end: ts(200), tag: Some(1), running: false },
        BlockRow { id: 5, start: ts(300), end: ts(300), tag: None, running: true },
    ];
    let tags = vec![TagRow { id: 1, name: "Work".to_string(), protected: false, to_delete: false }];
    let db = from_rows(blocks, tags, None, None).ok().unwrap();
    assert_eq!(db.blocks.rows.len(), 2);
    assert!(db.blocks.next_id > 5);
    assert!(db.tags.next_id > 1);
    let current = db.blocks.current(&db.tags).unwrap().unwrap();
    assert_eq!(current.start, ts(300));
}

#[test]
fn from_rows_rejects_two_running_blocks() {
    let blocks = vec![
        BlockRow { id: 1, start: ts(100), end: ts(200), tag: None, running: true },
        BlockRow { id: 2, start: ts(300), end: ts(300), tag: None, running: true },
    ];
    assert!(matches!(from_rows(blocks, vec![], None, None), Err(StoreError::IntegrityFault)));
}

#[test]
fn from_rows_rejects_duplicate_ids_and_names() {
    let dup_ids = vec![
        BlockRow { id: 1, start: ts(0), end: ts(0), tag: None, running: false },
        BlockRow { id: 1, start: ts(5), end: ts(5), tag: None, running: false },
    ];
    assert!(matches!(from_rows(dup_ids, vec![], None, None), Err(StoreError::IntegrityFault)));

    let dup_names = vec![
        TagRow { id: 1, name: "A".to_string(), protected: false, to_delete: false },
        TagRow { id: 2, name: "A".to_string(), protected: false, to_delete: false },
    ];
    assert!(matches!(from_rows(vec![], dup_names, None, None), Err(StoreError::IntegrityFault)));
}

#[test]
fn from_rows_rejects_out_of_domain_timestamps() {
    let blocks = vec![BlockRow { id: 1, start: ts(-5), end: ts(0), tag: None, running: false }];
    assert!(matches!(from_rows(blocks, vec![], None, None), Err(StoreError::IntegrityFault)));
}

#[test]
fn from_rows_honours_persisted_counters() {
    let blocks = vec![BlockRow { id: 3, start: ts(100), end: ts(200), tag: None, running: false }];
    let db = from_rows(blocks, vec![], Some(10), Some(4)).ok().unwrap();
    assert_eq!(db.blocks.next_id, 10);
    assert_eq!(db.tags.next_id, 4);
}

#[test]
fn from_rows_rejects_counter_already_reached() {
    // a counter at or below an existing id would let an id be reused
    let blocks = vec![BlockRow { id: 3, start: ts(100), end: ts(200), tag: None, running: false }];
    assert!(matches!(
        from_rows(blocks, vec![], Some(3), None),
        Err(StoreError::IntegrityFault)
    ));
}
