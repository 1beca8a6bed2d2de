//! The store itself: the block table, the tag table and the schema shape,
//! owned together, plus the loader that rebuilds a store from persisted
//! rows.

use vstd::prelude::*;

use crate::blocks::{
    at_most_one_running, blocks_ids_below, blocks_unique_ids, row_valid, BlockRow, Blocks,
};
use crate::error::StoreError;
use crate::migrations::{spec_version, Schema, CURRENT_VERSION};
use crate::stopwatch::StopWatch;
use crate::tags::{
    tags_ids_below, tags_names_nonempty, tags_unique_ids, tags_unique_names, TagRow, Tags,
};
use crate::time::{ts_valid, Timestamp, MAX_OFFSET, MAX_TS};

verus! {

/// The persistent store: both tables and the schema shape they live in.
pub struct Database {
    pub blocks: Blocks,
    pub tags: Tags,
    pub schema: Schema,
}

/// No tag row carries the marker of a column the schema does not have.
pub open spec fn tags_match_schema(schema: Schema, rows: Seq<TagRow>) -> bool {
    &&& !schema.tags_protected_col ==> forall|i: int|
        0 <= i < rows.len() ==> !(#[trigger] rows[i]).protected
    &&& !schema.tags_to_delete_col ==> forall|i: int|
        0 <= i < rows.len() ==> !(#[trigger] rows[i]).to_delete
}

impl Database {
    /// The store is well formed: both tables are, and the data matches the
    /// schema shape — absent tables hold no rows, absent marker columns
    /// hold no markers.
    pub open spec fn wf(self) -> bool {
        &&& self.blocks.wf()
        &&& self.tags.wf()
        &&& self.schema.has_tags == self.schema.has_time_blocks
        &&& !self.schema.has_time_blocks ==> self.blocks.rows@.len() == 0 && self.blocks.next_id
            == 0
        &&& !self.schema.has_tags ==> self.tags.rows@.len() == 0 && self.tags.next_id == 0
        &&& tags_match_schema(self.schema, self.tags.rows@)
    }

    /// A fresh, empty store at the current schema version.
    pub fn new() -> (db: Database)
        ensures
            db.wf(),
            db.schema == crate::migrations::spec_current_schema(),
            spec_version(db.schema) == Some(CURRENT_VERSION),
            db.blocks.rows@ == Seq::<BlockRow>::empty(),
            db.blocks.next_id == 0,
            db.tags.rows@ == Seq::<TagRow>::empty(),
            db.tags.next_id == 0,
    {
        Database { blocks: Blocks::new(), tags: Tags::new(), schema: Schema::current() }
    }

    /// The block table, for queries.  Mutations go through the public
    /// fields or the stopwatch.
    pub fn blocks(&self) -> (r: &Blocks)
        ensures
            *r == self.blocks,
    {
        &self.blocks
    }

    /// The tag table, for queries.
    pub fn tags(&self) -> (r: &Tags)
        ensures
            *r == self.tags,
    {
        &self.tags
    }

    /// A stopwatch pinned to the current local time.
    pub fn stopwatch(&self) -> (r: StopWatch)
        ensures
            ts_valid(r.now),
    {
        StopWatch { now: now_timestamp() }
    }
}

/// Persisted rows that a well-formed current-version store can hold: ids
/// unique and not exhausted, at most one block running, timestamps in
/// domain, tag names unique and non-empty, no marker of the dropped
/// `protected` column.
pub open spec fn rows_admissible(blocks: Seq<BlockRow>, tags: Seq<TagRow>) -> bool {
    &&& blocks_unique_ids(blocks)
    &&& at_most_one_running(blocks)
    &&& (forall|i: int| 0 <= i < blocks.len() ==> row_valid(#[trigger] blocks[i]))
    &&& (forall|i: int| 0 <= i < blocks.len() ==> (#[trigger] blocks[i]).id < u64::MAX)
    &&& tags_unique_ids(tags)
    &&& tags_unique_names(tags)
    &&& tags_names_nonempty(tags)
    &&& (forall|i: int| 0 <= i < tags.len() ==> (#[trigger] tags[i]).id < u64::MAX)
    &&& (forall|i: int| 0 <= i < tags.len() ==> !(#[trigger] tags[i]).protected)
}

/// A persisted id counter is usable when every row's id lies below it, so
/// no id is ever handed out twice across restarts.
pub open spec fn block_counter_ok(rows: Seq<BlockRow>, c: Option<u64>) -> bool {
    match c {
        None => true,
        Some(n) => blocks_ids_below(rows, n),
    }
}

/// As `block_counter_ok`, for the tag table.
pub open spec fn tag_counter_ok(rows: Seq<TagRow>, c: Option<u64>) -> bool {
    match c {
        None => true,
        Some(n) => tags_ids_below(rows, n),
    }
}

/// Rebuilds a store at the current schema version from persisted rows,
/// validating every invariant the store relies on.  Rows that no
/// well-formed store could hold — or a persisted id counter that some row
/// has already reached — are rejected as an `IntegrityFault`.
///
/// The counters are the persisted "next fresh id" values; passing them
/// keeps ids never-reused across restarts.  Without one (a store from
/// before the counters were recorded) the counter restarts just above the
/// highest id still present.
pub fn from_rows(
    blocks_in: Vec<BlockRow>,
    tags_in: Vec<TagRow>,
    block_counter: Option<u64>,
    tag_counter: Option<u64>,
) -> (r: Result<Database, StoreError>)
    ensures
        (rows_admissible(blocks_in@, tags_in@) && block_counter_ok(blocks_in@, block_counter)
            && tag_counter_ok(tags_in@, tag_counter)) <==> r is Ok,
        r matches Ok(db) ==> {
            &&& db.wf()
            &&& db.blocks.rows@ == blocks_in@
            &&& db.tags.rows@ == tags_in@
            &&& spec_version(db.schema) == Some(CURRENT_VERSION)
            &&& block_counter matches Some(c) ==> db.blocks.next_id == c
            &&& tag_counter matches Some(c) ==> db.tags.next_id == c
        },
        r is Err ==> r == Err::<Database, StoreError>(StoreError::IntegrityFault),
{
    let computed_blocks = match check_block_rows(&blocks_in) {
        Some(next) => next,
        None => {
            return Err(StoreError::IntegrityFault);
        }
    };
    let blocks_next = match block_counter {
        None => computed_blocks,
        Some(c) => {
            if c < computed_blocks {
                proof {
                    let w = choose|k: int|
                        0 <= k < blocks_in@.len() && blocks_in@[k].id == computed_blocks - 1;
                    assert(!(blocks_in@[w].id < c));
                }
                return Err(StoreError::IntegrityFault);
            }
            c
        }
    };
    let computed_tags = match check_tag_rows(&tags_in) {
        Some(next) => next,
        None => {
            return Err(StoreError::IntegrityFault);
        }
    };
    let tags_next = match tag_counter {
        None => computed_tags,
        Some(c) => {
            if c < computed_tags {
                proof {
                    let w = choose|k: int|
                        0 <= k < tags_in@.len() && tags_in@[k].id == computed_tags - 1;
                    assert(!(tags_in@[w].id < c));
                }
                return Err(StoreError::IntegrityFault);
            }
            c
        }
    };
    Ok(
        Database {
            blocks: Blocks { rows: blocks_in, next_id: blocks_next },
            tags: Tags { rows: tags_in, next_id: tags_next },
            schema: Schema::current(),
        },
    )
}

/// Validates persisted block rows; hands back a fresh id bound when they
/// are admissible.
fn check_block_rows(rows: &Vec<BlockRow>) -> (r: Option<u64>)
    ensures
        r is Some <==> blocks_unique_ids(rows@) && at_most_one_running(rows@) && (forall|i: int|
            0 <= i < rows@.len() ==> row_valid(#[trigger] rows@[i])) && (forall|i: int|
            0 <= i < rows@.len() ==> (#[trigger] rows@[i]).id < u64::MAX),
        r matches Some(next) ==> blocks_ids_below(rows@, next) && (next == 0 || exists|k: int|
            0 <= k < rows@.len() && (#[trigger] rows@[k]).id == next - 1),
{
    let n = rows.len();
    let mut next: u64 = 0;
    let mut seen_running: bool = false;
    let mut i: usize = 0;
    while i < n
        invariant
            n == rows@.len(),
            i <= n,
            next == 0 || exists|k: int| 0 <= k < i && (#[trigger] rows@[k]).id == next - 1,
            forall|k: int| 0 <= k < i ==> (#[trigger] rows@[k]).id < next,
            forall|k: int| 0 <= k < i ==> (#[trigger] rows@[k]).id < u64::MAX,
            forall|k: int| 0 <= k < i ==> row_valid(#[trigger] rows@[k]),
            forall|a: int, b: int| 0 <= a < b < i ==> rows@[a].id != rows@[b].id,
            seen_running == exists|k: int| 0 <= k < i && (#[trigger] rows@[k]).running,
            forall|a: int, b: int|
                0 <= a < i && 0 <= b < i && (#[trigger] rows@[a]).running && (
                #[trigger] rows@[b]).running ==> a == b,
        decreases n - i,
    {
        let row = &rows[i];
        if row.id == u64::MAX {
            return None;
        }
        if row.start.utc < 0 || row.start.utc > MAX_TS || row.start.offset < -MAX_OFFSET
            || row.start.offset > MAX_OFFSET {
            return None;
        }
        if row.end.utc < 0 || row.end.utc > MAX_TS || row.end.offset < -MAX_OFFSET
            || row.end.offset > MAX_OFFSET {
            return None;
        }
        if row.running {
            if seen_running {
                return None;
            }
            seen_running = true;
        }
        let mut j: usize = 0;
        while j < i
            invariant
                n == rows@.len(),
                i < n,
                j <= i,
                row.id == rows@[i as int].id,
                forall|k: int| 0 <= k < j ==> rows@[k].id != rows@[i as int].id,
            decreases i - j,
        {
            if rows[j].id == row.id {
                return None;
            }
            j = j + 1;
        }
        if row.id >= next {
            next = row.id + 1;
        }
        i = i + 1;
    }
    proof {
        assert forall|a: int, b: int| 0 <= a < b < rows@.len() implies rows@[a].id
            != rows@[b].id by {}
    }
    Some(next)
}

/// Validates persisted tag rows; hands back a fresh id bound when they are
/// admissible.
fn check_tag_rows(rows: &Vec<TagRow>) -> (r: Option<u64>)
    ensures
        r is Some <==> tags_unique_ids(rows@) && tags_unique_names(rows@) && tags_names_nonempty(
            rows@,
        ) && (forall|i: int| 0 <= i < rows@.len() ==> (#[trigger] rows@[i]).id < u64::MAX) && (
        forall|i: int| 0 <= i < rows@.len() ==> !(#[trigger] rows@[i]).protected),
        r matches Some(next) ==> tags_ids_below(rows@, next) && (next == 0 || exists|k: int|
            0 <= k < rows@.len() && (#[trigger] rows@[k]).id == next - 1),
{
    let n = rows.len();
    let mut next: u64 = 0;
    let mut i: usize = 0;
    while i < n
        invariant
            n == rows@.len(),
            i <= n,
            next == 0 || exists|k: int| 0 <= k < i && (#[trigger] rows@[k]).id == next - 1,
            forall|k: int| 0 <= k < i ==> (#[trigger] rows@[k]).id < next,
            forall|k: int| 0 <= k < i ==> (#[trigger] rows@[k]).id < u64::MAX,
            forall|k: int| 0 <= k < i ==> !(#[trigger] rows@[k]).protected,
            forall|k: int| 0 <= k < i ==> (#[trigger] rows@[k]).name@.len() > 0,
            forall|a: int, b: int| 0 <= a < b < i ==> rows@[a].id != rows@[b].id,
            forall|a: int, b: int| 0 <= a < b < i ==> rows@[a].name@ != rows@[b].name@,
        decreases n - i,
    {
        let row = &rows[i];
        if row.id == u64::MAX || row.protected {
            return None;
        }
        if row.name.as_str().unicode_len() == 0 {
            return None;
        }
        let mut j: usize = 0;
        while j < i
            invariant
                n == rows@.len(),
                i < n,
                j <= i,
                row.id == rows@[i as int].id,
                row.name@ == rows@[i as int].name@,
                forall|k: int| 0 <= k < j ==> rows@[k].id != rows@[i as int].id,
                forall|k: int| 0 <= k < j ==> rows@[k].name@ != rows@[i as int].name@,
            decreases i - j,
        {
            let other = &rows[j];
            if other.id == row.id {
                return None;
            }
            if other.name == row.name {
                return None;
            }
            j = j + 1;
        }
        if row.id >= next {
            next = row.id + 1;
        }
        i = i + 1;
    }
    Some(next)
}

/// Relies on std's `SystemTime::now` and `duration_since(UNIX_EPOCH)`:
/// the machine clock, read as whole seconds from the Unix epoch.  The
/// value depends on the clock, so nothing is promised of it.  Total: a
/// clock before the epoch reads as the error branch and is mapped to 0,
/// and a count beyond `i64` is mapped to `i64::MAX`; nothing panics.
#[verifier::external_body]
fn now_unix_seconds() -> (r: i64) {
    match std::time::SystemTime::now().duration_since(std::time::UNIX_EPOCH) {
        Ok(d) => i64::try_from(d.as_secs()).unwrap_or(i64::MAX),
        Err(_) => 0,
    }
}

/// Relies on chrono's `TimeZone::offset_from_utc_datetime` for `Local`
/// (`local_minus_utc` reads the offset out in seconds): the local zone's
/// offset from UTC at the given instant.  The value depends on the
/// machine's time zone, so nothing is promised of it.  The instant is
/// kept inside the store's domain, where chrono's offset lookup does not
/// fail for any time-zone database chrono itself accepts (its TZ parser
/// rejects offsets that do not fit a `FixedOffset`, and unreadable zone
/// data falls back to UTC); an instant chrono cannot represent reads as
/// offset 0.
#[verifier::external_body]
fn local_offset_seconds(unix_secs: i64) -> (r: i32)
    requires
        0 <= unix_secs <= MAX_TS,
{
    match chrono::DateTime::from_timestamp(unix_secs, 0) {
        Some(dt) => chrono::TimeZone::offset_from_utc_datetime(&chrono::Local, &dt.naive_utc())
            .local_minus_utc(),
        None => 0,
    }
}

/// The current local time — the clock instant with the local zone's
/// offset — clamped into the store's timestamp domain.
pub fn now_timestamp() -> (t: Timestamp)
    ensures
        ts_valid(t),
{
    let u = now_unix_seconds();
    let utc = if u < 0 {
        0
    } else if u > MAX_TS {
        MAX_TS
    } else {
        u
    };
    let o = local_offset_seconds(utc);
    let offset = if o < -MAX_OFFSET {
        -MAX_OFFSET
    } else if o > MAX_OFFSET {
        MAX_OFFSET
    } else {
        o
    };
    Timestamp { utc, offset }
}

} // verus!
