//! The start/stop state machine over the block store.
//!
//! The stopwatch holds no state of its own beyond the observation time it
//! was created at: the store is the state.  It is `Running` exactly when
//! the store holds a running block, and `Stopped` otherwise.  Starting
//! while running and stopping while stopped are caller errors, reported
//! and changing nothing.

use vstd::prelude::*;

use crate::blocks::{
    block_matches_row, has_running, row_refreshed, row_resolves, running_index, tag_id_of, Block,
    BlockRow,
};
use crate::database::Database;
use crate::error::StoreError;
use crate::tags::Tag;
use crate::time::{ts_valid, Timestamp};

verus! {

/// A stopwatch over the store, pinned to one observation time.
pub struct StopWatch {
    pub now: Timestamp,
}

impl StopWatch {
    /// A stopwatch pinned to the given time.
    pub fn new(now: Timestamp) -> (r: StopWatch)
        ensures
            r.now == now,
    {
        StopWatch { now }
    }

    /// Starts the stopwatch: inserts one block with `start = end = now`,
    /// running, carrying the given tag.  Starting while a block is already
    /// running is rejected with `UniquenessViolation` — the storage
    /// layer's uniqueness guarantee — and the store is unchanged.
    pub fn start(&self, db: &mut Database, tag: Option<Tag>) -> (r: Result<(), StoreError>)
        requires
            old(db).wf(),
            old(db).schema.has_time_blocks,
            ts_valid(self.now),
        ensures
            final(db).wf(),
            final(db).tags == old(db).tags,
            final(db).schema == old(db).schema,
            has_running(old(db).blocks.rows@) ==> r == Err::<(), StoreError>(
                StoreError::UniquenessViolation,
            ) && *final(db) == *old(db),
            !has_running(old(db).blocks.rows@) && old(db).blocks.next_id == u64::MAX ==> r
                == Err::<(), StoreError>(StoreError::CapacityExhausted) && *final(db) == *old(db),
            !has_running(old(db).blocks.rows@) && old(db).blocks.next_id < u64::MAX ==> {
                &&& r == Ok::<(), StoreError>(())
                &&& final(db).blocks.rows@ == old(db).blocks.rows@.push(
                    BlockRow {
                        id: old(db).blocks.next_id,
                        start: self.now,
                        end: self.now,
                        tag: tag_id_of(tag),
                        running: true,
                    },
                )
                &&& final(db).blocks.next_id == old(db).blocks.next_id + 1
                &&& has_running(final(db).blocks.rows@)
            },
    {
        let tag_id = match &tag {
            None => None,
            Some(t) => Some(t.id),
        };
        match db.blocks.insert(self.now, self.now, tag_id, true) {
            Ok(id) => {
                proof {
                    let rows = db.blocks.rows@;
                    assert(rows[rows.len() - 1].running);
                }
                Ok(())
            },
            Err(e) => Err(e),
        }
    }

    /// Stops the stopwatch: closes the running block with `end = now`.
    /// Stopping while no block is running is rejected with `NotFound` and
    /// the store is unchanged.
    pub fn stop(&self, db: &mut Database) -> (r: Result<(), StoreError>)
        requires
            old(db).wf(),
            old(db).schema.has_time_blocks,
            ts_valid(self.now),
        ensures
            final(db).wf(),
            final(db).tags == old(db).tags,
            final(db).schema == old(db).schema,
            !has_running(old(db).blocks.rows@) ==> r == Err::<(), StoreError>(StoreError::NotFound)
                && *final(db) == *old(db),
            has_running(old(db).blocks.rows@) ==> {
                &&& r == Ok::<(), StoreError>(())
                &&& !has_running(final(db).blocks.rows@)
                &&& final(db).blocks.next_id == old(db).blocks.next_id
                &&& final(db).blocks.rows@.len() == old(db).blocks.rows@.len()
                &&& forall|i: int|
                    0 <= i < old(db).blocks.rows@.len() ==> final(db).blocks.rows@[i] == (if old(
                        db,
                    ).blocks.rows@[i].running {
                        crate::blocks::row_stopped(old(db).blocks.rows@[i], self.now)
                    } else {
                        old(db).blocks.rows@[i]
                    })
            },
    {
        db.blocks.stop(self.now)
    }

    /// Refreshes the advisory end time of the running block, so displayed
    /// elapsed time stays live; a no-op when none is running.
    pub fn update(&self, db: &mut Database)
        requires
            old(db).wf(),
            old(db).schema.has_time_blocks,
            ts_valid(self.now),
        ensures
            final(db).wf(),
            final(db).tags == old(db).tags,
            final(db).schema == old(db).schema,
            final(db).blocks.next_id == old(db).blocks.next_id,
            final(db).blocks.rows@.len() == old(db).blocks.rows@.len(),
            forall|i: int|
                0 <= i < old(db).blocks.rows@.len() ==> final(db).blocks.rows@[i] == (if old(
                    db,
                ).blocks.rows@[i].running {
                    row_refreshed(old(db).blocks.rows@[i], self.now)
                } else {
                    old(db).blocks.rows@[i]
                }),
    {
        db.blocks.update(self.now)
    }

    /// The running block, refreshed to end at `now` and resolved with its
    /// tag, or none when the stopwatch is stopped.  A running block whose
    /// tag reference is missing from the tag table is an `IntegrityFault`.
    pub fn current(&self, db: &mut Database) -> (r: Result<Option<Block>, StoreError>)
        requires
            old(db).wf(),
            old(db).schema.has_time_blocks,
            ts_valid(self.now),
        ensures
            final(db).wf(),
            final(db).tags == old(db).tags,
            final(db).schema == old(db).schema,
            final(db).blocks.next_id == old(db).blocks.next_id,
            final(db).blocks.rows@.len() == old(db).blocks.rows@.len(),
            forall|i: int|
                0 <= i < old(db).blocks.rows@.len() ==> final(db).blocks.rows@[i] == (if old(
                    db,
                ).blocks.rows@[i].running {
                    row_refreshed(old(db).blocks.rows@[i], self.now)
                } else {
                    old(db).blocks.rows@[i]
                }),
            !has_running(old(db).blocks.rows@) ==> r == Ok::<Option<Block>, StoreError>(None),
            has_running(old(db).blocks.rows@) ==> {
                let row = row_refreshed(
                    old(db).blocks.rows@[running_index(old(db).blocks.rows@)],
                    self.now,
                );
                if row_resolves(row, old(db).tags.rows@) {
                    r matches Ok(o) && o matches Some(b) && block_matches_row(
                        b,
                        row,
                        old(db).tags.rows@,
                    ) && b.end == self.now
                } else {
                    r == Err::<Option<Block>, StoreError>(StoreError::IntegrityFault)
                }
            },
    {
        db.blocks.update(self.now);
        let r = db.blocks.current(&db.tags);
        proof {
            if has_running(old(db).blocks.rows@) {
                let k = running_index(old(db).blocks.rows@);
                assert(old(db).blocks.rows@[k].running);
                assert(db.blocks.rows@[k] == row_refreshed(
                    old(db).blocks.rows@[k],
                    self.now,
                ));
                assert(db.blocks.rows@[k].running);
                assert(has_running(db.blocks.rows@));
                let k2 = running_index(db.blocks.rows@);
                assert(db.blocks.rows@[k2].running);
                if old(db).blocks.rows@[k2].running {
                    assert(k2 == k);
                } else {
                    assert(db.blocks.rows@[k2] == old(db).blocks.rows@[k2]);
                    assert(false);
                }
            } else {
                if has_running(db.blocks.rows@) {
                    let k2 = running_index(db.blocks.rows@);
                    assert(db.blocks.rows@[k2].running);
                    if old(db).blocks.rows@[k2].running {
                        assert(has_running(old(db).blocks.rows@));
                    }
                    assert(false);
                }
            }
        }
        r
    }
}

} // verus!
