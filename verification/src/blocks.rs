//! The block table: tracked intervals of time and the queries over them.
//!
//! A block is a closed or open interval of time, optionally tagged; its
//! endpoints carry their local time-zone offsets.  The table enforces the engine's central invariant: at most one
//! block is running at any time.  A second running insert is rejected as a
//! `UniquenessViolation`, the same way the store's uniqueness constraint
//! rejects it, so two racing starts can never both succeed.

use vstd::prelude::*;

use crate::error::StoreError;
use crate::tags::{find_tag, find_tag_index, has_tag_id, lemma_find_tag, Tag, TagRow, Tags};
use crate::time::{ts_valid, Timestamp, MAX_TS};

verus! {

/// One row of the block table.  `tag` is a weak reference: the id of a row
/// of the tag table, resolved to a `Tag` value on read.
#[derive(Clone, Copy, Debug)]
pub struct BlockRow {
    pub id: u64,
    pub start: Timestamp,
    pub end: Timestamp,
    pub tag: Option<u64>,
    pub running: bool,
}

/// A block as handed to callers: the row with its tag reference resolved.
///
/// For a running block `end` is advisory: it is refreshed to "now" on each
/// observation but is not the authoritative state.
#[derive(Debug)]
pub struct Block {
    pub id: u64,
    pub start: Timestamp,
    pub end: Timestamp,
    pub tag: Option<Tag>,
    pub running: bool,
}

impl Block {
    /// The length of the interval in seconds: the difference of the two
    /// instants, so a block spanning an offset change keeps its true
    /// elapsed time.  Negative only when the block was stopped by a clock
    /// that had moved backwards.
    pub fn duration(&self) -> (d: i128)
        ensures
            d == self.end.utc - self.start.utc,
    {
        self.end.utc as i128 - self.start.utc as i128
    }

    /// The stable surrogate identifier the store assigned on insert.
    pub fn id(&self) -> (r: u64)
        ensures
            r == self.id,
    {
        self.id
    }
}

impl Clone for Block {
    fn clone(&self) -> (r: Self)
        ensures
            r.id == self.id,
            r.start == self.start,
            r.end == self.end,
            r.running == self.running,
            r.tag is Some <==> self.tag is Some,
            r.tag matches Some(t) ==> self.tag matches Some(s) && t.id == s.id && t.name@
                == s.name@,
    {
        let tag = match &self.tag {
            Some(t) => Some(t.clone()),
            None => None,
        };
        Block { id: self.id, start: self.start, end: self.end, tag, running: self.running }
    }
}

/// Both endpoints of the row lie in the store's timestamp domain.
pub open spec fn row_valid(r: BlockRow) -> bool {
    ts_valid(r.start) && ts_valid(r.end)
}

/// No two rows share an id.
pub open spec fn blocks_unique_ids(rows: Seq<BlockRow>) -> bool {
    forall|i: int, j: int| 0 <= i < j < rows.len() ==> rows[i].id != rows[j].id
}

/// Every id was assigned below the next fresh id.
pub open spec fn blocks_ids_below(rows: Seq<BlockRow>, next: u64) -> bool {
    forall|i: int| 0 <= i < rows.len() ==> rows[i].id < next
}

/// At most one row is running.
pub open spec fn at_most_one_running(rows: Seq<BlockRow>) -> bool {
    forall|i: int, j: int|
        0 <= i < rows.len() && 0 <= j < rows.len() && rows[i].running && rows[j].running ==> i == j
}

/// Some row is running.
pub open spec fn has_running(rows: Seq<BlockRow>) -> bool {
    exists|i: int| 0 <= i < rows.len() && rows[i].running
}

/// The index of the running row; meaningful only when one exists.
pub open spec fn running_index(rows: Seq<BlockRow>) -> int {
    choose|i: int| 0 <= i < rows.len() && rows[i].running
}

/// Some row carries this id.
pub open spec fn has_block_id(rows: Seq<BlockRow>, id: u64) -> bool {
    exists|i: int| 0 <= i < rows.len() && rows[i].id == id
}

/// The id a resolved tag reference stands for.
pub open spec fn tag_id_of(t: Option<Tag>) -> Option<u64> {
    match t {
        None => None,
        Some(tag) => Some(tag.id),
    }
}

/// The row's tag reference, if any, names a row of the tag table.
pub open spec fn row_resolves(row: BlockRow, tags: Seq<TagRow>) -> bool {
    match row.tag {
        None => true,
        Some(tid) => has_tag_id(tags, tid),
    }
}

/// A resolved `Block` presents exactly this row, its tag joined against the
/// tag table (deletion-marked tags included, so references stay intact).
pub open spec fn block_matches_row(b: Block, r: BlockRow, tags: Seq<TagRow>) -> bool {
    &&& b.id == r.id
    &&& b.start == r.start
    &&& b.end == r.end
    &&& b.running == r.running
    &&& match r.tag {
        None => b.tag is None,
        Some(tid) => b.tag matches Some(t) && t.id == tid && (find_tag(tags, tid) matches Some(
            trow,
        ) && t.name@ == trow.name@),
    }
}

/// Every row of the sequence resolves against the tag table.
pub open spec fn all_resolve(rows: Seq<BlockRow>, tags: Seq<TagRow>) -> bool {
    forall|i: int| 0 <= i < rows.len() ==> row_resolves(rows[i], tags)
}

/// The row refreshed to a new advisory end time.
pub open spec fn row_refreshed(r: BlockRow, now: Timestamp) -> BlockRow {
    BlockRow { id: r.id, start: r.start, end: now, tag: r.tag, running: r.running }
}

/// The row closed at a final end time.
pub open spec fn row_stopped(r: BlockRow, now: Timestamp) -> BlockRow {
    BlockRow { id: r.id, start: r.start, end: now, tag: r.tag, running: false }
}

/// The row with its tag reference rewritten.
pub open spec fn row_retagged(r: BlockRow, tag: Option<u64>) -> BlockRow {
    BlockRow { id: r.id, start: r.start, end: r.end, tag, running: r.running }
}

/// The rows whose start instant falls strictly between the instants
/// `before` and `after`, in table order.
pub open spec fn rows_in_range(rows: Seq<BlockRow>, before: int, after: int) -> Seq<BlockRow>
    decreases rows.len(),
{
    if rows.len() == 0 {
        Seq::empty()
    } else {
        let prefix = rows_in_range(rows.drop_last(), before, after);
        if before < rows.last().start.utc < after {
            prefix.push(rows.last())
        } else {
            prefix
        }
    }
}

/// The rows that do not carry this id, in table order.
pub open spec fn remove_id(rows: Seq<BlockRow>, id: u64) -> Seq<BlockRow>
    decreases rows.len(),
{
    if rows.len() == 0 {
        Seq::empty()
    } else {
        let prefix = remove_id(rows.drop_last(), id);
        if rows.last().id == id {
            prefix
        } else {
            prefix.push(rows.last())
        }
    }
}

/// The sum, in seconds, of `end - start` over the rows.
pub open spec fn total_of(rows: Seq<BlockRow>) -> int
    decreases rows.len(),
{
    if rows.len() == 0 {
        0
    } else {
        total_of(rows.drop_last()) + (rows.last().end.utc - rows.last().start.utc)
    }
}

/// Every selected row comes from the table and starts inside the range.
pub proof fn lemma_in_range_props(rows: Seq<BlockRow>, before: int, after: int)
    ensures
        forall|i: int|
            0 <= i < rows_in_range(rows, before, after).len() ==> rows.contains(
                #[trigger] rows_in_range(rows, before, after)[i],
            ) && before < rows_in_range(rows, before, after)[i].start.utc < after,
    decreases rows.len(),
{
    if rows.len() > 0 {
        lemma_in_range_props(rows.drop_last(), before, after);
        assert forall|i: int|
            0 <= i < rows.drop_last().len() && rows.drop_last().contains(
                rows.drop_last()[i],
            ) implies rows.contains(rows.drop_last()[i]) by {
            assert(rows[i] == rows.drop_last()[i]);
        }
        assert(rows.contains(rows.last()));
        let sel = rows_in_range(rows, before, after);
        let prefix = rows_in_range(rows.drop_last(), before, after);
        assert forall|i: int| 0 <= i < sel.len() implies rows.contains(sel[i]) && before
            < sel[i].start.utc < after by {
            if i < prefix.len() {
                assert(sel[i] == prefix[i]);
                let w = choose|j: int|
                    0 <= j < rows.drop_last().len() && rows.drop_last()[j] == prefix[i];
                assert(rows[w] == prefix[i]);
            }
        }
    }
}

/// A row whose start falls inside the range is among the selected rows.
pub proof fn lemma_in_range_contains(rows: Seq<BlockRow>, before: int, after: int, i: int)
    requires
        0 <= i < rows.len(),
        before < rows[i].start.utc < after,
    ensures
        rows_in_range(rows, before, after).contains(rows[i]),
    decreases rows.len(),
{
    if i == rows.len() - 1 {
        assert(rows.last() == rows[i]);
        let sel = rows_in_range(rows, before, after);
        assert(sel.last() == rows[i]);
    } else {
        lemma_in_range_contains(rows.drop_last(), before, after, i);
        assert(rows.drop_last()[i] == rows[i]);
        let prefix = rows_in_range(rows.drop_last(), before, after);
        let w = choose|j: int| 0 <= j < prefix.len() && prefix[j] == rows[i];
        let sel = rows_in_range(rows, before, after);
        assert(sel[w] == rows[i]);
    }
}

/// The total over valid rows is bounded by the row count times `MAX_TS`.
pub proof fn lemma_total_of_bound(rows: Seq<BlockRow>)
    requires
        forall|i: int| 0 <= i < rows.len() ==> row_valid(#[trigger] rows[i]),
    ensures
        -(rows.len() * MAX_TS) <= total_of(rows) <= rows.len() * MAX_TS,
    decreases rows.len(),
{
    if rows.len() > 0 {
        assert forall|i: int| 0 <= i < rows.drop_last().len() implies row_valid(
            #[trigger] rows.drop_last()[i],
        ) by {
            assert(rows.drop_last()[i] == rows[i]);
        }
        lemma_total_of_bound(rows.drop_last());
        assert(rows.last() == rows[rows.len() - 1]);
        assert(row_valid(rows.last()));
    }
}

/// Law: round trip.  A block inserted with a start inside a query range is
/// selected by that range query, as the last selected row; and any resolved
/// block presenting it carries equal start, end and tag reference.  With
/// `insert`, `in_range` and `block_matches_row` this says that a block
/// written with a given start, end and tag reads back with the same start,
/// end and resolved tag.
pub proof fn lemma_insert_round_trip(
    rows: Seq<BlockRow>,
    row: BlockRow,
    tags: Seq<TagRow>,
    before: int,
    after: int,
)
    requires
        before < row.start.utc < after,
    ensures
        rows_in_range(rows.push(row), before, after) == rows_in_range(rows, before, after).push(
            row,
        ),
        forall|b: Block|
            #[trigger] block_matches_row(b, row, tags) ==> b.start == row.start && b.end == row.end
                && tag_id_of(b.tag) == row.tag,
{
    assert(rows.push(row).drop_last() =~= rows);
}

/// Law: a well-formed store never holds two running blocks; every mutating
/// operation of `Blocks` keeps the store well formed, so this holds at
/// every observation point of any sequence of starts and stops.
pub proof fn lemma_single_running(b: &Blocks, i: int, j: int)
    requires
        b.wf(),
        0 <= i < b.rows@.len(),
        0 <= j < b.rows@.len(),
        b.rows@[i].running,
        b.rows@[j].running,
    ensures
        i == j,
{
}

/// The block table: rows plus the next fresh surrogate id.
pub struct Blocks {
    pub rows: Vec<BlockRow>,
    pub next_id: u64,
}

impl Blocks {
    /// The table is well formed: ids unique and below the id counter, at
    /// most one row running, all timestamps in the store's domain.
    pub open spec fn wf(self) -> bool {
        &&& blocks_unique_ids(self.rows@)
        &&& blocks_ids_below(self.rows@, self.next_id)
        &&& at_most_one_running(self.rows@)
        &&& forall|i: int| 0 <= i < self.rows@.len() ==> row_valid(#[trigger] self.rows@[i])
    }

    /// An empty block table.
    pub fn new() -> (r: Blocks)
        ensures
            r.wf(),
            r.rows@ == Seq::<BlockRow>::empty(),
            r.next_id == 0,
    {
        Blocks { rows: Vec::new(), next_id: 0 }
    }

    /// Appends one block.  Inserting a second running block is rejected
    /// with `UniquenessViolation` — the storage-layer guarantee that two
    /// racing starts cannot both succeed — and the table is unchanged.
    pub fn insert(&mut self, start: Timestamp, end: Timestamp, tag: Option<u64>, running: bool) -> (r: Result<
        u64,
        StoreError,
    >)
        requires
            old(self).wf(),
            ts_valid(start),
            ts_valid(end),
        ensures
            final(self).wf(),
            running && has_running(old(self).rows@) ==> r == Err::<u64, StoreError>(
                StoreError::UniquenessViolation,
            ) && *final(self) == *old(self),
            !(running && has_running(old(self).rows@)) && old(self).next_id == u64::MAX ==> r
                == Err::<u64, StoreError>(StoreError::CapacityExhausted) && *final(self) == *old(
                self,
            ),
            !(running && has_running(old(self).rows@)) && old(self).next_id < u64::MAX ==> {
                &&& r == Ok::<u64, StoreError>(old(self).next_id)
                &&& final(self).rows@ == old(self).rows@.push(
                    BlockRow { id: old(self).next_id, start, end, tag, running },
                )
                &&& final(self).next_id == old(self).next_id + 1
            },
    {
        if running {
            if let Some(_) = find_running_index(&self.rows) {
                return Err(StoreError::UniquenessViolation);
            }
        }
        if self.next_id == u64::MAX {
            return Err(StoreError::CapacityExhausted);
        }
        let id = self.next_id;
        self.next_id = id + 1;
        self.rows.push(BlockRow { id, start, end, tag, running });
        proof {
            let rows = final(self).rows@;
            assert forall|i: int, j: int|
                0 <= i < rows.len() && 0 <= j < rows.len() && rows[i].running
                    && rows[j].running implies i == j by {
                if i < rows.len() - 1 && j < rows.len() - 1 {
                    assert(old(self).rows@[i].running && old(self).rows@[j].running);
                } else if i < rows.len() - 1 {
                    assert(old(self).rows@[i].running);
                } else if j < rows.len() - 1 {
                    assert(old(self).rows@[j].running);
                }
            }
        }
        Ok(id)
    }

    /// The unique running block, resolved, or none.  Discovering that the
    /// running block references a missing tag is an `IntegrityFault`.
    pub fn current(&self, tags: &Tags) -> (r: Result<Option<Block>, StoreError>)
        requires
            self.wf(),
            tags.wf(),
        ensures
            !has_running(self.rows@) ==> r == Ok::<Option<Block>, StoreError>(None),
            has_running(self.rows@) ==> {
                let row = self.rows@[running_index(self.rows@)];
                if row_resolves(row, tags.rows@) {
                    r matches Ok(o) && o matches Some(b) && block_matches_row(b, row, tags.rows@)
                } else {
                    r == Err::<Option<Block>, StoreError>(StoreError::IntegrityFault)
                }
            },
    {
        match find_running_index(&self.rows) {
            None => Ok(None),
            Some(j) => {
                proof {
                    let k = running_index(self.rows@);
                    assert(self.rows@[j as int].running);
                    assert(0 <= k < self.rows@.len() && self.rows@[k].running);
                }
                match to_blocks(&self.rows[j], tags) {
                    Ok(b) => Ok(Some(b)),
                    Err(e) => Err(e),
                }
            },
        }
    }

    /// Refreshes the advisory end time of the running block; a no-op when
    /// none is running.  `start` is never touched.
    pub fn update(&mut self, now: Timestamp)
        requires
            old(self).wf(),
            ts_valid(now),
        ensures
            final(self).wf(),
            final(self).next_id == old(self).next_id,
            final(self).rows@.len() == old(self).rows@.len(),
            forall|i: int|
                0 <= i < old(self).rows@.len() ==> final(self).rows@[i] == (if old(
                    self,
                ).rows@[i].running {
                    row_refreshed(old(self).rows@[i], now)
                } else {
                    old(self).rows@[i]
                }),
    {
        match find_running_index(&self.rows) {
            None => (),
            Some(j) => {
                self.rows[j].end = now;
                proof {
                    assert forall|i: int|
                        0 <= i < old(self).rows@.len() && i != j as int implies !old(
                        self,
                    ).rows@[i].running by {
                        if old(self).rows@[i].running {
                            assert(old(self).rows@[j as int].running);
                        }
                    }
                }
            },
        }
    }

    /// Closes the running block: sets `running = false` and `end = now`.
    /// Rejected with `NotFound` when no block is running.
    pub fn stop(&mut self, now: Timestamp) -> (r: Result<(), StoreError>)
        requires
            old(self).wf(),
            ts_valid(now),
        ensures
            final(self).wf(),
            !has_running(old(self).rows@) ==> r == Err::<(), StoreError>(StoreError::NotFound)
                && *final(self) == *old(self),
            has_running(old(self).rows@) ==> {
                &&& r == Ok::<(), StoreError>(())
                &&& final(self).next_id == old(self).next_id
                &&& final(self).rows@.len() == old(self).rows@.len()
                &&& forall|i: int|
                    0 <= i < old(self).rows@.len() ==> final(self).rows@[i] == (if old(
                        self,
                    ).rows@[i].running {
                        row_stopped(old(self).rows@[i], now)
                    } else {
                        old(self).rows@[i]
                    })
                &&& !has_running(final(self).rows@)
            },
    {
        match find_running_index(&self.rows) {
            None => Err(StoreError::NotFound),
            Some(j) => {
                self.rows[j].end = now;
                self.rows[j].running = false;
                proof {
                    assert(has_running(old(self).rows@)) by {
                        assert(old(self).rows@[j as int].running);
                    }
                    assert forall|i: int|
                        0 <= i < old(self).rows@.len() && i != j as int implies !old(
                        self,
                    ).rows@[i].running by {
                        if old(self).rows@[i].running {
                            assert(old(self).rows@[j as int].running);
                        }
                    }
                }
                Ok(())
            },
        }
    }

    /// Rewrites the tag reference of an existing block, by id.  Rejected
    /// with `NotFound` when the block no longer exists.
    pub fn update_tag(&mut self, block: &Block) -> (r: Result<(), StoreError>)
        requires
            old(self).wf(),
        ensures
            final(self).wf(),
            !has_block_id(old(self).rows@, block.id) ==> r == Err::<(), StoreError>(
                StoreError::NotFound,
            ) && *final(self) == *old(self),
            has_block_id(old(self).rows@, block.id) ==> {
                &&& r == Ok::<(), StoreError>(())
                &&& final(self).next_id == old(self).next_id
                &&& final(self).rows@.len() == old(self).rows@.len()
                &&& forall|i: int|
                    0 <= i < old(self).rows@.len() ==> final(self).rows@[i] == (if old(
                        self,
                    ).rows@[i].id == block.id {
                        row_retagged(old(self).rows@[i], tag_id_of(block.tag))
                    } else {
                        old(self).rows@[i]
                    })
            },
    {
        let tag = match &block.tag {
            None => None,
            Some(t) => Some(t.id),
        };
        match find_block_index(&self.rows, block.id) {
            None => Err(StoreError::NotFound),
            Some(j) => {
                self.rows[j].tag = tag;
                proof {
                    assert(has_block_id(old(self).rows@, block.id)) by {
                        assert(old(self).rows@[j as int].id == block.id);
                    }
                    assert forall|i: int|
                        0 <= i < old(self).rows@.len() && i != j as int implies old(
                        self,
                    ).rows@[i].id != block.id by {
                        assert(old(self).rows@[i].id != old(self).rows@[j as int].id);
                    }
                }
                Ok(())
            },
        }
    }

    /// Removes a block by id; deleting the running block implicitly ends
    /// tracking.  Rejected with `NotFound` when the block no longer exists.
    pub fn delete(&mut self, block: &Block) -> (r: Result<(), StoreError>)
        requires
            old(self).wf(),
        ensures
            final(self).wf(),
            !has_block_id(old(self).rows@, block.id) ==> r == Err::<(), StoreError>(
                StoreError::NotFound,
            ) && *final(self) == *old(self),
            has_block_id(old(self).rows@, block.id) ==> {
                &&& r == Ok::<(), StoreError>(())
                &&& final(self).next_id == old(self).next_id
                &&& final(self).rows@ == remove_id(old(self).rows@, block.id)
            },
    {
        match find_block_index(&self.rows, block.id) {
            None => Err(StoreError::NotFound),
            Some(j) => {
                self.rows.remove(j);
                proof {
                    let before = old(self).rows@;
                    assert(has_block_id(before, block.id)) by {
                        assert(before[j as int].id == block.id);
                    }
                    lemma_remove_id_at(before, block.id, j as int);
                    assert(final(self).rows@ =~= remove_id(before, block.id));
                }
                Ok(())
            },
        }
    }

    /// All blocks whose start falls strictly between `before` and `after`
    /// (both ends exclusive), in table order, each resolved with its tag.
    /// A selected block referencing a missing tag is an `IntegrityFault`.
    pub fn in_range(&self, before: i64, after: i64, tags: &Tags) -> (r: Result<
        Vec<Block>,
        StoreError,
    >)
        requires
            self.wf(),
            tags.wf(),
        ensures
            all_resolve(rows_in_range(self.rows@, before as int, after as int), tags.rows@) ==> (
            r matches Ok(v) && {
                let sel = rows_in_range(self.rows@, before as int, after as int);
                &&& v@.len() == sel.len()
                &&& forall|i: int|
                    0 <= i < sel.len() ==> block_matches_row(#[trigger] v@[i], sel[i], tags.rows@)
            }),
            !all_resolve(rows_in_range(self.rows@, before as int, after as int), tags.rows@)
                ==> r == Err::<Vec<Block>, StoreError>(StoreError::IntegrityFault),
    {
        let n = self.rows.len();
        let mut out: Vec<Block> = Vec::new();
        let mut i: usize = 0;
        while i < n
            invariant
                n == self.rows@.len(),
                i <= n,
                self.wf(),
                tags.wf(),
                out@.len() == rows_in_range(self.rows@.take(i as int), before as int, after as int).len(),
                all_resolve(
                    rows_in_range(self.rows@.take(i as int), before as int, after as int),
                    tags.rows@,
                ),
                forall|k: int|
                    0 <= k < out@.len() ==> block_matches_row(
                        #[trigger] out@[k],
                        rows_in_range(self.rows@.take(i as int), before as int, after as int)[k],
                        tags.rows@,
                    ),
            decreases n - i,
        {
            proof {
                assert(self.rows@.take(i + 1).drop_last() =~= self.rows@.take(i as int));
                assert(self.rows@.take(i + 1).last() == self.rows@[i as int]);
            }
            let row = &self.rows[i];
            if before < row.start.utc && row.start.utc < after {
                match to_blocks(row, tags) {
                    Ok(b) => {
                        out.push(b);
                    },
                    Err(e) => {
                        proof {
                            lemma_in_range_contains(
                                self.rows@,
                                before as int,
                                after as int,
                                i as int,
                            );
                            let sel = rows_in_range(self.rows@, before as int, after as int);
                            let w = choose|k: int| 0 <= k < sel.len() && sel[k] == self.rows@[i as int];
                            assert(!row_resolves(sel[w], tags.rows@));
                        }
                        return Err(StoreError::IntegrityFault);
                    },
                }
            }
            i = i + 1;
        }
        proof {
            assert(self.rows@.take(n as int) =~= self.rows@);
        }
        Ok(out)
    }

    /// The sum of `end - start` over all blocks, in seconds.  The running
    /// block counts with its stored advisory end; refresh it first for a
    /// live figure.
    pub fn total_time(&self) -> (t: i128)
        requires
            self.wf(),
        ensures
            t == total_of(self.rows@),
    {
        let n = self.rows.len();
        let mut t: i128 = 0;
        let mut i: usize = 0;
        while i < n
            invariant
                n == self.rows@.len(),
                i <= n,
                self.wf(),
                t == total_of(self.rows@.take(i as int)),
            decreases n - i,
        {
            proof {
                assert(self.rows@.take(i + 1).drop_last() =~= self.rows@.take(i as int));
                assert(self.rows@.take(i + 1).last() == self.rows@[i as int]);
                assert forall|k: int| 0 <= k < self.rows@.take(i as int).len() implies row_valid(
                    #[trigger] self.rows@.take(i as int)[k],
                ) by {
                    assert(self.rows@.take(i as int)[k] == self.rows@[k]);
                }
                lemma_total_of_bound(self.rows@.take(i as int));
                assert(i * MAX_TS <= 18_446_744_073_709_551_615 * 253_402_300_800) by (nonlinear_arith)
                    requires i <= 18_446_744_073_709_551_615u64 as int;
            }
            let row = &self.rows[i];
            t = t + (row.end.utc as i128 - row.start.utc as i128);
            i = i + 1;
        }
        proof {
            assert(self.rows@.take(n as int) =~= self.rows@);
        }
        t
    }
}

/// Removing an id that no row carries leaves the rows unchanged.
proof fn lemma_remove_id_absent(rows: Seq<BlockRow>, id: u64)
    requires
        !has_block_id(rows, id),
    ensures
        remove_id(rows, id) == rows,
    decreases rows.len(),
{
    if rows.len() > 0 {
        assert(rows.last() == rows[rows.len() - 1]);
        assert forall|i: int| 0 <= i < rows.drop_last().len() implies rows.drop_last()[i].id
            != id by {
            assert(rows.drop_last()[i] == rows[i]);
        }
        lemma_remove_id_absent(rows.drop_last(), id);
        assert(remove_id(rows, id) =~= rows);
    }
}

/// With unique ids, removing the id of the row at `idx` removes exactly
/// that row.
proof fn lemma_remove_id_at(rows: Seq<BlockRow>, id: u64, idx: int)
    requires
        blocks_unique_ids(rows),
        0 <= idx < rows.len(),
        rows[idx].id == id,
    ensures
        remove_id(rows, id) =~= rows.remove(idx),
    decreases rows.len(),
{
    if idx == rows.len() - 1 {
        assert(rows.last().id == id);
        assert forall|i: int| 0 <= i < rows.drop_last().len() implies rows.drop_last()[i].id
            != id by {
            assert(rows.drop_last()[i] == rows[i]);
            assert(rows[i].id != rows[idx].id);
        }
        assert(!has_block_id(rows.drop_last(), id));
        lemma_remove_id_absent(rows.drop_last(), id);
        assert(rows.remove(idx) =~= rows.drop_last());
    } else {
        assert(rows.drop_last()[idx] == rows[idx]);
        assert forall|i: int, j: int| 0 <= i < j < rows.drop_last().len() implies rows.drop_last()[i].id
            != rows.drop_last()[j].id by {
            assert(rows.drop_last()[i] == rows[i] && rows.drop_last()[j] == rows[j]);
        }
        lemma_remove_id_at(rows.drop_last(), id, idx);
        assert(rows.last().id != id) by {
            assert(rows[idx].id != rows[rows.len() - 1].id);
        }
        assert(remove_id(rows, id) =~= remove_id(rows.drop_last(), id).push(rows.last()));
        assert(rows.remove(idx) =~= rows.drop_last().remove(idx).push(rows.last()));
    }
}

/// The index of the running row, if one exists.
fn find_running_index(rows: &Vec<BlockRow>) -> (r: Option<usize>)
    ensures
        match r {
            Some(j) => j < rows@.len() && rows@[j as int].running,
            None => !has_running(rows@),
        },
{
    let n = rows.len();
    let mut i: usize = 0;
    while i < n
        invariant
            n == rows@.len(),
            i <= n,
            forall|k: int| 0 <= k < i ==> !rows@[k].running,
        decreases n - i,
    {
        if rows[i].running {
            return Some(i);
        }
        i = i + 1;
    }
    None
}

/// The index of the row with this id, if any row carries it.
fn find_block_index(rows: &Vec<BlockRow>, id: u64) -> (r: Option<usize>)
    ensures
        match r {
            Some(j) => j < rows@.len() && rows@[j as int].id == id,
            None => !has_block_id(rows@, id),
        },
{
    let n = rows.len();
    let mut i: usize = 0;
    while i < n
        invariant
            n == rows@.len(),
            i <= n,
            forall|k: int| 0 <= k < i ==> rows@[k].id != id,
        decreases n - i,
    {
        if rows[i].id == id {
            return Some(i);
        }
        i = i + 1;
    }
    None
}

/// Resolves one row into a `Block`, joining its tag reference against the
/// tag table.  A reference to a missing tag is an `IntegrityFault`.
pub(crate) fn to_blocks(row: &BlockRow, tags: &Tags) -> (r: Result<Block, StoreError>)
    requires
        tags.wf(),
    ensures
        row_resolves(*row, tags.rows@) ==> (r matches Ok(b) && block_matches_row(
            b,
            *row,
            tags.rows@,
        )),
        !row_resolves(*row, tags.rows@) ==> r == Err::<Block, StoreError>(
            StoreError::IntegrityFault,
        ),
{
    let tag = match row.tag {
        None => None,
        Some(tid) => {
            match find_tag_index(&tags.rows, tid) {
                None => {
                    return Err(StoreError::IntegrityFault);
                },
                Some(idx) => {
                    proof {
                        lemma_find_tag(tags.rows@, tid);
                        assert(tags.rows@[idx as int].id == tid);
                    }
                    Some(Tag { id: tid, name: tags.rows[idx].name.clone() })
                },
            }
        },
    };
    Ok(Block { id: row.id, start: row.start, end: row.end, tag, running: row.running })
}

} // verus!
