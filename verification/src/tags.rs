//! Named labels ("tags") that can be attached to blocks.
//!
//! Tags live in their own table of the store.  A tag name is unique across
//! the whole table and non-empty.  Deleting a tag only marks it for
//! deletion: blocks may still reference it, and reads resolve such
//! references against the full table, so no block reference is ever
//! orphaned by a delete (hide-but-preserve policy).

use vstd::prelude::*;
use vstd::string::StrSliceExecFns;
use vstd::string::StringExecFns;

use crate::error::StoreError;

verus! {

/// One row of the tag table.
///
/// `protected` is the marker column of schema version 1; from version 2 on
/// it is gone and `to_delete` (the soft-delete marker) takes its place.
#[derive(Debug)]
pub struct TagRow {
    pub id: u64,
    pub name: String,
    pub protected: bool,
    pub to_delete: bool,
}

/// A named label, as handed to callers.
///
/// Two `Tag` values are equal when their ids are equal — identity equality,
/// not name equality — so renaming a tag does not break references held by
/// in-flight blocks.
#[derive(Debug)]
pub struct Tag {
    pub id: u64,
    pub name: String,
}

impl PartialEq for Tag {
    fn eq(&self, other: &Self) -> (r: bool) {
        self.id == other.id
    }
}

impl vstd::std_specs::cmp::PartialEqSpecImpl for Tag {
    open spec fn obeys_eq_spec() -> bool {
        true
    }

    open spec fn eq_spec(&self, other: &Self) -> bool {
        self.id == other.id
    }
}

impl Clone for Tag {
    fn clone(&self) -> (r: Self)
        ensures
            r.id == self.id,
            r.name@ == self.name@,
    {
        Tag { id: self.id, name: self.name.clone() }
    }
}

/// No two rows share an id.
pub open spec fn tags_unique_ids(rows: Seq<TagRow>) -> bool {
    forall|i: int, j: int| 0 <= i < j < rows.len() ==> rows[i].id != rows[j].id
}

/// Every id was assigned below the next fresh id.
pub open spec fn tags_ids_below(rows: Seq<TagRow>, next: u64) -> bool {
    forall|i: int| 0 <= i < rows.len() ==> rows[i].id < next
}

/// No two rows share a name, deletion-marked rows included.
pub open spec fn tags_unique_names(rows: Seq<TagRow>) -> bool {
    forall|i: int, j: int| 0 <= i < j < rows.len() ==> rows[i].name@ != rows[j].name@
}

/// Every name is non-empty.
pub open spec fn tags_names_nonempty(rows: Seq<TagRow>) -> bool {
    forall|i: int| 0 <= i < rows.len() ==> rows[i].name@.len() > 0
}

/// Some row carries this id.
pub open spec fn has_tag_id(rows: Seq<TagRow>, id: u64) -> bool {
    exists|i: int| 0 <= i < rows.len() && rows[i].id == id
}

/// Some row carries this name.
pub open spec fn name_taken(rows: Seq<TagRow>, name: Seq<char>) -> bool {
    exists|i: int| 0 <= i < rows.len() && rows[i].name@ == name
}

/// Some row other than the one with id `id` carries this name.
pub open spec fn name_taken_by_other(rows: Seq<TagRow>, name: Seq<char>, id: u64) -> bool {
    exists|i: int| 0 <= i < rows.len() && rows[i].name@ == name && rows[i].id != id
}

/// The first row with this id, if any.
pub open spec fn find_tag(rows: Seq<TagRow>, id: u64) -> Option<TagRow>
    decreases rows.len(),
{
    if rows.len() == 0 {
        None
    } else if rows[0].id == id {
        Some(rows[0])
    } else {
        find_tag(rows.drop_first(), id)
    }
}

/// The rows not marked for deletion, in table order.
pub open spec fn live_tags(rows: Seq<TagRow>) -> Seq<TagRow>
    decreases rows.len(),
{
    if rows.len() == 0 {
        Seq::empty()
    } else {
        let prefix = live_tags(rows.drop_last());
        if rows.last().to_delete {
            prefix
        } else {
            prefix.push(rows.last())
        }
    }
}

/// `find_tag` finds a row exactly when some row carries the id, and, with
/// unique ids, finds that row.
pub proof fn lemma_find_tag(rows: Seq<TagRow>, id: u64)
    requires
        tags_unique_ids(rows),
    ensures
        has_tag_id(rows, id) <==> find_tag(rows, id) is Some,
        forall|i: int|
            0 <= i < rows.len() && rows[i].id == id ==> find_tag(rows, id) == Some(rows[i]),
    decreases rows.len(),
{
    if rows.len() > 0 {
        if rows[0].id == id {
            assert(has_tag_id(rows, id));
        } else {
            let rest = rows.drop_first();
            assert(tags_unique_ids(rest)) by {
                assert(forall|i: int, j: int|
                    0 <= i < j < rest.len() ==> rest[i] == rows[i + 1] && rest[j] == rows[j + 1]);
            }
            lemma_find_tag(rest, id);
            if has_tag_id(rows, id) {
                let w = choose|i: int| 0 <= i < rows.len() && rows[i].id == id;
                assert(rest[w - 1] == rows[w]);
                assert(has_tag_id(rest, id));
            }
            assert forall|i: int|
                0 <= i < rows.len() && rows[i].id == id implies find_tag(rows, id) == Some(
                rows[i],
            ) by {
                assert(rest[i - 1] == rows[i]);
            }
            if has_tag_id(rest, id) {
                let w = choose|i: int| 0 <= i < rest.len() && rest[i].id == id;
                assert(rows[w + 1] == rest[w]);
                assert(has_tag_id(rows, id));
            }
        }
    }
}

/// The tag table: rows plus the next fresh surrogate id.
pub struct Tags {
    pub rows: Vec<TagRow>,
    pub next_id: u64,
}

impl Tags {
    /// The table is well formed: ids unique and below the id counter, names
    /// unique and non-empty.
    pub open spec fn wf(self) -> bool {
        &&& tags_unique_ids(self.rows@)
        &&& tags_ids_below(self.rows@, self.next_id)
        &&& tags_unique_names(self.rows@)
        &&& tags_names_nonempty(self.rows@)
    }

    /// An empty tag table.
    pub fn new() -> (r: Tags)
        ensures
            r.wf(),
            r.rows@ == Seq::<TagRow>::empty(),
            r.next_id == 0,
    {
        Tags { rows: Vec::new(), next_id: 0 }
    }

    /// The tags not marked for deletion, in insertion order.
    pub fn all(&self) -> (r: Vec<Tag>)
        ensures
            r@.len() == live_tags(self.rows@).len(),
            forall|i: int|
                0 <= i < r@.len() ==> r@[i].id == live_tags(self.rows@)[i].id && r@[i].name@
                    == live_tags(self.rows@)[i].name@,
    {
        let mut out: Vec<Tag> = Vec::new();
        let n = self.rows.len();
        let mut i: usize = 0;
        while i < n
            invariant
                n == self.rows@.len(),
                i <= n,
                out@.len() == live_tags(self.rows@.take(i as int)).len(),
                forall|k: int|
                    0 <= k < out@.len() ==> out@[k].id == live_tags(self.rows@.take(i as int))[k].id
                        && out@[k].name@ == live_tags(self.rows@.take(i as int))[k].name@,
            decreases n - i,
        {
            proof {
                assert(self.rows@.take(i + 1).drop_last() =~= self.rows@.take(i as int));
                assert(self.rows@.take(i + 1).last() == self.rows@[i as int]);
            }
            let row = &self.rows[i];
            if !row.to_delete {
                out.push(Tag { id: row.id, name: row.name.clone() });
            }
            i = i + 1;
        }
        proof {
            assert(self.rows@.take(n as int) =~= self.rows@);
        }
        out
    }

    /// Creates a tag with the given name.
    ///
    /// Rejected with `InvalidName` when the name is empty, and with
    /// `UniquenessViolation` when any row — deletion-marked rows included —
    /// already carries the name; on rejection the table is unchanged.
    pub fn create(&mut self, name: &str) -> (r: Result<Tag, StoreError>)
        requires
            old(self).wf(),
        ensures
            final(self).wf(),
            name@.len() == 0 ==> r == Err::<Tag, StoreError>(StoreError::InvalidName)
                && *final(self) == *old(self),
            name@.len() > 0 && name_taken(old(self).rows@, name@) ==> r == Err::<Tag, StoreError>(
                StoreError::UniquenessViolation,
            ) && *final(self) == *old(self),
            name@.len() > 0 && !name_taken(old(self).rows@, name@) && old(self).next_id
                == u64::MAX ==> r == Err::<Tag, StoreError>(StoreError::CapacityExhausted)
                && *final(self) == *old(self),
            name@.len() > 0 && !name_taken(old(self).rows@, name@) && old(self).next_id
                < u64::MAX ==> {
                &&& r matches Ok(t) && t.id == old(self).next_id && t.name@ == name@
                &&& final(self).rows@.len() == old(self).rows@.len() + 1
                &&& forall|i: int|
                    0 <= i < old(self).rows@.len() ==> final(self).rows@[i] == old(self).rows@[i]
                &&& final(self).rows@.last().id == old(self).next_id
                &&& final(self).rows@.last().name@ == name@
                &&& final(self).rows@.last().protected == false
                &&& final(self).rows@.last().to_delete == false
                &&& final(self).next_id == old(self).next_id + 1
            },
    {
        if name.unicode_len() == 0 {
            return Err(StoreError::InvalidName);
        }
        let needle = String::from_str(name);
        if name_taken_exec(&self.rows, &needle) {
            return Err(StoreError::UniquenessViolation);
        }
        if self.next_id == u64::MAX {
            return Err(StoreError::CapacityExhausted);
        }
        let id = self.next_id;
        self.next_id = id + 1;
        self.rows.push(
            TagRow { id, name: String::from_str(name), protected: false, to_delete: false },
        );
        proof {
            let rows = final(self).rows@;
            assert forall|i: int, j: int| 0 <= i < j < rows.len() implies rows[i].name@
                != rows[j].name@ by {
                if j == rows.len() - 1 {
                    assert(!(old(self).rows@[i].name@ == name@));
                }
            }
        }
        Ok(Tag { id, name: needle })
    }

    /// Renames an existing tag.
    ///
    /// Rejected with `InvalidName` when the new name is empty, with
    /// `NotFound` when the tag no longer exists, and with
    /// `UniquenessViolation` when another row already carries the new name;
    /// on rejection the table is unchanged.  Renaming a tag to its own
    /// current name succeeds.
    pub fn rename(&mut self, tag: &Tag, new_name: &str) -> (r: Result<(), StoreError>)
        requires
            old(self).wf(),
        ensures
            final(self).wf(),
            new_name@.len() == 0 ==> r == Err::<(), StoreError>(StoreError::InvalidName)
                && *final(self) == *old(self),
            new_name@.len() > 0 && !has_tag_id(old(self).rows@, tag.id) ==> r == Err::<
                (),
                StoreError,
            >(StoreError::NotFound) && *final(self) == *old(self),
            new_name@.len() > 0 && has_tag_id(old(self).rows@, tag.id) && name_taken_by_other(
                old(self).rows@,
                new_name@,
                tag.id,
            ) ==> r == Err::<(), StoreError>(StoreError::UniquenessViolation) && *final(self)
                == *old(self),
            new_name@.len() > 0 && has_tag_id(old(self).rows@, tag.id) && !name_taken_by_other(
                old(self).rows@,
                new_name@,
                tag.id,
            ) ==> {
                &&& r == Ok::<(), StoreError>(())
                &&& final(self).rows@.len() == old(self).rows@.len()
                &&& final(self).next_id == old(self).next_id
                &&& forall|i: int|
                    0 <= i < old(self).rows@.len() && old(self).rows@[i].id != tag.id
                        ==> final(self).rows@[i] == old(self).rows@[i]
                &&& forall|i: int|
                    0 <= i < old(self).rows@.len() && old(self).rows@[i].id == tag.id ==> {
                        &&& final(self).rows@[i].id == tag.id
                        &&& final(self).rows@[i].name@ == new_name@
                        &&& final(self).rows@[i].protected == old(self).rows@[i].protected
                        &&& final(self).rows@[i].to_delete == old(self).rows@[i].to_delete
                    }
            },
    {
        if new_name.unicode_len() == 0 {
            return Err(StoreError::InvalidName);
        }
        let idx = match find_tag_index(&self.rows, tag.id) {
            Some(j) => j,
            None => {
                return Err(StoreError::NotFound);
            }
        };
        let needle = String::from_str(new_name);
        if name_taken_by_other_exec(&self.rows, &needle, tag.id) {
            return Err(StoreError::UniquenessViolation);
        }
        self.rows[idx].name = needle;
        proof {
            let rows = final(self).rows@;
            let before = old(self).rows@;
            assert(has_tag_id(before, tag.id)) by {
                assert(before[idx as int].id == tag.id);
            }
            assert forall|i: int, j: int| 0 <= i < j < rows.len() implies rows[i].name@
                != rows[j].name@ by {
                if i == idx as int {
                    assert(before[j].id != tag.id);
                    assert(!(before[j].name@ == new_name@ && before[j].id != tag.id));
                } else if j == idx as int {
                    assert(before[i].id != tag.id);
                    assert(!(before[i].name@ == new_name@ && before[i].id != tag.id));
                }
            }
            assert forall|i: int|
                0 <= i < before.len() && before[i].id == tag.id implies i == idx as int by {
                if i != idx as int {
                    assert(before[i].id != before[idx as int].id);
                }
            }
        }
        Ok(())
    }

    /// Marks a tag for deletion.  The row is kept — blocks may still
    /// reference it — and its name keeps occupying the uniqueness
    /// constraint.  Rejected with `NotFound` when the tag no longer exists.
    pub fn delete(&mut self, tag: &Tag) -> (r: Result<(), StoreError>)
        requires
            old(self).wf(),
        ensures
            final(self).wf(),
            !has_tag_id(old(self).rows@, tag.id) ==> r == Err::<(), StoreError>(
                StoreError::NotFound,
            ) && *final(self) == *old(self),
            has_tag_id(old(self).rows@, tag.id) ==> {
                &&& r == Ok::<(), StoreError>(())
                &&& final(self).rows@.len() == old(self).rows@.len()
                &&& final(self).next_id == old(self).next_id
                &&& forall|i: int|
                    0 <= i < old(self).rows@.len() && old(self).rows@[i].id != tag.id
                        ==> final(self).rows@[i] == old(self).rows@[i]
                &&& forall|i: int|
                    0 <= i < old(self).rows@.len() && old(self).rows@[i].id == tag.id ==> {
                        &&& final(self).rows@[i].id == tag.id
                        &&& final(self).rows@[i].name@ == old(self).rows@[i].name@
                        &&& final(self).rows@[i].protected == old(self).rows@[i].protected
                        &&& final(self).rows@[i].to_delete == true
                    }
            },
    {
        let idx = match find_tag_index(&self.rows, tag.id) {
            Some(j) => j,
            None => {
                return Err(StoreError::NotFound);
            }
        };
        self.rows[idx].to_delete = true;
        proof {
            let rows = final(self).rows@;
            let before = old(self).rows@;
            assert(has_tag_id(before, tag.id)) by {
                assert(before[idx as int].id == tag.id);
            }
            assert forall|i: int, j: int| 0 <= i < j < rows.len() implies rows[i].name@
                != rows[j].name@ by {
                assert(before[i].name@ != before[j].name@);
            }
            assert forall|i: int|
                0 <= i < before.len() && before[i].id == tag.id implies i == idx as int by {
                if i != idx as int {
                    assert(before[i].id != before[idx as int].id);
                }
            }
        }
        Ok(())
    }
}

/// The index of the first row with this id, if any row carries it.
pub(crate) fn find_tag_index(rows: &Vec<TagRow>, id: u64) -> (r: Option<usize>)
    ensures
        match r {
            Some(j) => j < rows@.len() && rows@[j as int].id == id,
            None => !has_tag_id(rows@, id),
        },
{
    let n = rows.len();
    let mut i: usize = 0;
    while i < n
        invariant
            n == rows@.len(),
            i <= n,
            forall|k: int| 0 <= k < i ==> rows@[k].id != id,
        decreases n - i,
    {
        if rows[i].id == id {
            return Some(i);
        }
        i = i + 1;
    }
    None
}

/// Whether any row carries this name.
fn name_taken_exec(rows: &Vec<TagRow>, name: &String) -> (b: bool)
    ensures
        b == name_taken(rows@, name@),
{
    let n = rows.len();
    let mut i: usize = 0;
    while i < n
        invariant
            n == rows@.len(),
            i <= n,
            forall|k: int| 0 <= k < i ==> rows@[k].name@ != name@,
        decreases n - i,
    {
        if rows[i].name == *name {
            return true;
        }
        i = i + 1;
    }
    false
}

/// Whether any row other than the one with id `id` carries this name.
fn name_taken_by_other_exec(rows: &Vec<TagRow>, name: &String, id: u64) -> (b: bool)
    ensures
        b == name_taken_by_other(rows@, name@, id),
{
    let n = rows.len();
    let mut i: usize = 0;
    while i < n
        invariant
            n == rows@.len(),
            i <= n,
            forall|k: int|
                0 <= k < i ==> !(rows@[k].name@ == name@ && rows@[k].id != id),
        decreases n - i,
    {
        let row = &rows[i];
        if row.id != id && row.name == *name {
            return true;
        }
        i = i + 1;
    }
    false
}

} // verus!
