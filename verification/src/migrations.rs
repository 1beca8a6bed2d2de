//! Versioned schema migrations.
//!
//! A store records its schema version explicitly from version 2 on; older
//! stores are recognised structurally.  `migrate` brings a store of any
//! known version up to the current version, step by step, and refuses to
//! touch one whose version it cannot determine or that is newer than it
//! knows.  Re-running `migrate` on a current store changes nothing.

use vstd::prelude::*;

use crate::database::Database;
use crate::error::StoreError;
use crate::tags::TagRow;

verus! {

/// The schema version this engine operates at.
pub const CURRENT_VERSION: u64 = 2;

/// The structural shape of a store: which tables and marker columns exist,
/// and the version number recorded in the version table, if that table
/// exists and holds one.
#[derive(Clone, Copy)]
pub struct Schema {
    /// The tag table exists (created together with the block table).
    pub has_tags: bool,
    /// The block table exists.
    pub has_time_blocks: bool,
    /// The version table exists (schema version 2 and later).
    pub has_app_info: bool,
    /// The tag table still carries the `protected` marker column of
    /// version 1.
    pub tags_protected_col: bool,
    /// The tag table carries the soft-delete marker column of version 2.
    pub tags_to_delete_col: bool,
    /// The version number read from the version table; `None` when the
    /// table is absent or holds no version record.
    pub recorded_version: Option<u64>,
}

impl Schema {
    /// The shape of a freshly created current-version store.
    pub fn current() -> (s: Schema)
        ensures
            s == spec_current_schema(),
    {
        Schema {
            has_tags: true,
            has_time_blocks: true,
            has_app_info: true,
            tags_protected_col: false,
            tags_to_delete_col: true,
            recorded_version: Some(CURRENT_VERSION),
        }
    }
}

/// The shape of a current-version store.
pub open spec fn spec_current_schema() -> Schema {
    Schema {
        has_tags: true,
        has_time_blocks: true,
        has_app_info: true,
        tags_protected_col: false,
        tags_to_delete_col: true,
        recorded_version: Some(CURRENT_VERSION),
    }
}

/// The version a store is at.  With a version table the recorded number is
/// authoritative (`None` when it cannot be read — a migration fault).
/// Without one, a store that has the block table is a legacy version-1
/// store, and an empty store is version 0.
pub open spec fn spec_version(s: Schema) -> Option<u64> {
    if s.has_app_info {
        s.recorded_version
    } else if s.has_time_blocks {
        Some(1u64)
    } else {
        Some(0u64)
    }
}

/// Reads the store's version, as `spec_version` defines it.  A version
/// table that holds no readable version is a `MigrationFault`.
pub fn database_version(schema: &Schema) -> (r: Result<u64, StoreError>)
    ensures
        match spec_version(*schema) {
            Some(v) => r == Ok::<u64, StoreError>(v),
            None => r == Err::<u64, StoreError>(StoreError::MigrationFault),
        },
{
    if schema.has_app_info {
        match schema.recorded_version {
            Some(v) => Ok(v),
            None => Err(StoreError::MigrationFault),
        }
    } else if schema.has_time_blocks {
        Ok(1)
    } else {
        Ok(0)
    }
}

/// What the step to version 1 does to the schema: both data tables come
/// into being, the tag table with its `protected` marker column.
pub open spec fn schema_v1_of(s: Schema) -> Schema {
    Schema {
        has_tags: true,
        has_time_blocks: true,
        has_app_info: s.has_app_info,
        tags_protected_col: true,
        tags_to_delete_col: s.tags_to_delete_col,
        recorded_version: s.recorded_version,
    }
}

/// What the step to version 2 does to the schema: the version table comes
/// into being, the `protected` column is dropped, the soft-delete column
/// is added, and version 2 is recorded.
pub open spec fn schema_v2_of(s: Schema) -> Schema {
    Schema {
        has_tags: s.has_tags,
        has_time_blocks: s.has_time_blocks,
        has_app_info: true,
        tags_protected_col: false,
        tags_to_delete_col: true,
        recorded_version: Some(CURRENT_VERSION),
    }
}

/// A tag row as the step to version 2 rewrites it: the `protected` marker
/// is gone with its column, and the fresh soft-delete column starts unset.
/// Id and name are untouched.
pub open spec fn row_v2_of(r: TagRow) -> TagRow {
    TagRow { id: r.id, name: r.name, protected: false, to_delete: false }
}

/// What `migrate` does to the schema of a store at a readable version: the
/// remaining steps up to the current version, or a refusal when the store
/// is newer than this engine.
pub open spec fn spec_migrate_schema(s: Schema) -> Result<Schema, StoreError> {
    match spec_version(s) {
        None => Err(StoreError::MigrationFault),
        Some(v) => {
            if v == CURRENT_VERSION {
                Ok(s)
            } else if v == 0 && !s.has_app_info {
                Ok(schema_v2_of(schema_v1_of(s)))
            } else if v == 1 && !s.has_app_info {
                Ok(schema_v2_of(s))
            } else {
                // a version table recording an old version is a shape no
                // migration of this engine ever produced
                Err(StoreError::MigrationFault)
            }
        },
    }
}

/// What `migrate` does to the tag rows of a store at version `v`: the
/// version-2 rewrite when the store is older than version 2, nothing
/// otherwise.  Block rows are never touched by any migration.
pub open spec fn spec_migrate_rows(v: Option<u64>, rows: Seq<TagRow>) -> Seq<TagRow> {
    match v {
        Some(n) => if n < CURRENT_VERSION {
            rows.map_values(|r: TagRow| row_v2_of(r))
        } else {
            rows
        },
        None => rows,
    }
}

/// One schema migration step, as a mirror of the store (the SQL layer)
/// must apply it.
#[derive(Clone, Copy, Debug, PartialEq, Eq, Structural)]
pub enum MigrationStep {
    /// The step to version 1: create the tag table (with its `protected`
    /// marker column) and the block table.
    CreateInitialTables,
    /// The step to version 2: create the version table, swap the tag
    /// table's `protected` column for the soft-delete column, and record
    /// version 2.
    AddVersionTable,
}

/// The steps a store at the given version still needs, in order.
pub open spec fn spec_migration_steps(v: Option<u64>) -> Seq<MigrationStep> {
    match v {
        Some(n) => if n == 0 {
            seq![MigrationStep::CreateInitialTables, MigrationStep::AddVersionTable]
        } else if n == 1 {
            seq![MigrationStep::AddVersionTable]
        } else {
            Seq::empty()
        },
        None => Seq::empty(),
    }
}

/// The migration plan for a store of this shape: the remaining steps, in
/// order, or the same refusal `migrate` gives.  A mirror of the store
/// applies exactly these steps; the version gates are decided here, once.
pub fn migration_steps(schema: &Schema) -> (r: Result<Vec<MigrationStep>, StoreError>)
    ensures
        spec_migrate_schema(*schema) is Ok <==> r is Ok,
        r is Err ==> r == Err::<Vec<MigrationStep>, StoreError>(StoreError::MigrationFault),
        r matches Ok(v) ==> v@ == spec_migration_steps(spec_version(*schema)),
{
    let version = match database_version(schema) {
        Ok(v) => v,
        Err(e) => {
            return Err(e);
        }
    };
    if version > CURRENT_VERSION {
        return Err(StoreError::MigrationFault);
    }
    if version < CURRENT_VERSION && schema.has_app_info {
        return Err(StoreError::MigrationFault);
    }
    let mut steps: Vec<MigrationStep> = Vec::new();
    if version < 1 {
        steps.push(MigrationStep::CreateInitialTables);
    }
    if version < CURRENT_VERSION {
        steps.push(MigrationStep::AddVersionTable);
    }
    proof {
        assert(steps@ =~= spec_migration_steps(spec_version(*schema)));
    }
    Ok(steps)
}

/// Law: migration is idempotent.  A store that `migrate` has brought to
/// the current version is left exactly as it is — same schema, same rows —
/// by a second `migrate`.
pub proof fn lemma_migrate_idempotent(s: Schema, rows: Seq<TagRow>)
    requires
        spec_migrate_schema(s) is Ok,
    ensures
        spec_migrate_schema(s) matches Ok(s2) ==> {
            &&& spec_version(s2) == Some(CURRENT_VERSION)
            &&& spec_migrate_schema(s2) == Ok::<Schema, StoreError>(s2)
            &&& spec_migrate_rows(
                spec_version(s2),
                spec_migrate_rows(spec_version(s), rows),
            ) == spec_migrate_rows(spec_version(s), rows)
        },
{
}

/// The step from version 0 to 1: creates the tag table and the block
/// table.  There is no data yet to touch.
pub fn v0_to_v1(db: &mut Database)
    requires
        old(db).wf(),
        spec_version(old(db).schema) == Some(0u64),
        !old(db).schema.has_app_info,
    ensures
        final(db).wf(),
        final(db).schema == schema_v1_of(old(db).schema),
        final(db).blocks == old(db).blocks,
        final(db).tags == old(db).tags,
        spec_version(final(db).schema) == Some(1u64),
{
    db.schema.has_tags = true;
    db.schema.has_time_blocks = true;
    db.schema.tags_protected_col = true;
}

/// The step from version 1 to 2: creates the version table, swaps the tag
/// table's `protected` column for the soft-delete column, and records
/// version 2.  Block rows and tag ids and names are untouched.
pub fn v1_to_v2(db: &mut Database)
    requires
        old(db).wf(),
        spec_version(old(db).schema) == Some(1u64),
    ensures
        final(db).wf(),
        final(db).schema == schema_v2_of(old(db).schema),
        final(db).blocks == old(db).blocks,
        final(db).tags.next_id == old(db).tags.next_id,
        final(db).tags.rows@ == old(db).tags.rows@.map_values(|r: TagRow| row_v2_of(r)),
        spec_version(final(db).schema) == Some(CURRENT_VERSION),
{
    db.schema.has_app_info = true;
    db.schema.tags_protected_col = false;
    db.schema.tags_to_delete_col = true;
    db.schema.recorded_version = Some(CURRENT_VERSION);

    let n = db.tags.rows.len();
    let mut i: usize = 0;
    while i < n
        invariant
            n == db.tags.rows@.len(),
            i <= n,
            db.blocks == old(db).blocks,
            db.tags.next_id == old(db).tags.next_id,
            db.schema == schema_v2_of(old(db).schema),
            forall|k: int| 0 <= k < i ==> db.tags.rows@[k] == row_v2_of(old(db).tags.rows@[k]),
            forall|k: int| i <= k < n ==> db.tags.rows@[k] == old(db).tags.rows@[k],
        decreases n - i,
    {
        db.tags.rows[i].protected = false;
        db.tags.rows[i].to_delete = false;
        i = i + 1;
    }
    proof {
        let before = old(db).tags.rows@;
        let after = db.tags.rows@;
        assert(after =~= before.map_values(|r: TagRow| row_v2_of(r)));
        assert forall|a: int, b: int| 0 <= a < b < after.len() implies after[a].id
            != after[b].id by {
            assert(before[a].id != before[b].id);
        }
        assert forall|a: int, b: int| 0 <= a < b < after.len() implies after[a].name@
            != after[b].name@ by {
            assert(before[a].name@ != before[b].name@);
        }
    }
}

/// Brings a store of unknown version up to the current version, applying
/// each remaining step in order.  A store whose version cannot be read, or
/// that is newer than this engine, is refused with `MigrationFault` and
/// left untouched: the engine must not operate on it.  A store already at
/// the current version is left exactly as it is.
pub fn migrate(db: &mut Database) -> (r: Result<(), StoreError>)
    requires
        old(db).wf(),
    ensures
        final(db).wf(),
        spec_migrate_schema(old(db).schema) is Err ==> r == Err::<(), StoreError>(
            StoreError::MigrationFault,
        ) && *final(db) == *old(db),
        spec_migrate_schema(old(db).schema) matches Ok(s2) ==> {
            &&& r == Ok::<(), StoreError>(())
            &&& final(db).schema == s2
            &&& spec_version(final(db).schema) == Some(CURRENT_VERSION)
            &&& final(db).blocks == old(db).blocks
            &&& final(db).tags.next_id == old(db).tags.next_id
            &&& final(db).tags.rows@ == spec_migrate_rows(
                spec_version(old(db).schema),
                old(db).tags.rows@,
            )
        },
        spec_version(old(db).schema) == Some(CURRENT_VERSION) ==> r == Ok::<(), StoreError>(())
            && *final(db) == *old(db),
{
    let version = match database_version(&db.schema) {
        Ok(v) => v,
        Err(e) => {
            return Err(e);
        }
    };
    if version > CURRENT_VERSION {
        return Err(StoreError::MigrationFault);
    }
    if version < CURRENT_VERSION && db.schema.has_app_info {
        return Err(StoreError::MigrationFault);
    }
    if version < 1 {
        v0_to_v1(db);
    }
    if version < CURRENT_VERSION {
        v1_to_v2(db);
    }
    Ok(())
}

} // verus!
