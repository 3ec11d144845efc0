//! The version of the stored index, and what has to be done to bring an
//! old store up to date.

use vstd::prelude::*;
use crate::text::{number_in, parse_number};

verus! {

/// The version of the store that this engine writes.
pub const CURRENT_SCHEMA_VERSION: u32 = 2;

/// The version that a store without a readable version counts as.
pub const FIRST_SCHEMA_VERSION: u32 = 1;

/// The version of a store from what it says of itself: the number that is
/// written there, and the first version where nothing is written or no
/// number.
pub open spec fn schema_version_of(stored: Option<Seq<char>>) -> u32 {
    match stored {
        Some(text) => match number_in(text, u32::MAX as nat) {
            Some(v) => v as u32,
            None => FIRST_SCHEMA_VERSION,
        },
        None => FIRST_SCHEMA_VERSION,
    }
}

/// Computes [`schema_version_of`].
pub fn get_schema_version(stored: Option<&str>) -> (r: u32)
    ensures
        r == schema_version_of(
            match stored {
                Some(t) => Some(t@),
                None => None,
            },
        ),
{
    match stored {
        Some(text) => match parse_number(text, u32::MAX) {
            Some(v) => v,
            None => FIRST_SCHEMA_VERSION,
        },
        None => FIRST_SCHEMA_VERSION,
    }
}

/// One step of bringing a store up to date.
#[derive(Clone, Copy, Debug, PartialEq, Eq, Structural)]
pub enum MigrationStep {
    /// Copy the store aside.
    Backup,
    /// Build the full-text index anew with the tokenizer for all scripts.
    RebuildFullTextIndex,
    /// Write the version into the store.
    SetVersion(u32),
}

/// The steps that bring a store of version `current` up to date, in their
/// order: none for a store that is up to date; else a backup, the
/// rebuilding that versions before 2 need, and the writing of the version.
pub open spec fn migration_steps(current: u32) -> Seq<MigrationStep> {
    if current >= CURRENT_SCHEMA_VERSION {
        Seq::empty()
    } else {
        seq![
            MigrationStep::Backup,
            MigrationStep::RebuildFullTextIndex,
            MigrationStep::SetVersion(CURRENT_SCHEMA_VERSION),
        ]
    }
}

/// Computes [`migration_steps`]. Something is migrated exactly where there
/// are steps.
pub fn run_migrations(current_version: u32) -> (r: Vec<MigrationStep>)
    ensures
        r@ == migration_steps(current_version),
{
    let mut steps: Vec<MigrationStep> = Vec::new();
    if current_version >= CURRENT_SCHEMA_VERSION {
        return steps;
    }
    steps.push(MigrationStep::Backup);
    if current_version < 2 {
        steps.push(MigrationStep::RebuildFullTextIndex);
    }
    steps.push(MigrationStep::SetVersion(CURRENT_SCHEMA_VERSION));
    proof {
        assert(steps@ =~= migration_steps(current_version));
    }
    steps
}

/// Whether a store has to be thrown away on loading: it is older than what
/// this engine writes.
pub fn is_outdated(version: u32) -> (r: bool)
    ensures
        r == (version < CURRENT_SCHEMA_VERSION),
{
    version < CURRENT_SCHEMA_VERSION
}

/// The health of the full-text index.
#[derive(Clone, Copy, Debug, PartialEq, Eq, Structural)]
pub struct IndexHealth {
    /// Whether the index holds as many documents as the store.
    pub is_healthy: bool,
    /// The number of documents in the store.
    pub file_count: i64,
    /// The number of documents in the full-text index.
    pub indexed_count: i64,
}

/// The health of the full-text index from the two counts.
pub fn check_fts5_health(file_count: i64, indexed_count: i64) -> (r: IndexHealth)
    ensures
        r == (IndexHealth { is_healthy: file_count == indexed_count, file_count, indexed_count }),
{
    IndexHealth { is_healthy: file_count == indexed_count, file_count, indexed_count }
}

/// Whether the full-text index is built anew after loading: it is not
/// healthy, and documents were loaded.
pub fn needs_rebuild(health: &IndexHealth, loaded_files: usize) -> (r: bool)
    ensures
        r == (!health.is_healthy && loaded_files > 0),
{
    !health.is_healthy && loaded_files > 0
}

} // verus!
