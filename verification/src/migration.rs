//! Versioned, one-time schema migrations, run before any other component
//! touches the store.
//!
//! Policy: when an old record's format cannot be safely reinterpreted, the
//! stale record is deleted and the canonical source of truth — the
//! federation's history, via the recovery engine — regenerates correct
//! state. A lossy in-place conversion could corrupt derived invariants; a
//! deleted progress record merely makes recovery restart from the beginning.

use vstd::prelude::*;
use crate::counters::CounterTable;
use crate::ledger::{ClientDb, SCHEMA_VERSION};

verus! {

/// v0 -> v1: the recovery-progress record changed format between the two
/// schemas. Instead of converting it, the stale record is deleted, so a
/// recovery that was in flight starts again cleanly rather than resuming
/// from a misread cursor.
pub fn migrate_to_v1(db: &mut ClientDb)
    requires
        old(db).wf(),
    ensures
        final(db).wf(),
        !final(db).recovery_active,
        final(db).recovery_checkpoint == 0,
        forall|a: u64| final(db).recovery_next.lookup(a) == 0,
        final(db).notes@ == old(db).notes@,
        final(db).counters == old(db).counters,
        final(db).reused_note_indices@ == old(db).reused_note_indices@,
        final(db).cancelled_oob_spends@ == old(db).cancelled_oob_spends@,
        final(db).finalized == old(db).finalized,
        final(db).schema_version == old(db).schema_version,
{
    db.recovery_active = false;
    db.recovery_next = CounterTable::new();
    db.recovery_checkpoint = 0;
}

/// Applies every migration step the store still needs, in version order,
/// and stamps the store with the current schema version. Runs at open,
/// before anything else reads the store; a store already at the current
/// version is left untouched.
pub fn run_migrations(db: &mut ClientDb)
    requires
        old(db).wf(),
        old(db).schema_version <= SCHEMA_VERSION,
    ensures
        final(db).wf(),
        final(db).schema_version == SCHEMA_VERSION,
        old(db).schema_version < 1 ==> !final(db).recovery_active
            && final(db).recovery_checkpoint == 0,
        old(db).schema_version == SCHEMA_VERSION ==> *final(db) == *old(db),
        final(db).notes@ == old(db).notes@,
        final(db).counters == old(db).counters,
        final(db).reused_note_indices@ == old(db).reused_note_indices@,
        final(db).cancelled_oob_spends@ == old(db).cancelled_oob_spends@,
        final(db).finalized == old(db).finalized,
{
    if db.schema_version < 1 {
        migrate_to_v1(db);
        db.schema_version = 1;
    }
}

/// A store that held an old-format recovery-progress record cannot have
/// finalized recovery: the progress record exists only while recovery is
/// incomplete. So after the v0 -> v1 migration deletes the record and
/// leaves the finalized flag as it was, the flag is unset and the next open
/// meets the preconditions of a fresh `start_recovery`.
pub proof fn lemma_v1_migration_enables_fresh_recovery(db0: ClientDb, db1: ClientDb)
    requires
        db0.wf(),
        db0.schema_version == 0,
        db0.recovery_active,
        !db1.recovery_active,
        db1.finalized == db0.finalized,
    ensures
        !db1.recovery_active,
        db1.finalized != Some(true),
{
}

} // verus!
