use mint_ledger::derivation::derive_nonce;
use mint_ledger::ledger::{ClientDb, SCHEMA_VERSION};
use mint_ledger::migration::run_migrations;
use mint_ledger::recovery::{HistoryEntry, HistoryEvent, RecoveryAction, RecoveryStatus};

const TIER: u64 = 1024;
const SECRET: u64 = 7;
const OTHER_SECRET: u64 = 99;

fn issuance(secret: u64, amount: u64, index: u64) -> HistoryEntry {
    HistoryEntry::Issuance { amount, nonce: derive_nonce(secret, amount, index) }
}

/// Root secret S, tier T: three reservations yield 0, 1, 2; the ledger is
/// wiped but S retained; recovery over exactly those three issuances
/// restores exactly those notes, and the next reservation returns 3.
#[test]
fn recovery_restores_wiped_wallet() {
    let mut live = ClientDb::new();
    for expected in 0..3u64 {
        let idx = live.reserve_next_index(TIER);
        assert_eq!(idx, expected);
        live.record_note(TIER, derive_nonce(SECRET, TIER, idx));
    }

    // the wallet loses its store; only the root secret survives
    let mut db = ClientDb::new();
    assert_eq!(db.recovery_status(), RecoveryStatus::NotStarted);
    db.start_recovery();
    assert_eq!(db.recovery_status(), RecoveryStatus::InProgress);

    let history = vec![
        issuance(SECRET, TIER, 0),
        issuance(SECRET, TIER, 1),
        issuance(SECRET, TIER, 2),
    ];
    db.process_batch(SECRET, &history, 3);
    db.finalize_recovery();
    assert_eq!(db.recovery_status(), RecoveryStatus::Finalized);

    for idx in 0..3u64 {
        assert!(db.contains_note(TIER, derive_nonce(SECRET, TIER, idx)));
    }
    assert_eq!(db.list_notes(TIER), live.list_notes(TIER));
    assert_eq!(db.next_note_index(TIER), 3);
    assert_eq!(db.reserve_next_index(TIER), 3);
}

#[test]
fn foreign_and_unreadable_entries_are_skipped() {
    let mut db = ClientDb::new();
    db.start_recovery();
    let history = vec![
        issuance(OTHER_SECRET, TIER, 0),
        issuance(SECRET, TIER, 0),
        HistoryEntry::Unreadable,
        issuance(OTHER_SECRET, TIER, 1),
        issuance(SECRET, TIER, 1),
    ];
    db.process_batch(SECRET, &history, 5);
    db.finalize_recovery();

    let notes = db.list_notes(TIER);
    assert_eq!(notes.len(), 2);
    assert!(db.contains_note(TIER, derive_nonce(SECRET, TIER, 0)));
    assert!(db.contains_note(TIER, derive_nonce(SECRET, TIER, 1)));
    assert!(!db.contains_note(TIER, derive_nonce(OTHER_SECRET, TIER, 0)));
    assert_eq!(db.next_note_index(TIER), 2);
}

/// Interrupting after a committed checkpoint and resuming yields the same
/// final ledger and counters as one uninterrupted run.
#[test]
fn interrupted_recovery_matches_uninterrupted() {
    let history = vec![
        issuance(SECRET, TIER, 0),
        issuance(SECRET, 2048, 0),
        issuance(SECRET, TIER, 1),
        issuance(SECRET, 2048, 1),
    ];

    let mut whole = ClientDb::new();
    whole.start_recovery();
    whole.process_batch(SECRET, &history, 4);
    whole.finalize_recovery();

    let mut split = ClientDb::new();
    split.start_recovery();
    split.process_batch(SECRET, &history[..2].to_vec(), 2);
    // crash here: the store holds checkpoint 2 and the first batch's writes;
    // a new run resumes from that committed checkpoint
    assert_eq!(split.recovery_checkpoint, 2);
    split.process_batch(SECRET, &history[2..].to_vec(), 4);
    split.finalize_recovery();

    assert_eq!(split.list_notes(TIER), whole.list_notes(TIER));
    assert_eq!(split.list_notes(2048), whole.list_notes(2048));
    assert_eq!(split.next_note_index(TIER), whole.next_note_index(TIER));
    assert_eq!(split.next_note_index(2048), whole.next_note_index(2048));
}

/// A deliberately skipped index is an expected gap, not a missing note.
#[test]
fn recovery_skips_reused_indices() {
    let mut db = ClientDb::new();
    db.record_reused_index(TIER, 0);
    db.start_recovery();
    // index 0 was reserved but never issued; the history holds index 1 only
    let history = vec![issuance(SECRET, TIER, 1)];
    db.process_batch(SECRET, &history, 1);
    db.finalize_recovery();

    assert!(db.contains_note(TIER, derive_nonce(SECRET, TIER, 1)));
    assert_eq!(db.list_notes(TIER).len(), 1);
    assert_eq!(db.next_note_index(TIER), 2);
}

#[test]
fn replaying_a_committed_batch_adds_nothing() {
    let history = vec![issuance(SECRET, TIER, 0), issuance(SECRET, TIER, 1)];
    let mut db = ClientDb::new();
    db.start_recovery();
    db.process_batch(SECRET, &history, 2);
    let once = db.list_notes(TIER);
    // the same batch delivered again after a crash between fetch and commit
    db.process_batch(SECRET, &history, 2);
    assert_eq!(db.list_notes(TIER), once);
    assert_eq!(db.next_note_index(TIER), 2);
}

#[test]
fn driver_steps_follow_events() {
    let mut db = ClientDb::new();
    db.start_recovery();

    let batch = HistoryEvent::Batch {
        entries: vec![issuance(SECRET, TIER, 0)],
        new_checkpoint: 1,
    };
    assert_eq!(db.recovery_step(SECRET, batch, 0, 3), RecoveryAction::Continue);
    assert_eq!(db.recovery_checkpoint, 1);

    assert_eq!(
        db.recovery_step(SECRET, HistoryEvent::SourceError, 0, 3),
        RecoveryAction::Retry { failures: 1 }
    );
    assert_eq!(
        db.recovery_step(SECRET, HistoryEvent::SourceError, 1, 3),
        RecoveryAction::Retry { failures: 2 }
    );
    assert_eq!(
        db.recovery_step(SECRET, HistoryEvent::SourceError, 2, 3),
        RecoveryAction::Stalled
    );

    assert_eq!(db.recovery_step(SECRET, HistoryEvent::EndOfLog, 0, 3), RecoveryAction::Done);
    assert_eq!(db.recovery_status(), RecoveryStatus::Finalized);
}

/// The v0 -> v1 migration drops an old-format recovery-progress record and
/// leaves the finalized flag unset, so the next open starts recovery afresh.
#[test]
fn migration_drops_stale_recovery_progress() {
    let mut db = ClientDb::new_at_version(0);
    db.start_recovery();
    let history = vec![issuance(SECRET, TIER, 0)];
    db.process_batch(SECRET, &history, 1);
    assert!(db.recovery_active);

    run_migrations(&mut db);
    assert_eq!(db.schema_version, SCHEMA_VERSION);
    assert!(!db.recovery_active);
    assert_eq!(db.recovery_checkpoint, 0);
    assert_eq!(db.finalized, None);
    assert_eq!(db.recovery_status(), RecoveryStatus::NotStarted);
    // recovered notes survive the migration; only the cursor record is gone
    assert!(db.contains_note(TIER, derive_nonce(SECRET, TIER, 0)));
    // and a fresh recovery can begin
    db.start_recovery();
    assert_eq!(db.recovery_status(), RecoveryStatus::InProgress);
}

#[test]
fn recovery_over_empty_history_finalizes_empty() {
    let mut db = ClientDb::new();
    db.start_recovery();
    db.process_batch(SECRET, &Vec::new(), 0);
    db.finalize_recovery();
    assert_eq!(db.recovery_status(), RecoveryStatus::Finalized);
    assert!(db.list_notes(TIER).is_empty());
    assert_eq!(db.next_note_index(TIER), 0);
}

#[test]
fn recovery_does_not_shrink_a_higher_counter() {
    // live issuance continued while recovery replayed an older prefix: the
    // shared counter only ever advances
    let mut db = ClientDb::new();
    for _ in 0..5 {
        db.reserve_next_index(TIER);
    }
    db.start_recovery();
    db.process_batch(SECRET, &vec![issuance(SECRET, TIER, 0)], 1);
    assert_eq!(db.next_note_index(TIER), 5);
}

#[test]
fn migration_leaves_current_store_untouched() {
    let mut db = ClientDb::new();
    db.record_note(TIER, derive_nonce(SECRET, TIER, 0));
    let before = db.list_notes(TIER);
    run_migrations(&mut db);
    assert_eq!(db.schema_version, SCHEMA_VERSION);
    assert_eq!(db.list_notes(TIER), before);
}
