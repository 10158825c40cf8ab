use mint_ledger::derivation::derive_nonce;
use mint_ledger::keys::{DbKeyPrefix, NoteKey, OperationId};
use mint_ledger::ledger::{CancellationSubscriber, ClientDb, SCHEMA_VERSION};

const TIER: u64 = 1024;
const SECRET: u64 = 7;

#[test]
fn fresh_store_is_empty_and_current() {
    let db = ClientDb::new();
    assert_eq!(db.schema_version, SCHEMA_VERSION);
    assert_eq!(db.next_note_index(TIER), 0);
    assert!(db.list_notes(TIER).is_empty());
    assert!(!db.is_oob_cancelled(OperationId(1)));
}

#[test]
fn reservations_return_consecutive_indices() {
    let mut db = ClientDb::new();
    assert_eq!(db.reserve_next_index(TIER), 0);
    assert_eq!(db.reserve_next_index(TIER), 1);
    assert_eq!(db.reserve_next_index(TIER), 2);
    assert_eq!(db.next_note_index(TIER), 3);
    // an independent denomination has its own sequence
    assert_eq!(db.reserve_next_index(2048), 0);
    assert_eq!(db.next_note_index(TIER), 3);
}

#[test]
fn record_note_is_idempotent() {
    let mut db = ClientDb::new();
    let nonce = derive_nonce(SECRET, TIER, 0);
    db.record_note(TIER, nonce);
    db.record_note(TIER, nonce);
    let notes = db.list_notes(TIER);
    assert_eq!(notes.len(), 1);
    assert_eq!(notes[0], NoteKey { amount: TIER, nonce });
}

#[test]
fn remove_note_removes_and_tolerates_absence() {
    let mut db = ClientDb::new();
    let n0 = derive_nonce(SECRET, TIER, 0);
    let n1 = derive_nonce(SECRET, TIER, 1);
    db.record_note(TIER, n0);
    db.record_note(TIER, n1);
    db.remove_note(TIER, n0);
    assert!(!db.contains_note(TIER, n0));
    assert!(db.contains_note(TIER, n1));
    // removing an absent note is a no-op, not an error
    db.remove_note(TIER, n0);
    assert_eq!(db.list_notes(TIER).len(), 1);
}

#[test]
fn list_notes_is_ordered_and_per_denomination() {
    let mut db = ClientDb::new();
    let n2 = derive_nonce(SECRET, TIER, 2);
    let n0 = derive_nonce(SECRET, TIER, 0);
    let n1 = derive_nonce(SECRET, TIER, 1);
    db.record_note(TIER, n2);
    db.record_note(TIER, n0);
    db.record_note(2048, derive_nonce(SECRET, 2048, 0));
    db.record_note(TIER, n1);
    let notes = db.list_notes(TIER);
    assert_eq!(notes.len(), 3);
    assert_eq!(notes[0].nonce, n0);
    assert_eq!(notes[1].nonce, n1);
    assert_eq!(notes[2].nonce, n2);
    assert_eq!(db.list_notes(2048).len(), 1);
}

#[test]
fn mark_oob_cancelled_notifies_once_per_operation() {
    let mut db = ClientDb::new();
    let mut sub = CancellationSubscriber::new();
    let op_a = OperationId(10);
    let op_b = OperationId(11);

    db.mark_oob_cancelled(op_a);
    db.mark_oob_cancelled(op_a);
    let delta = sub.poll(&db);
    assert_eq!(delta, vec![op_a]);

    db.mark_oob_cancelled(op_b);
    db.mark_oob_cancelled(op_a);
    let delta = sub.poll(&db);
    assert_eq!(delta, vec![op_b]);

    assert!(sub.poll(&db).is_empty());
    assert!(db.is_oob_cancelled(op_a));
    assert!(db.is_oob_cancelled(op_b));
    assert!(!db.is_oob_cancelled(OperationId(12)));
}

#[test]
fn reused_indices_are_recorded_permanently() {
    let mut db = ClientDb::new();
    assert_eq!(db.reserve_next_index(TIER), 0);
    db.record_reused_index(TIER, 0);
    assert!(db.is_reused_index(TIER, 0));
    assert!(!db.is_reused_index(TIER, 1));
    assert!(!db.is_reused_index(2048, 0));
}

#[test]
fn late_subscriber_sees_each_marker_once() {
    let mut db = ClientDb::new();
    db.mark_oob_cancelled(OperationId(1));
    db.mark_oob_cancelled(OperationId(2));
    db.mark_oob_cancelled(OperationId(1));
    let mut sub = CancellationSubscriber::new();
    assert_eq!(sub.poll(&db), vec![OperationId(1), OperationId(2)]);
    assert!(sub.poll(&db).is_empty());
}

#[test]
fn counter_table_reads_back_what_it_holds() {
    let mut t = mint_ledger::counters::CounterTable::new();
    assert_eq!(t.get(TIER), 0);
    t.set(TIER, 4);
    t.set(2048, 9);
    t.set(TIER, 5);
    assert_eq!(t.get(TIER), 5);
    assert_eq!(t.get(2048), 9);
    assert_eq!(t.get(1), 0);
}

#[test]
fn key_prefix_tags_are_stable_and_distinct() {
    assert_eq!(DbKeyPrefix::Note.tag(), 0x20);
    assert_eq!(DbKeyPrefix::NextECashNoteIndex.tag(), 0x2a);
    assert_eq!(DbKeyPrefix::CancelledOOBSpend.tag(), 0x2b);
    assert_eq!(DbKeyPrefix::RecoveryState.tag(), 0x2c);
    assert_eq!(DbKeyPrefix::RecoveryFinalized.tag(), 0x2d);
    assert_eq!(DbKeyPrefix::ReusedNoteIndices.tag(), 0x2e);
    assert_eq!(DbKeyPrefix::Note.name(), "Note");
    assert_eq!(DbKeyPrefix::RecoveryFinalized.name(), "RecoveryFinalized");
}
