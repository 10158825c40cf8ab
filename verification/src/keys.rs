//! Structured storage keys for the wallet's record kinds.
//!
//! Every record kind owns a stable one-byte prefix tag, so that the storage
//! capability can scan all records of one kind by prefix and migrations can
//! target a single kind. The unit `...Prefix` types name such a whole-kind
//! scan; the key types carry the attributes that select one record.

use vstd::prelude::*;
use crate::derivation::Nonce;

verus! {

/// One record kind per variant; `tag` gives its stable key prefix.
#[derive(Clone, Copy, PartialEq, Eq, Structural, Debug)]
pub enum DbKeyPrefix {
    Note,
    NextECashNoteIndex,
    CancelledOOBSpend,
    RecoveryState,
    RecoveryFinalized,
    ReusedNoteIndices,
}

/// The stable prefix byte of each record kind.
pub open spec fn spec_tag(p: DbKeyPrefix) -> u8 {
    match p {
        DbKeyPrefix::Note => 0x20,
        DbKeyPrefix::NextECashNoteIndex => 0x2a,
        DbKeyPrefix::CancelledOOBSpend => 0x2b,
        DbKeyPrefix::RecoveryState => 0x2c,
        DbKeyPrefix::RecoveryFinalized => 0x2d,
        DbKeyPrefix::ReusedNoteIndices => 0x2e,
    }
}

impl DbKeyPrefix {
    /// The prefix byte under which records of this kind are stored.
    pub fn tag(&self) -> (t: u8)
        ensures
            t == spec_tag(*self),
    {
        match self {
            DbKeyPrefix::Note => 0x20,
            DbKeyPrefix::NextECashNoteIndex => 0x2a,
            DbKeyPrefix::CancelledOOBSpend => 0x2b,
            DbKeyPrefix::RecoveryState => 0x2c,
            DbKeyPrefix::RecoveryFinalized => 0x2d,
            DbKeyPrefix::ReusedNoteIndices => 0x2e,
        }
    }

    /// Human-readable name of the record kind.
    pub fn name(&self) -> (r: String)
        ensures
            *self == DbKeyPrefix::Note ==> r@ == "Note"@,
            *self == DbKeyPrefix::NextECashNoteIndex ==> r@ == "NextECashNoteIndex"@,
            *self == DbKeyPrefix::CancelledOOBSpend ==> r@ == "CancelledOOBSpend"@,
            *self == DbKeyPrefix::RecoveryState ==> r@ == "RecoveryState"@,
            *self == DbKeyPrefix::RecoveryFinalized ==> r@ == "RecoveryFinalized"@,
            *self == DbKeyPrefix::ReusedNoteIndices ==> r@ == "ReusedNoteIndices"@,
    {
        match self {
            DbKeyPrefix::Note => "Note".to_owned(),
            DbKeyPrefix::NextECashNoteIndex => "NextECashNoteIndex".to_owned(),
            DbKeyPrefix::CancelledOOBSpend => "CancelledOOBSpend".to_owned(),
            DbKeyPrefix::RecoveryState => "RecoveryState".to_owned(),
            DbKeyPrefix::RecoveryFinalized => "RecoveryFinalized".to_owned(),
            DbKeyPrefix::ReusedNoteIndices => "ReusedNoteIndices".to_owned(),
        }
    }
}

/// Distinct record kinds never collide: their prefix bytes differ, so a
/// prefix scan over one kind can never surface a record of another.
pub proof fn lemma_tags_distinct(a: DbKeyPrefix, b: DbKeyPrefix)
    ensures
        a != b ==> spec_tag(a) != spec_tag(b),
{
}

/// Identifies one long-running wallet operation, such as an out-of-band
/// transfer.
#[derive(Clone, Copy, PartialEq, Eq, Structural, Debug, Hash)]
pub struct OperationId(pub u64);

/// Selects one stored note: the pair that is unique across the ledger.
#[derive(Clone, Copy, PartialEq, Eq, Structural, Debug)]
pub struct NoteKey {
    pub amount: u64,
    pub nonce: Nonce,
}

/// Scans every stored note.
#[derive(Clone, Copy, Debug)]
pub struct NoteKeyPrefix;

/// Selects the allocation counter of one denomination.
#[derive(Clone, Copy, PartialEq, Eq, Structural, Debug)]
pub struct NextECashNoteIndexKey(pub u64);

/// Scans the allocation counters of every denomination.
#[derive(Clone, Copy, Debug)]
pub struct NextECashNoteIndexKeyPrefix;

/// Selects the in-flight recovery checkpoint record.
#[derive(Clone, Copy, Debug)]
pub struct RecoveryStateKey;

/// Scans the recovery checkpoint record kind.
#[derive(Clone, Copy, Debug)]
pub struct RestoreStateKeyPrefix;

/// Selects the recovery-finalized flag.
#[derive(Clone, Copy, Debug)]
pub struct RecoveryFinalizedKey;

/// Scans the recovery-finalized record kind.
#[derive(Clone, Copy, Debug)]
pub struct RecoveryFinalizedKeyPrefix;

/// Selects the append-only list of deliberately skipped indices.
#[derive(Clone, Copy, Debug)]
pub struct ReusedNoteIndices;

/// Selects the cancellation marker of one out-of-band operation.
#[derive(Clone, Copy, PartialEq, Eq, Structural, Debug)]
pub struct CancelledOOBSpendKey(pub OperationId);

/// Scans every cancellation marker.
#[derive(Clone, Copy, Debug)]
pub struct CancelledOOBSpendKeyPrefix;

} // verus!
