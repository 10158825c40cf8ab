//! The persistent state of one wallet: the note ledger, the per-denomination
//! index allocator, out-of-band cancellation markers, and the recovery
//! engine's checkpoint record.
//!
//! Every mutating method models one atomic storage transaction: callers are
//! serialized by the storage layer, so the sequential contracts here describe
//! each interleaving of concurrent callers.

use vstd::prelude::*;
use crate::counters::CounterTable;
use crate::derivation::{nonce_lt, nonce_less, Nonce};
use crate::keys::{NoteKey, OperationId};

verus! {

/// Strict order in which the ledger keeps its notes: by amount tier, then by
/// nonce.
pub open spec fn note_lt(a: NoteKey, b: NoteKey) -> bool {
    a.amount < b.amount || (a.amount == b.amount && nonce_lt(a.nonce, b.nonce))
}

/// Executable comparison agreeing with `note_lt`.
pub fn note_less(a: &NoteKey, b: &NoteKey) -> (r: bool)
    ensures
        r == note_lt(*a, *b),
{
    if a.amount != b.amount {
        a.amount < b.amount
    } else {
        nonce_less(&a.nonce, &b.nonce)
    }
}

/// Strictly sorted: the order is total and irreflexive, so this also means
/// every (amount, nonce) pair occurs at most once.
pub open spec fn notes_sorted(s: Seq<NoteKey>) -> bool {
    forall|i: int, j: int| 0 <= i < j < s.len() ==> note_lt(#[trigger] s[i], #[trigger] s[j])
}

pub open spec fn no_duplicate_ops(s: Seq<OperationId>) -> bool {
    forall|i: int, j: int| 0 <= i < j < s.len() ==> #[trigger] s[i] != #[trigger] s[j]
}

/// Schema version written by the current code.
pub const SCHEMA_VERSION: u64 = 1;

/// The stored state of one wallet identity. Exclusive open is enforced
/// externally: one live value of this type per store.
pub struct ClientDb {
    /// Spendable notes, strictly ordered by (amount, nonce).
    pub notes: Vec<NoteKey>,
    /// Per-denomination allocation counters: the next free index of each
    /// amount tier.
    pub counters: CounterTable,
    /// Append-only record of (amount, index) pairs that were reserved but
    /// deliberately never issued.
    pub reused_note_indices: Vec<(u64, u64)>,
    /// Cancellation markers of out-of-band spends, in order of first write.
    /// This sequence is also the change-notification log: subscribers are
    /// woken once per appended entry.
    pub cancelled_oob_spends: Vec<OperationId>,
    /// Whether a history replay is in flight.
    pub recovery_active: bool,
    /// While recovery is active: the next expected index of each
    /// denomination, maintained independently of `counters`.
    pub recovery_next: CounterTable,
    /// While recovery is active: the position in the federation's history
    /// log up to which processed batches have been committed.
    pub recovery_checkpoint: u64,
    /// Set once recovery completes; recovery never restarts automatically
    /// after that.
    pub finalized: Option<bool>,
    /// On-disk schema version; migrations raise it to `SCHEMA_VERSION`.
    pub schema_version: u64,
}

impl ClientDb {
    /// Internal consistency of a stored wallet state.
    pub open spec fn wf(self) -> bool {
        &&& notes_sorted(self.notes@)
        &&& self.counters.wf()
        &&& self.recovery_next.wf()
        &&& no_duplicate_ops(self.cancelled_oob_spends@)
        &&& (self.recovery_active ==> self.finalized != Some(true))
        &&& (forall|i: int|
            0 <= i < self.reused_note_indices@.len() ==> (
            #[trigger] self.reused_note_indices@[i]).1 < u64::MAX)
    }

    /// The set of spendable notes: presence here is both necessary and
    /// sufficient evidence that a note is spendable.
    pub open spec fn note_set(self) -> Set<NoteKey> {
        self.notes@.to_set()
    }

    /// A fresh, empty store at the current schema version.
    pub fn new() -> (db: ClientDb)
        ensures
            db.wf(),
            db.notes@.len() == 0,
            forall|a: u64| db.counters.lookup(a) == 0,
            db.reused_note_indices@.len() == 0,
            db.cancelled_oob_spends@.len() == 0,
            !db.recovery_active,
            db.finalized is None,
            db.schema_version == SCHEMA_VERSION,
    {
        ClientDb {
            notes: Vec::new(),
            counters: CounterTable::new(),
            reused_note_indices: Vec::new(),
            cancelled_oob_spends: Vec::new(),
            recovery_active: false,
            recovery_next: CounterTable::new(),
            recovery_checkpoint: 0,
            finalized: None,
            schema_version: SCHEMA_VERSION,
        }
    }

    /// A fresh, empty store as code before the current schema wrote it:
    /// the starting point of the migration runner.
    pub fn new_at_version(version: u64) -> (db: ClientDb)
        ensures
            db.wf(),
            db.notes@.len() == 0,
            forall|a: u64| db.counters.lookup(a) == 0,
            db.reused_note_indices@.len() == 0,
            db.cancelled_oob_spends@.len() == 0,
            !db.recovery_active,
            db.finalized is None,
            db.schema_version == version,
    {
        let mut db = ClientDb::new();
        db.schema_version = version;
        db
    }

    /// Reserves the next free index of `amount` and advances the counter
    /// past it, in one transaction. No index is ever handed out twice: the
    /// k-th reservation of a denomination returns k plus whatever the
    /// counter held at the start.
    pub fn reserve_next_index(&mut self, amount: u64) -> (idx: u64)
        requires
            old(self).wf(),
            old(self).counters.lookup(amount) < u64::MAX,
        ensures
            final(self).wf(),
            idx == old(self).counters.lookup(amount),
            final(self).counters.lookup(amount) == idx + 1,
            forall|b: u64|
                b != amount ==> final(self).counters.lookup(b) == old(self).counters.lookup(b),
            final(self).notes@ == old(self).notes@,
            final(self).reused_note_indices@ == old(self).reused_note_indices@,
            final(self).cancelled_oob_spends@ == old(self).cancelled_oob_spends@,
            final(self).recovery_active == old(self).recovery_active,
            final(self).recovery_next == old(self).recovery_next,
            final(self).recovery_checkpoint == old(self).recovery_checkpoint,
            final(self).finalized == old(self).finalized,
            final(self).schema_version == old(self).schema_version,
    {
        let idx = self.counters.get(amount);
        self.counters.set(amount, idx + 1);
        idx
    }

    /// Reads the allocation counter of `amount` without reserving.
    pub fn next_note_index(&self, amount: u64) -> (r: u64)
        ensures
            r == self.counters.lookup(amount),
    {
        self.counters.get(amount)
    }

    /// Records an index that was reserved but will never be issued, so that
    /// recovery treats it as an expected gap rather than a missing note.
    /// The record is append-only.
    pub fn record_reused_index(&mut self, amount: u64, index: u64)
        requires
            old(self).wf(),
            index < u64::MAX,
        ensures
            final(self).wf(),
            final(self).reused_note_indices@ == old(self).reused_note_indices@.push(
                (amount, index),
            ),
            final(self).notes@ == old(self).notes@,
            final(self).counters == old(self).counters,
            final(self).cancelled_oob_spends@ == old(self).cancelled_oob_spends@,
            final(self).recovery_active == old(self).recovery_active,
            final(self).recovery_next == old(self).recovery_next,
            final(self).recovery_checkpoint == old(self).recovery_checkpoint,
            final(self).finalized == old(self).finalized,
            final(self).schema_version == old(self).schema_version,
    {
        self.reused_note_indices.push((amount, index));
    }

    /// Whether (amount, index) is marked as deliberately skipped.
    pub fn is_reused_index(&self, amount: u64, index: u64) -> (r: bool)
        ensures
            r == self.reused_note_indices@.contains((amount, index)),
    {
        let n = self.reused_note_indices.len();
        let mut i: usize = 0;
        while i < n && !(self.reused_note_indices[i].0 == amount
            && self.reused_note_indices[i].1 == index)
            invariant
                i <= n,
                n == self.reused_note_indices@.len(),
                forall|j: int|
                    0 <= j < i ==> #[trigger] self.reused_note_indices@[j] != (amount, index),
            decreases n - i,
        {
            i = i + 1;
        }
        if i < n {
            proof {
                assert(self.reused_note_indices@[i as int] == (amount, index));
            }
            true
        } else {
            false
        }
    }

    /// Idempotent insert: recording an already-present (amount, nonce) pair
    /// is a no-op returning success, as both the issuance-confirmation path
    /// and the recovery path may record the same note.
    pub fn record_note(&mut self, amount: u64, nonce: Nonce)
        requires
            old(self).wf(),
        ensures
            final(self).wf(),
            final(self).note_set() == old(self).note_set().insert(
                NoteKey { amount, nonce },
            ),
            old(self).notes@.contains(NoteKey { amount, nonce }) ==> final(self).notes@ == old(self).notes@,
            !old(self).notes@.contains(NoteKey { amount, nonce }) ==> final(self).notes@.len()
                == old(self).notes@.len() + 1,
            final(self).counters == old(self).counters,
            final(self).reused_note_indices@ == old(self).reused_note_indices@,
            final(self).cancelled_oob_spends@ == old(self).cancelled_oob_spends@,
            final(self).recovery_active == old(self).recovery_active,
            final(self).recovery_next == old(self).recovery_next,
            final(self).recovery_checkpoint == old(self).recovery_checkpoint,
            final(self).finalized == old(self).finalized,
            final(self).schema_version == old(self).schema_version,
    {
        let key = NoteKey { amount, nonce };
        let ghost s = self.notes@;
        let n = self.notes.len();
        let mut i: usize = 0;
        while i < n && note_less(&self.notes[i], &key)
            invariant
                i <= n,
                n == s.len(),
                s == self.notes@,
                *self == *old(self),
                notes_sorted(s),
                forall|j: int| 0 <= j < i ==> note_lt(#[trigger] s[j], key),
            decreases n - i,
        {
            i = i + 1;
        }
        if i < n && self.notes[i].amount == key.amount && self.notes[i].nonce == key.nonce {
            proof {
                assert(s[i as int] == key);
                assert(s.contains(key));
                assert(self.note_set() =~= self.note_set().insert(key));
            }
            return ;
        }
        proof {
            if i < s.len() {
                lemma_note_lt_connected(key, s[i as int]);
            }
        }
        let ghost ii = i as int;
        self.notes.insert(i, key);
        proof {
            s.insert_ensures(ii, key);
            let t = self.notes@;
            assert(t == s.insert(ii, key));
            // the new list is still strictly sorted
            assert forall|p: int, q: int| 0 <= p < q < t.len() implies note_lt(t[p], t[q]) by {
                if q < ii {
                    assert(t[p] == s[p] && t[q] == s[q]);
                } else if p > ii {
                    assert(t[p] == s[p - 1] && t[q] == s[q - 1]);
                } else if p < ii && q > ii {
                    assert(t[p] == s[p] && t[q] == s[q - 1]);
                } else if p == ii {
                    // t[p] == key; q - 1 >= ii, so key < s[ii] <= s[q - 1]
                    assert(t[q] == s[q - 1]);
                    if q - 1 > ii {
                        assert(note_lt(s[ii], s[q - 1]));
                    }
                } else {
                    // q == ii: t[q] == key and p < ii
                    assert(t[p] == s[p]);
                }
            }
            // membership: exactly the old notes plus the new key
            assert forall|x: NoteKey| t.contains(x) implies (s.contains(x) || x == key) by {
                let j = choose|j: int| 0 <= j < t.len() && t[j] == x;
                if j < ii {
                    assert(s[j] == x);
                } else if j > ii {
                    assert(s[j - 1] == x);
                }
            }
            assert forall|x: NoteKey| s.contains(x) || x == key implies t.contains(x) by {
                if x == key {
                    assert(t[ii] == x);
                } else {
                    let j = choose|j: int| 0 <= j < s.len() && s[j] == x;
                    if j < ii {
                        assert(t[j] == x);
                    } else {
                        assert(t[j + 1] == x);
                    }
                }
            }
            assert(t.to_set() =~= s.to_set().insert(key));
        }
    }

    /// Removes a note on confirmed spend. Removing an absent note is not an
    /// error, guarding against duplicate spend-confirmation delivery.
    pub fn remove_note(&mut self, amount: u64, nonce: Nonce)
        requires
            old(self).wf(),
        ensures
            final(self).wf(),
            final(self).note_set() == old(self).note_set().remove(NoteKey { amount, nonce }),
            !old(self).notes@.contains(NoteKey { amount, nonce }) ==> final(self).notes@ == old(self).notes@,
            final(self).counters == old(self).counters,
            final(self).reused_note_indices@ == old(self).reused_note_indices@,
            final(self).cancelled_oob_spends@ == old(self).cancelled_oob_spends@,
            final(self).recovery_active == old(self).recovery_active,
            final(self).recovery_next == old(self).recovery_next,
            final(self).recovery_checkpoint == old(self).recovery_checkpoint,
            final(self).finalized == old(self).finalized,
            final(self).schema_version == old(self).schema_version,
    {
        let key = NoteKey { amount, nonce };
        let ghost s = self.notes@;
        let n = self.notes.len();
        let mut i: usize = 0;
        while i < n && !(self.notes[i].amount == key.amount && self.notes[i].nonce == key.nonce)
            invariant
                i <= n,
                n == s.len(),
                s == self.notes@,
                *self == *old(self),
                notes_sorted(s),
                forall|j: int| 0 <= j < i ==> #[trigger] s[j] != key,
            decreases n - i,
        {
            i = i + 1;
        }
        if i < n {
            let ghost ii = i as int;
            proof {
                assert(s[ii] == key);
            }
            self.notes.remove(i);
            proof {
                s.remove_ensures(ii);
                let t = self.notes@;
                assert(t == s.remove(ii));
                assert forall|p: int, q: int| 0 <= p < q < t.len() implies note_lt(
                    t[p],
                    t[q],
                ) by {
                    if q < ii {
                    } else if p >= ii {
                        assert(t[p] == s[p + 1] && t[q] == s[q + 1]);
                    } else {
                        assert(t[p] == s[p] && t[q] == s[q + 1]);
                    }
                }
                // key occurs only at ii, so it is gone; everything else stays
                assert forall|x: NoteKey| t.contains(x) implies (s.contains(x) && x != key) by {
                    let j = choose|j: int| 0 <= j < t.len() && t[j] == x;
                    if j < ii {
                        assert(s[j] == x);
                        assert(note_lt(s[j], s[ii]));
                    } else {
                        assert(s[j + 1] == x);
                        assert(note_lt(s[ii], s[j + 1]));
                    }
                }
                assert forall|x: NoteKey| s.contains(x) && x != key implies t.contains(x) by {
                    let j = choose|j: int| 0 <= j < s.len() && s[j] == x;
                    if j < ii {
                        assert(t[j] == x);
                    } else {
                        assert(j != ii);
                        assert(t[j - 1] == x);
                    }
                }
                assert(t.to_set() =~= s.to_set().remove(key));
            }
        } else {
            proof {
                assert(!s.contains(key));
                assert(self.note_set() =~= self.note_set().remove(key));
            }
        }
    }

    /// Whether the ledger holds (amount, nonce) as spendable.
    pub fn contains_note(&self, amount: u64, nonce: Nonce) -> (r: bool)
        ensures
            r == self.notes@.contains(NoteKey { amount, nonce }),
    {
        let key = NoteKey { amount, nonce };
        let n = self.notes.len();
        let mut i: usize = 0;
        while i < n && !(self.notes[i].amount == key.amount && self.notes[i].nonce == key.nonce)
            invariant
                i <= n,
                n == self.notes@.len(),
                forall|j: int| 0 <= j < i ==> #[trigger] self.notes@[j] != key,
            decreases n - i,
        {
            i = i + 1;
        }
        if i < n {
            proof {
                assert(self.notes@[i as int] == key);
            }
            true
        } else {
            false
        }
    }

    /// The notes of one denomination, ordered by nonce: a finite,
    /// restartable listing for an external spend-selection algorithm.
    pub fn list_notes(&self, amount: u64) -> (r: Vec<NoteKey>)
        requires
            self.wf(),
        ensures
            notes_sorted(r@),
            forall|k: NoteKey| r@.contains(k) <==> (self.notes@.contains(k) && k.amount == amount),
    {
        let ghost s = self.notes@;
        let n = self.notes.len();
        let mut r: Vec<NoteKey> = Vec::new();
        let mut i: usize = 0;
        while i < n
            invariant
                i <= n,
                n == s.len(),
                s == self.notes@,
                notes_sorted(s),
                notes_sorted(r@),
                forall|k: NoteKey| r@.contains(k) <==> (s.take(i as int).contains(k) && k.amount
                    == amount),
                forall|x: NoteKey| #[trigger] r@.contains(x) ==> exists|j: int|
                    0 <= j < i && s[j] == x,
            decreases n - i,
        {
            let cur = self.notes[i];
            let ghost r0 = r@;
            if cur.amount == amount {
                r.push(cur);
                proof {
                    assert(r@ == r0.push(cur));
                    assert forall|p: int, q: int| 0 <= p < q < r@.len() implies note_lt(
                        r@[p],
                        r@[q],
                    ) by {
                        if q == r@.len() - 1 {
                            assert(r0.contains(r0[p]));
                            let j = choose|j: int| 0 <= j < i && s[j] == r0[p];
                            assert(note_lt(s[j], s[i as int]));
                        }
                    }
                    assert forall|x: NoteKey| #[trigger] r@.contains(x) implies exists|j: int|
                        0 <= j < i + 1 && s[j] == x by {
                        let p = choose|p: int| 0 <= p < r@.len() && r@[p] == x;
                        if p < r0.len() {
                            assert(r0.contains(x));
                        } else {
                            assert(s[i as int] == x);
                        }
                    }
                }
            }
            proof {
                assert(s.take(i + 1).drop_last() =~= s.take(i as int));
                assert(s.take(i + 1).last() == s[i as int]);
                assert forall|k: NoteKey| r@.contains(k) implies (s.take(i + 1).contains(k)
                    && k.amount == amount) by {
                    if r0.contains(k) {
                        let j = choose|j: int| 0 <= j < i && s[j] == k;
                        assert(s.take(i + 1)[j] == k);
                    } else {
                        assert(k == s[i as int]);
                        assert(s.take(i + 1)[i as int] == k);
                    }
                }
                assert forall|k: NoteKey| s.take(i + 1).contains(k) && k.amount
                    == amount implies r@.contains(k) by {
                    let j = choose|j: int| 0 <= j < i + 1 && #[trigger] s.take(i + 1)[j] == k;
                    if j < i {
                        assert(s.take(i as int)[j] == k);
                        assert(s.take(i as int).contains(k));
                        assert(r0.contains(k));
                        if cur.amount == amount {
                            assert(r@ == r0.push(cur));
                            assert(r@[choose|p: int| 0 <= p < r0.len() && r0[p] == k] == k);
                        }
                    } else {
                        assert(k == s[i as int]);
                        assert(r@.last() == k);
                    }
                }
            }
            i = i + 1;
        }
        proof {
            assert(s.take(n as int) =~= s);
        }
        r
    }

    /// Idempotent write of a cancellation marker. The first write of a
    /// distinct operation identifier appends exactly one entry to the
    /// notification log; repeats change nothing, so each subscriber is woken
    /// at most once per identifier.
    pub fn mark_oob_cancelled(&mut self, operation_id: OperationId)
        requires
            old(self).wf(),
        ensures
            final(self).wf(),
            old(self).cancelled_oob_spends@.contains(operation_id) ==> final(self).cancelled_oob_spends@ == old(self).cancelled_oob_spends@,
            !old(self).cancelled_oob_spends@.contains(operation_id) ==> final(self).cancelled_oob_spends@ == old(self).cancelled_oob_spends@.push(operation_id),
            final(self).cancelled_oob_spends@.contains(operation_id),
            final(self).notes@ == old(self).notes@,
            final(self).counters == old(self).counters,
            final(self).reused_note_indices@ == old(self).reused_note_indices@,
            final(self).recovery_active == old(self).recovery_active,
            final(self).recovery_next == old(self).recovery_next,
            final(self).recovery_checkpoint == old(self).recovery_checkpoint,
            final(self).finalized == old(self).finalized,
            final(self).schema_version == old(self).schema_version,
    {
        let ghost s = self.cancelled_oob_spends@;
        let n = self.cancelled_oob_spends.len();
        let mut i: usize = 0;
        while i < n && !(self.cancelled_oob_spends[i].0 == operation_id.0)
            invariant
                i <= n,
                n == s.len(),
                s == self.cancelled_oob_spends@,
                *self == *old(self),
                forall|j: int| 0 <= j < i ==> #[trigger] s[j] != operation_id,
            decreases n - i,
        {
            i = i + 1;
        }
        if i < n {
            proof {
                assert(s[i as int] == operation_id);
                assert(s.contains(operation_id));
            }
            return ;
        }
        self.cancelled_oob_spends.push(operation_id);
        proof {
            assert(!s.contains(operation_id));
            let t = self.cancelled_oob_spends@;
            assert(t.last() == operation_id);
            assert(t.contains(operation_id));
            assert forall|p: int, q: int| 0 <= p < q < t.len() implies t[p] != t[q] by {
                if q == t.len() - 1 {
                    assert(s[p] != operation_id);
                }
            }
        }
    }

    /// Whether an out-of-band operation is marked cancelled.
    pub fn is_oob_cancelled(&self, operation_id: OperationId) -> (r: bool)
        ensures
            r == self.cancelled_oob_spends@.contains(operation_id),
    {
        let n = self.cancelled_oob_spends.len();
        let mut i: usize = 0;
        while i < n && !(self.cancelled_oob_spends[i].0 == operation_id.0)
            invariant
                i <= n,
                n == self.cancelled_oob_spends@.len(),
                forall|j: int| 0 <= j < i ==> #[trigger] self.cancelled_oob_spends@[j]
                    != operation_id,
            decreases n - i,
        {
            i = i + 1;
        }
        if i < n {
            proof {
                assert(self.cancelled_oob_spends@[i as int] == operation_id);
            }
            true
        } else {
            false
        }
    }
}

/// The note order is connected: two distinct keys always compare.
pub proof fn lemma_note_lt_connected(a: NoteKey, b: NoteKey)
    ensures
        a != b ==> note_lt(a, b) || note_lt(b, a),
        !note_lt(a, a),
{
}

/// A subscriber to the cancellation-marker notification log. It sees each
/// appended marker exactly once: the log never repeats an identifier, and
/// `poll` hands out each position once.
pub struct CancellationSubscriber {
    pub cursor: usize,
}

impl CancellationSubscriber {
    pub fn new() -> (s: CancellationSubscriber)
        ensures
            s.cursor == 0,
    {
        CancellationSubscriber { cursor: 0 }
    }

    /// Delivers the markers written since the previous poll, in write order,
    /// and advances past them.
    pub fn poll(&mut self, db: &ClientDb) -> (delta: Vec<OperationId>)
        requires
            old(self).cursor <= db.cancelled_oob_spends@.len(),
        ensures
            delta@ == db.cancelled_oob_spends@.subrange(
                old(self).cursor as int,
                db.cancelled_oob_spends@.len() as int,
            ),
            final(self).cursor == db.cancelled_oob_spends@.len(),
    {
        let n = db.cancelled_oob_spends.len();
        let ghost c0 = self.cursor as int;
        let mut delta: Vec<OperationId> = Vec::new();
        let mut i: usize = self.cursor;
        while i < n
            invariant
                0 <= c0 <= i as int <= n,
                n == db.cancelled_oob_spends@.len(),
                delta@ == db.cancelled_oob_spends@.subrange(c0, i as int),
            decreases n - i,
        {
            delta.push(db.cancelled_oob_spends[i]);
            proof {
                assert(db.cancelled_oob_spends@.subrange(c0, i + 1) =~= db.cancelled_oob_spends@
                    .subrange(c0, i as int).push(db.cancelled_oob_spends@[i as int]));
            }
            i = i + 1;
        }
        self.cursor = n;
        delta
    }
}

} // verus!
