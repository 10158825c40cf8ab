//! History-replay recovery: reconstructing a wallet from the federation's
//! append-only issuance history and the root secret alone.
//!
//! The engine walks the history in batches. For each denomination it derives
//! the nonce it expects at its next unrecovered index, independently of the
//! (possibly absent) allocation counter; a matching history entry is recorded
//! as a note and both the recovery cursor and the counter advance past the
//! matched index. Indices marked as deliberately reused are expected gaps and
//! are skipped. Unmatched entries belong to other wallets and are ignored;
//! unreadable entries are skipped, never fatal.
//!
//! Batch processing commits notes, counters, and the new checkpoint in one
//! transaction, so a replay interrupted anywhere resumes from the last
//! committed checkpoint and converges to the same final state.

use vstd::prelude::*;
use crate::derivation::{derive_nonce, spec_derive_nonce, Nonce};
use crate::keys::NoteKey;
use crate::ledger::ClientDb;

verus! {

/// One entry of the federation's issuance history, as handed to the engine
/// by the external history source.
#[derive(Clone, Copy, PartialEq, Eq, Structural, Debug)]
pub enum HistoryEntry {
    /// A blind issuance: some wallet requested a note of `amount` under
    /// `nonce`.
    Issuance { amount: u64, nonce: Nonce },
    /// An entry whose format this version cannot decode; skipped and never
    /// fatal, as federations evolve entry formats.
    Unreadable,
}

/// Where the recovery state machine stands.
#[derive(Clone, Copy, PartialEq, Eq, Structural, Debug)]
pub enum RecoveryStatus {
    NotStarted,
    InProgress,
    Finalized,
}

/// What the external history source reported for one fetch at the committed
/// checkpoint.
#[derive(Clone, Debug)]
pub enum HistoryEvent {
    /// The next batch of entries, and the checkpoint to commit after them.
    Batch { entries: Vec<HistoryEntry>, new_checkpoint: u64 },
    /// The source reports no further history.
    EndOfLog,
    /// A transient failure (network, timeout). The driver retries with
    /// backoff; the backoff policy itself is the caller's, configurable
    /// concern.
    SourceError,
}

/// What the driver loop must do next after one step.
#[derive(Clone, Copy, PartialEq, Eq, Structural, Debug)]
pub enum RecoveryAction {
    /// The batch was committed: fetch the next one at the new checkpoint.
    Continue,
    /// Transient failure: fetch again after backoff, carrying the failure
    /// count.
    Retry { failures: u64 },
    /// Failures reached the stall threshold: recovery is stalled, observable
    /// via the progress record, without failing the wallet open.
    Stalled,
    /// End of log: recovery is finalized.
    Done,
}

/// How many reuse markers for `amount` sit at index `j` or above: the
/// termination measure for skipping over marked gaps.
pub open spec fn reuse_marks_from(reused: Seq<(u64, u64)>, amount: u64, j: u64) -> nat
    decreases reused.len(),
{
    if reused.len() == 0 {
        0
    } else {
        reuse_marks_from(reused.drop_last(), amount, j) + if reused.last().0 == amount
            && reused.last().1 >= j {
            1nat
        } else {
            0nat
        }
    }
}

pub proof fn lemma_reuse_marks_monotone(reused: Seq<(u64, u64)>, amount: u64, j1: u64, j2: u64)
    requires
        j1 <= j2,
    ensures
        reuse_marks_from(reused, amount, j2) <= reuse_marks_from(reused, amount, j1),
    decreases reused.len(),
{
    if reused.len() > 0 {
        lemma_reuse_marks_monotone(reused.drop_last(), amount, j1, j2);
    }
}

pub proof fn lemma_reuse_marks_step(reused: Seq<(u64, u64)>, amount: u64, j: u64)
    requires
        reused.contains((amount, j)),
        j < u64::MAX,
    ensures
        reuse_marks_from(reused, amount, (j + 1) as u64) < reuse_marks_from(reused, amount, j),
    decreases reused.len(),
{
    let pre = reused.drop_last();
    lemma_reuse_marks_monotone(pre, amount, j, (j + 1) as u64);
    if reused.last() == (amount, j) {
    } else {
        let k = choose|k: int| 0 <= k < reused.len() && reused[k] == (amount, j);
        assert(k < reused.len() - 1);
        assert(pre[k] == (amount, j));
        assert(pre.contains((amount, j)));
        lemma_reuse_marks_step(pre, amount, j);
    }
}

/// The next index of `amount` at or above `j` that is not marked as
/// deliberately reused: the index recovery expects to see issued next.
pub open spec fn skip_reused(reused: Seq<(u64, u64)>, amount: u64, j: u64) -> u64
    decreases reuse_marks_from(reused, amount, j),
        when true
        via skip_reused_decreases
{
    if j < u64::MAX && reused.contains((amount, j)) {
        skip_reused(reused, amount, (j + 1) as u64)
    } else {
        j
    }
}

#[via_fn]
proof fn skip_reused_decreases(reused: Seq<(u64, u64)>, amount: u64, j: u64) {
    if j < u64::MAX && reused.contains((amount, j)) {
        lemma_reuse_marks_step(reused, amount, j);
    }
}

/// The abstract state the replay drives: the spendable notes, the live
/// allocation counters, and the per-denomination recovery cursors, each as a
/// total function of the denomination.
#[verifier::ext_equal]
pub struct ReplayState {
    pub notes: Set<NoteKey>,
    pub counter: Map<u64, u64>,
    pub next: Map<u64, u64>,
}

/// The replay-relevant abstraction of a stored wallet state.
pub open spec fn replay_view(db: ClientDb) -> ReplayState {
    ReplayState {
        notes: db.notes@.to_set(),
        counter: Map::new(|a: u64| true, |a: u64| db.counters.lookup(a)),
        next: Map::new(|a: u64| true, |a: u64| db.recovery_next.lookup(a)),
    }
}

/// The state a freshly started recovery begins from: nothing recovered,
/// every cursor at zero.
pub open spec fn fresh_replay_state() -> ReplayState {
    ReplayState {
        notes: Set::empty(),
        counter: Map::new(|a: u64| true, |a: u64| 0u64),
        next: Map::new(|a: u64| true, |a: u64| 0u64),
    }
}

/// The effect of one history entry on the replay state: a match at the next
/// unreused index records the note and advances cursor and counter past it;
/// anything else changes nothing.
pub open spec fn apply_entry(
    secret: u64,
    reused: Seq<(u64, u64)>,
    st: ReplayState,
    e: HistoryEntry,
) -> ReplayState {
    match e {
        HistoryEntry::Unreadable => st,
        HistoryEntry::Issuance { amount, nonce } => {
            let j = skip_reused(reused, amount, st.next[amount]);
            if j < u64::MAX && nonce == spec_derive_nonce(secret, amount, j) {
                ReplayState {
                    notes: st.notes.insert(NoteKey { amount, nonce }),
                    next: st.next.insert(amount, (j + 1) as u64),
                    counter: if st.counter[amount] < j + 1 {
                        st.counter.insert(amount, (j + 1) as u64)
                    } else {
                        st.counter
                    },
                }
            } else {
                st
            }
        },
    }
}

/// The effect of a whole batch, first entry first.
pub open spec fn apply_entries(
    secret: u64,
    reused: Seq<(u64, u64)>,
    st: ReplayState,
    es: Seq<HistoryEntry>,
) -> ReplayState
    decreases es.len(),
{
    if es.len() == 0 {
        st
    } else {
        apply_entries(secret, reused, apply_entry(secret, reused, st, es.first()), es.drop_first())
    }
}

/// Processing one more entry continues the fold.
pub proof fn lemma_apply_entries_snoc(
    secret: u64,
    reused: Seq<(u64, u64)>,
    st: ReplayState,
    es: Seq<HistoryEntry>,
    e: HistoryEntry,
)
    ensures
        apply_entries(secret, reused, st, es.push(e)) == apply_entry(
            secret,
            reused,
            apply_entries(secret, reused, st, es),
            e,
        ),
    decreases es.len(),
{
    if es.len() == 0 {
        assert(es.push(e).drop_first() =~= Seq::<HistoryEntry>::empty());
        assert(es.push(e).first() == e);
        assert(apply_entries(secret, reused, st, es.push(e)) == apply_entries(
            secret,
            reused,
            apply_entry(secret, reused, st, e),
            Seq::<HistoryEntry>::empty(),
        ));
        assert(apply_entries(secret, reused, st, es) == st);
    } else {
        let st1 = apply_entry(secret, reused, st, es.first());
        assert(es.push(e).first() == es.first());
        assert(es.push(e).drop_first() =~= es.drop_first().push(e));
        assert(apply_entries(secret, reused, st, es.push(e)) == apply_entries(
            secret,
            reused,
            st1,
            es.drop_first().push(e),
        ));
        lemma_apply_entries_snoc(secret, reused, st1, es.drop_first(), e);
        assert(apply_entries(secret, reused, st, es) == apply_entries(
            secret,
            reused,
            st1,
            es.drop_first(),
        ));
    }
}

/// Replaying a history in two runs, interrupted at any checkpoint, ends in
/// the same state as one uninterrupted run: the fold over the concatenation
/// is the fold over the first part continued over the second.
pub proof fn lemma_apply_entries_append(
    secret: u64,
    reused: Seq<(u64, u64)>,
    st: ReplayState,
    h1: Seq<HistoryEntry>,
    h2: Seq<HistoryEntry>,
)
    ensures
        apply_entries(secret, reused, st, h1 + h2) == apply_entries(
            secret,
            reused,
            apply_entries(secret, reused, st, h1),
            h2,
        ),
    decreases h1.len(),
{
    if h1.len() == 0 {
        assert(h1 + h2 =~= h2);
    } else {
        assert((h1 + h2).first() == h1.first());
        assert((h1 + h2).drop_first() =~= h1.drop_first() + h2);
        lemma_apply_entries_append(
            secret,
            reused,
            apply_entry(secret, reused, st, h1.first()),
            h1.drop_first(),
            h2,
        );
    }
}

impl ClientDb {
    /// Where the recovery state machine stands for this store.
    pub fn recovery_status(&self) -> (s: RecoveryStatus)
        requires
            self.wf(),
        ensures
            s == RecoveryStatus::Finalized <==> self.finalized == Some(true),
            s == RecoveryStatus::InProgress <==> self.recovery_active,
            s == RecoveryStatus::NotStarted <==> (!self.recovery_active && self.finalized != Some(
                true,
            )),
    {
        if self.recovery_active {
            RecoveryStatus::InProgress
        } else {
            match self.finalized {
                Some(true) => RecoveryStatus::Finalized,
                _ => RecoveryStatus::NotStarted,
            }
        }
    }

    /// Begins a history replay from the start of the federation's log, with
    /// every per-denomination cursor at zero. Called when a wallet opens
    /// with no usable local state, or when recovery is explicitly requested;
    /// never after recovery was finalized.
    pub fn start_recovery(&mut self)
        requires
            old(self).wf(),
            !old(self).recovery_active,
            old(self).finalized != Some(true),
        ensures
            final(self).wf(),
            final(self).recovery_active,
            final(self).recovery_checkpoint == 0,
            forall|a: u64| final(self).recovery_next.lookup(a) == 0,
            replay_view(*final(self)).next =~= fresh_replay_state().next,
            final(self).notes@ == old(self).notes@,
            final(self).counters == old(self).counters,
            final(self).reused_note_indices@ == old(self).reused_note_indices@,
            final(self).cancelled_oob_spends@ == old(self).cancelled_oob_spends@,
            final(self).finalized == old(self).finalized,
            final(self).schema_version == old(self).schema_version,
    {
        self.recovery_next = crate::counters::CounterTable::new();
        self.recovery_checkpoint = 0;
        self.recovery_active = true;
    }

    /// The next index of `amount` at or above `from` that is not marked as
    /// a deliberate gap.
    pub fn next_unreused_index(&self, amount: u64, from: u64) -> (r: u64)
        requires
            self.wf(),
        ensures
            r == skip_reused(self.reused_note_indices@, amount, from),
    {
        let mut j = from;
        while self.is_reused_index(amount, j)
            invariant
                self.wf(),
                skip_reused(self.reused_note_indices@, amount, from) == skip_reused(
                    self.reused_note_indices@,
                    amount,
                    j,
                ),
            decreases reuse_marks_from(self.reused_note_indices@, amount, j),
        {
            proof {
                assert(self.reused_note_indices@.contains((amount, j)));
                let k = choose|k: int|
                    0 <= k < self.reused_note_indices@.len() && self.reused_note_indices@[k] == (
                    amount,
                    j,
                    );
                assert(self.reused_note_indices@[k].1 < u64::MAX);
                lemma_reuse_marks_step(self.reused_note_indices@, amount, j);
            }
            j = j + 1;
        }
        j
    }

    /// Processes one batch of history entries at the committed checkpoint
    /// and commits the resulting notes, counters, cursors, and the new
    /// checkpoint together, as one transaction. Safe to repeat from the last
    /// committed checkpoint after an interruption.
    pub fn process_batch(
        &mut self,
        root_secret: u64,
        entries: &Vec<HistoryEntry>,
        new_checkpoint: u64,
    )
        requires
            old(self).wf(),
            old(self).recovery_active,
        ensures
            final(self).wf(),
            final(self).recovery_active,
            replay_view(*final(self)) == apply_entries(
                root_secret,
                old(self).reused_note_indices@,
                replay_view(*old(self)),
                entries@,
            ),
            final(self).recovery_checkpoint == new_checkpoint,
            final(self).reused_note_indices@ == old(self).reused_note_indices@,
            final(self).cancelled_oob_spends@ == old(self).cancelled_oob_spends@,
            final(self).finalized == old(self).finalized,
            final(self).schema_version == old(self).schema_version,
    {
        let ghost st0 = replay_view(*self);
        let ghost reused0 = self.reused_note_indices@;
        let n = entries.len();
        let mut idx: usize = 0;
        while idx < n
            invariant
                idx <= n,
                n == entries@.len(),
                self.wf(),
                self.recovery_active,
                self.reused_note_indices@ == reused0,
                reused0 == old(self).reused_note_indices@,
                st0 == replay_view(*old(self)),
                self.cancelled_oob_spends@ == old(self).cancelled_oob_spends@,
                self.finalized == old(self).finalized,
                self.schema_version == old(self).schema_version,
                replay_view(*self) == apply_entries(
                    root_secret,
                    reused0,
                    st0,
                    entries@.take(idx as int),
                ),
            decreases n - idx,
        {
            let ghost st_pre = replay_view(*self);
            let e = entries[idx];
            match e {
                HistoryEntry::Unreadable => {},
                HistoryEntry::Issuance { amount, nonce } => {
                    let cur = self.recovery_next.get(amount);
                    let j = self.next_unreused_index(amount, cur);
                    if j < u64::MAX {
                        let expect = derive_nonce(root_secret, amount, j);
                        if nonce.secret_tag == expect.secret_tag && nonce.amount == expect.amount
                            && nonce.index == expect.index {
                            self.record_note(amount, nonce);
                            self.recovery_next.set(amount, j + 1);
                            let c = self.counters.get(amount);
                            if c < j + 1 {
                                self.counters.set(amount, j + 1);
                            }
                            proof {
                                assert(replay_view(*self).notes =~= st_pre.notes.insert(
                                    NoteKey { amount, nonce },
                                ));
                                assert(replay_view(*self).next =~= st_pre.next.insert(
                                    amount,
                                    (j + 1) as u64,
                                ));
                                if st_pre.counter[amount] < j + 1 {
                                    assert(replay_view(*self).counter =~= st_pre.counter.insert(
                                        amount,
                                        (j + 1) as u64,
                                    ));
                                } else {
                                    assert(replay_view(*self).counter =~= st_pre.counter);
                                }
                            }
                        }
                    }
                },
            }
            proof {
                assert(replay_view(*self) =~= apply_entry(root_secret, reused0, st_pre, e));
                assert(entries@.take(idx + 1) =~= entries@.take(idx as int).push(e));
                lemma_apply_entries_snoc(
                    root_secret,
                    reused0,
                    st0,
                    entries@.take(idx as int),
                    e,
                );
            }
            idx = idx + 1;
        }
        self.recovery_checkpoint = new_checkpoint;
        proof {
            assert(entries@.take(n as int) =~= entries@);
        }
    }

    /// Ends recovery when the history source reports end of log: sets the
    /// finalized flag and deletes the progress record. Recovery never
    /// restarts automatically after this.
    pub fn finalize_recovery(&mut self)
        requires
            old(self).wf(),
            old(self).recovery_active,
        ensures
            final(self).wf(),
            !final(self).recovery_active,
            final(self).finalized == Some(true),
            final(self).recovery_checkpoint == 0,
            forall|a: u64| final(self).recovery_next.lookup(a) == 0,
            final(self).notes@ == old(self).notes@,
            final(self).counters == old(self).counters,
            final(self).reused_note_indices@ == old(self).reused_note_indices@,
            final(self).cancelled_oob_spends@ == old(self).cancelled_oob_spends@,
            final(self).schema_version == old(self).schema_version,
    {
        self.recovery_active = false;
        self.recovery_next = crate::counters::CounterTable::new();
        self.recovery_checkpoint = 0;
        self.finalized = Some(true);
    }

    /// One decision of the recovery driver loop, from state and event to
    /// next state and action. All outside work — fetching a batch, sleeping
    /// for backoff, checking a cancellation signal between batches — is the
    /// caller's; every decision is made here. Transient source failures are
    /// absorbed up to `stall_threshold` consecutive failures, then surfaced
    /// as a stalled status rather than an error.
    pub fn recovery_step(
        &mut self,
        root_secret: u64,
        event: HistoryEvent,
        failures: u64,
        stall_threshold: u64,
    ) -> (a: RecoveryAction)
        requires
            old(self).wf(),
            old(self).recovery_active,
            failures < u64::MAX,
        ensures
            final(self).wf(),
            (event matches HistoryEvent::Batch { entries, new_checkpoint } ==> {
                &&& replay_view(*final(self)) == apply_entries(
                    root_secret,
                    old(self).reused_note_indices@,
                    replay_view(*old(self)),
                    entries@,
                )
                &&& final(self).recovery_checkpoint == new_checkpoint
                &&& final(self).recovery_active
                &&& a == RecoveryAction::Continue
            }),
            (event matches HistoryEvent::EndOfLog ==> {
                &&& !final(self).recovery_active
                &&& final(self).finalized == Some(true)
                &&& final(self).notes@ == old(self).notes@
                &&& final(self).counters == old(self).counters
                &&& a == RecoveryAction::Done
            }),
            (event matches HistoryEvent::SourceError ==> {
                &&& *final(self) == *old(self)
                &&& (failures + 1 < stall_threshold ==> a == (RecoveryAction::Retry {
                    failures: (failures + 1) as u64,
                }))
                &&& (failures + 1 >= stall_threshold ==> a == RecoveryAction::Stalled)
            }),
            final(self).reused_note_indices@ == old(self).reused_note_indices@,
            final(self).cancelled_oob_spends@ == old(self).cancelled_oob_spends@,
            final(self).schema_version == old(self).schema_version,
    {
        match event {
            HistoryEvent::Batch { entries, new_checkpoint } => {
                self.process_batch(root_secret, &entries, new_checkpoint);
                RecoveryAction::Continue
            },
            HistoryEvent::EndOfLog => {
                self.finalize_recovery();
                RecoveryAction::Done
            },
            HistoryEvent::SourceError => {
                if failures + 1 >= stall_threshold {
                    RecoveryAction::Stalled
                } else {
                    RecoveryAction::Retry { failures: failures + 1 }
                }
            },
        }
    }
}

} // verus!
