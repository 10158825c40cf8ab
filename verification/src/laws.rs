//! The guarantees the wallet core rests on, stated and proved over the same
//! spec functions and views that the executable contracts use.

use vstd::prelude::*;
use crate::derivation::spec_derive_nonce;
use crate::keys::NoteKey;
use crate::ledger::ClientDb;
use crate::recovery::{
    apply_entries, apply_entry, fresh_replay_state, skip_reused, HistoryEntry, ReplayState,
};

verus! {

/// The indices handed out by `n` successive reservations of one
/// denomination whose counter starts at `c`: each reservation returns the
/// counter and advances it by one, as `reserve_next_index` ensures.
pub open spec fn indices_returned(c: u64, n: nat) -> Seq<u64>
    decreases n,
{
    if n == 0 || c == u64::MAX {
        Seq::empty()
    } else {
        seq![c] + indices_returned((c + 1) as u64, (n - 1) as nat)
    }
}

/// `n` successive reservations against a denomination whose counter starts
/// at `c` return `c, c + 1, ..., c + n - 1`, each exactly once.
pub proof fn lemma_reservation_indices(c: u64, n: nat)
    requires
        c + n <= u64::MAX,
    ensures
        indices_returned(c, n).len() == n,
        forall|k: int| 0 <= k < n ==> indices_returned(c, n)[k] == c + k,
    decreases n,
{
    if n > 0 {
        lemma_reservation_indices((c + 1) as u64, (n - 1) as nat);
    }
}

/// On a fresh store, `n` reservations of one denomination return exactly
/// the integers `0 .. n`, with no duplicates and no gaps.
pub proof fn lemma_fresh_reservations_cover_range(n: nat)
    requires
        n <= u64::MAX,
    ensures
        indices_returned(0, n).len() == n,
        forall|k: int| 0 <= k < n ==> indices_returned(0, n)[k] == k,
        indices_returned(0, n).no_duplicates(),
{
    lemma_reservation_indices(0, n);
}

/// Recording a note is idempotent at the level of the ledger's meaning:
/// inserting the same (amount, nonce) pair twice yields the same set as
/// inserting it once.
pub proof fn lemma_record_note_idempotent(notes: Set<NoteKey>, k: NoteKey)
    ensures
        notes.insert(k).insert(k) == notes.insert(k),
{
    assert(notes.insert(k).insert(k) =~= notes.insert(k));
}

/// A well-formed ledger holds each (amount, nonce) pair at most once: after
/// any number of records of the same pair there is exactly one entry for it.
pub proof fn lemma_ledger_entry_unique(db: ClientDb, i: int, j: int)
    requires
        db.wf(),
        0 <= i < j < db.notes@.len(),
    ensures
        db.notes@[i] != db.notes@[j],
{
    crate::ledger::lemma_note_lt_connected(db.notes@[i], db.notes@[j]);
}

/// The cancellation notification log never repeats an operation identifier:
/// together with `mark_oob_cancelled`'s no-op on repeats and the
/// subscriber's disjoint polls, a subscriber is woken exactly once per
/// distinct identifier, however often the marker is written.
pub proof fn lemma_one_notification_per_operation(db: ClientDb, i: int, j: int)
    requires
        db.wf(),
        0 <= i < j < db.cancelled_oob_spends@.len(),
    ensures
        db.cancelled_oob_spends@[i] != db.cancelled_oob_spends@[j],
{
}

/// How many issuance entries of this wallet with denomination `amount`
/// stand among the first `upto` history entries.
pub open spec fn count_ours(secret: u64, h: Seq<HistoryEntry>, amount: u64, upto: int) -> nat
    decreases upto,
{
    if upto <= 0 || upto > h.len() {
        0
    } else {
        count_ours(secret, h, amount, upto - 1) + match h[upto - 1] {
            HistoryEntry::Issuance { amount: a, nonce } => if a == amount && nonce.secret_tag
                == secret {
                1nat
            } else {
                0nat
            },
            HistoryEntry::Unreadable => 0nat,
        }
    }
}

/// The notes this wallet's own issuances among the first `upto` entries
/// created: what direct issuance against the history produced.
pub open spec fn our_note_keys(secret: u64, h: Seq<HistoryEntry>, upto: int) -> Set<NoteKey>
    decreases upto,
{
    if upto <= 0 || upto > h.len() {
        Set::empty()
    } else {
        let rest = our_note_keys(secret, h, upto - 1);
        match h[upto - 1] {
            HistoryEntry::Issuance { amount, nonce } => if nonce.secret_tag == secret {
                rest.insert(NoteKey { amount, nonce })
            } else {
                rest
            },
            HistoryEntry::Unreadable => rest,
        }
    }
}

/// A history log as direct issuance produces it: every entry is either
/// unreadable, another wallet's, or this wallet's issuance of the next
/// index of its denomination — the nonce derived at the count of this
/// wallet's earlier entries of that denomination.
pub open spec fn is_wallet_history(secret: u64, h: Seq<HistoryEntry>) -> bool {
    forall|i: int|
        0 <= i < h.len() ==> match #[trigger] h[i] {
            HistoryEntry::Unreadable => true,
            HistoryEntry::Issuance { amount, nonce } => nonce.secret_tag != secret || nonce
                == spec_derive_nonce(secret, amount, count_ours(secret, h, amount, i) as u64),
        }
}

pub proof fn lemma_count_ours_monotone(
    secret: u64,
    h: Seq<HistoryEntry>,
    amount: u64,
    m1: int,
    m2: int,
)
    requires
        m1 <= m2 <= h.len(),
    ensures
        count_ours(secret, h, amount, m1) <= count_ours(secret, h, amount, m2),
    decreases m2 - m1,
{
    if m1 < m2 {
        lemma_count_ours_monotone(secret, h, amount, m1, m2 - 1);
    }
}

pub proof fn lemma_count_ours_bound(secret: u64, h: Seq<HistoryEntry>, amount: u64, upto: int)
    ensures
        count_ours(secret, h, amount, upto) <= if upto <= 0 {
            0
        } else {
            upto as nat
        },
    decreases upto,
{
    if upto > 0 {
        lemma_count_ours_bound(secret, h, amount, upto - 1);
    }
}

proof fn lemma_replay_prefix(secret: u64, h: Seq<HistoryEntry>, k: int)
    requires
        is_wallet_history(secret, h),
        h.len() < u64::MAX,
        0 <= k <= h.len(),
    ensures
        apply_entries(secret, Seq::empty(), fresh_replay_state(), h.take(k)).notes
            == our_note_keys(secret, h, k),
        forall|a: u64|
            apply_entries(secret, Seq::empty(), fresh_replay_state(), h.take(k)).next[a]
                == count_ours(secret, h, a, k),
        forall|a: u64|
            apply_entries(secret, Seq::empty(), fresh_replay_state(), h.take(k)).counter[a]
                == count_ours(secret, h, a, k),
    decreases k,
{
    let none: Seq<(u64, u64)> = Seq::empty();
    if k == 0 {
        assert(h.take(0) =~= Seq::<HistoryEntry>::empty());
        assert(fresh_replay_state().notes =~= our_note_keys(secret, h, 0));
        assert(forall|a: u64| fresh_replay_state().next[a] == 0);
        assert(forall|a: u64| fresh_replay_state().counter[a] == 0);
    } else {
        lemma_replay_prefix(secret, h, k - 1);
        let st = apply_entries(secret, none, fresh_replay_state(), h.take(k - 1));
        let e = h[k - 1];
        assert(h.take(k) =~= h.take(k - 1).push(e));
        crate::recovery::lemma_apply_entries_snoc(
            secret,
            none,
            fresh_replay_state(),
            h.take(k - 1),
            e,
        );
        let st2 = apply_entry(secret, none, st, e);
        match e {
            HistoryEntry::Unreadable => {
                assert(st2 == st);
                assert(our_note_keys(secret, h, k) == our_note_keys(secret, h, k - 1));
                assert forall|a: u64| st2.next[a] == count_ours(secret, h, a, k) by {
                    assert(st.next[a] == count_ours(secret, h, a, k - 1));
                    assert(count_ours(secret, h, a, k) == count_ours(secret, h, a, k - 1));
                }
                assert forall|a: u64| st2.counter[a] == count_ours(secret, h, a, k) by {
                    assert(st.counter[a] == count_ours(secret, h, a, k - 1));
                    assert(count_ours(secret, h, a, k) == count_ours(secret, h, a, k - 1));
                }
            },
            HistoryEntry::Issuance { amount, nonce } => {
                let c = count_ours(secret, h, amount, k - 1);
                lemma_count_ours_bound(secret, h, amount, k - 1);
                assert(c < u64::MAX);
                assert(st.next[amount] == c as u64);
                assert(!none.contains((amount, c as u64)));
                let j = skip_reused(none, amount, c as u64);
                assert(j == c as u64);
                if nonce.secret_tag != secret {
                    assert(spec_derive_nonce(secret, amount, j).secret_tag == secret);
                    assert(nonce != spec_derive_nonce(secret, amount, j));
                    assert(st2 == st);
                    assert(count_ours(secret, h, amount, k) == c);
                    assert(our_note_keys(secret, h, k) == our_note_keys(secret, h, k - 1));
                    assert forall|a: u64| st2.next[a] == count_ours(secret, h, a, k) by {
                        assert(st.next[a] == count_ours(secret, h, a, k - 1));
                        assert(count_ours(secret, h, a, k) == count_ours(secret, h, a, k - 1));
                    }
                    assert forall|a: u64| st2.counter[a] == count_ours(secret, h, a, k) by {
                        assert(st.counter[a] == count_ours(secret, h, a, k - 1));
                        assert(count_ours(secret, h, a, k) == count_ours(secret, h, a, k - 1));
                    }
                } else {
                    assert(nonce == spec_derive_nonce(
                        secret,
                        amount,
                        count_ours(secret, h, amount, k - 1) as u64,
                    ));
                    assert(nonce == spec_derive_nonce(secret, amount, j));
                    assert(st2.notes == st.notes.insert(NoteKey { amount, nonce }));
                    assert(st2.notes == our_note_keys(secret, h, k));
                    assert(count_ours(secret, h, amount, k) == c + 1);
                    assert(st.counter[amount] == c as u64);
                    assert(st2.next[amount] == c + 1);
                    assert(st2.counter[amount] == c + 1);
                    assert forall|a: u64| st2.next[a] == count_ours(secret, h, a, k) by {
                        if a != amount {
                            assert(count_ours(secret, h, a, k) == count_ours(
                                secret,
                                h,
                                a,
                                k - 1,
                            ));
                        }
                    }
                    assert forall|a: u64| st2.counter[a] == count_ours(secret, h, a, k) by {
                        if a != amount {
                            assert(count_ours(secret, h, a, k) == count_ours(
                                secret,
                                h,
                                a,
                                k - 1,
                            ));
                        }
                    }
                }
            },
        }
    }
}

/// For a fixed root secret and a fixed, complete history log (with no reuse
/// markers), replaying the whole log from a fresh state reproduces exactly
/// the set of notes that direct issuance against that history produced, for
/// every denomination, and leaves each denomination's live counter and
/// recovery cursor at its issued count — one past the highest recovered
/// index, so live allocation continues after the recovered notes.
pub proof fn lemma_recovery_matches_issuance(secret: u64, h: Seq<HistoryEntry>)
    requires
        is_wallet_history(secret, h),
        h.len() < u64::MAX,
    ensures
        apply_entries(secret, Seq::empty(), fresh_replay_state(), h).notes == our_note_keys(
            secret,
            h,
            h.len() as int,
        ),
        forall|a: u64|
            apply_entries(secret, Seq::empty(), fresh_replay_state(), h).next[a] == count_ours(
                secret,
                h,
                a,
                h.len() as int,
            ),
        forall|a: u64|
            apply_entries(secret, Seq::empty(), fresh_replay_state(), h).counter[a] == count_ours(
                secret,
                h,
                a,
                h.len() as int,
            ),
{
    lemma_replay_prefix(secret, h, h.len() as int);
    assert(h.take(h.len() as int) =~= h);
}

proof fn lemma_replay_noop_prefix(secret: u64, h: Seq<HistoryEntry>, m: int)
    requires
        is_wallet_history(secret, h),
        h.len() < u64::MAX,
        0 <= m <= h.len(),
    ensures
        apply_entries(
            secret,
            Seq::empty(),
            apply_entries(secret, Seq::empty(), fresh_replay_state(), h),
            h.take(m),
        ) == apply_entries(secret, Seq::empty(), fresh_replay_state(), h),
    decreases m,
{
    let none: Seq<(u64, u64)> = Seq::empty();
    let st1 = apply_entries(secret, none, fresh_replay_state(), h);
    lemma_recovery_matches_issuance(secret, h);
    if m == 0 {
        assert(h.take(0) =~= Seq::<HistoryEntry>::empty());
    } else {
        lemma_replay_noop_prefix(secret, h, m - 1);
        let e = h[m - 1];
        assert(h.take(m) =~= h.take(m - 1).push(e));
        crate::recovery::lemma_apply_entries_snoc(secret, none, st1, h.take(m - 1), e);
        match e {
            HistoryEntry::Unreadable => {},
            HistoryEntry::Issuance { amount, nonce } => {
                let len = h.len() as int;
                let c_end = count_ours(secret, h, amount, len);
                lemma_count_ours_bound(secret, h, amount, len);
                assert(st1.next[amount] == c_end);
                assert(!none.contains((amount, st1.next[amount])));
                let j = skip_reused(none, amount, st1.next[amount]);
                assert(j == c_end as u64);
                if nonce.secret_tag == secret {
                    // this wallet's entry sits at an index the cursor has
                    // already passed, so it cannot match again
                    let c_here = count_ours(secret, h, amount, m - 1);
                    assert(nonce == spec_derive_nonce(secret, amount, c_here as u64));
                    assert(count_ours(secret, h, amount, m) == c_here + 1);
                    lemma_count_ours_monotone(secret, h, amount, m, len);
                    assert(c_here < c_end);
                    assert(nonce != spec_derive_nonce(secret, amount, j));
                } else {
                    assert(nonce != spec_derive_nonce(secret, amount, j));
                }
                assert(apply_entry(secret, none, st1, e) == st1);
            },
        }
    }
}

/// Replaying an already-committed wallet history over its own final state
/// changes nothing: every entry either belongs to another wallet or sits at
/// an index the recovery cursor has already passed, so nothing matches a
/// second time. Together with `lemma_resume_equals_uninterrupted`, batch
/// processing is safe to repeat from the last committed checkpoint.
pub proof fn lemma_replay_is_noop(secret: u64, h: Seq<HistoryEntry>)
    requires
        is_wallet_history(secret, h),
        h.len() < u64::MAX,
    ensures
        apply_entries(
            secret,
            Seq::empty(),
            apply_entries(secret, Seq::empty(), fresh_replay_state(), h),
            h,
        ) == apply_entries(secret, Seq::empty(), fresh_replay_state(), h),
{
    lemma_replay_noop_prefix(secret, h, h.len() as int);
    assert(h.take(h.len() as int) =~= h);
}

/// A recovery interrupted after committing a checkpoint and resumed later
/// ends in the same final ledger and counter state as an uninterrupted run:
/// splitting the history at the checkpoint and replaying the remainder on
/// the committed state yields exactly the state of the unsplit run. Each
/// batch commits its notes, counters, and checkpoint in one transaction, so
/// an interruption always resumes at a batch boundary.
pub proof fn lemma_resume_equals_uninterrupted(
    secret: u64,
    reused: Seq<(u64, u64)>,
    st: ReplayState,
    h1: Seq<HistoryEntry>,
    h2: Seq<HistoryEntry>,
)
    ensures
        apply_entries(secret, reused, st, h1 + h2) == apply_entries(
            secret,
            reused,
            apply_entries(secret, reused, st, h1),
            h2,
        ),
{
    crate::recovery::lemma_apply_entries_append(secret, reused, st, h1, h2);
}

} // verus!
