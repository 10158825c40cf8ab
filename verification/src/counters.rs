//! Per-denomination unsigned counters, stored as a keyed table.
//!
//! A counter is created lazily on first use: a denomination that was never
//! touched reads as zero. The table backs both the live allocation counters
//! and the recovery engine's per-denomination cursors.

use vstd::prelude::*;

verus! {

/// The value a keyed table holds for `k`: the value of the latest entry for
/// `k`, or zero when no entry for `k` exists.
pub open spec fn tbl_lookup(s: Seq<(u64, u64)>, k: u64) -> u64
    decreases s.len(),
{
    if s.len() == 0 {
        0
    } else if s.last().0 == k {
        s.last().1
    } else {
        tbl_lookup(s.drop_last(), k)
    }
}

/// A table of per-denomination counters. Its meaning is the total function
/// `tbl_lookup(entries@, _)` from denomination to counter value.
#[derive(Clone, Debug)]
pub struct CounterTable {
    pub entries: Vec<(u64, u64)>,
}

impl CounterTable {
    /// Each denomination appears at most once.
    pub open spec fn wf(self) -> bool {
        forall|i: int, j: int|
            0 <= i < j < self.entries@.len() ==> (#[trigger] self.entries@[i]).0 != (
            #[trigger] self.entries@[j]).0
    }

    /// The counter value the table holds for `k` (zero when `k` was never
    /// touched).
    pub open spec fn lookup(self, k: u64) -> u64 {
        tbl_lookup(self.entries@, k)
    }

    pub fn new() -> (t: CounterTable)
        ensures
            t.wf(),
            forall|k: u64| t.lookup(k) == 0,
            t.entries@.len() == 0,
    {
        CounterTable { entries: Vec::new() }
    }

    /// Reads the counter for `k`.
    pub fn get(&self, k: u64) -> (r: u64)
        ensures
            r == self.lookup(k),
    {
        let s = Ghost(self.entries@);
        let mut i: usize = self.entries.len();
        proof {
            assert(s@.take(i as int) =~= s@);
        }
        while i > 0
            invariant
                i <= s@.len(),
                s@ == self.entries@,
                tbl_lookup(s@, k) == tbl_lookup(s@.take(i as int), k),
            decreases i,
        {
            let j = i - 1;
            proof {
                assert(s@.take(i as int).last() == s@[j as int]);
                assert(s@.take(i as int).drop_last() =~= s@.take(j as int));
            }
            if self.entries[j].0 == k {
                return self.entries[j].1;
            }
            i = j;
        }
        proof {
            assert(s@.take(0).len() == 0);
        }
        0
    }

    /// Writes the counter for `k`, leaving every other denomination as it
    /// was.
    pub fn set(&mut self, k: u64, v: u64)
        requires
            old(self).wf(),
        ensures
            final(self).wf(),
            final(self).lookup(k) == v,
            forall|b: u64| b != k ==> final(self).lookup(b) == old(self).lookup(b),
    {
        let ghost s = self.entries@;
        let mut i: usize = 0;
        while i < self.entries.len()
            invariant
                i <= s.len(),
                s == self.entries@,
                s == old(self).entries@,
                forall|j: int| 0 <= j < i ==> (#[trigger] s[j]).0 != k,
                forall|p: int, q: int|
                    0 <= p < q < s.len() ==> (#[trigger] s[p]).0 != (#[trigger] s[q]).0,
            decreases s.len() - i,
        {
            if self.entries[i].0 == k {
                let ghost ii = i as int;
                self.entries[i] = (k, v);
                proof {
                    assert forall|j: int| 0 <= j < s.len() && j != ii implies (#[trigger] s[j]).0
                        != k by {
                        if j > ii {
                            assert(s[ii].0 != s[j].0);
                        }
                    }
                    assert(self.entries@ == s.update(ii, (k, v)));
                    lemma_tbl_lookup_update(s, ii, k, v, k);
                    assert forall|b: u64| b != k implies #[trigger] tbl_lookup(self.entries@, b)
                        == tbl_lookup(s, b) by {
                        lemma_tbl_lookup_update(s, ii, k, v, b);
                    }
                    assert forall|p: int, q: int|
                        0 <= p < q < self.entries@.len() implies (#[trigger] self.entries@[p]).0
                        != (#[trigger] self.entries@[q]).0 by {
                        assert(self.entries@ == s.update(ii, (k, v)));
                        if p != ii && q != ii {
                            assert(s[p].0 != s[q].0);
                        } else if p == ii {
                            assert(s[q].0 != k);
                        } else {
                            assert(s[p].0 != k);
                        }
                    }
                }
                return ;
            }
            i = i + 1;
        }
        self.entries.push((k, v));
        proof {
            lemma_tbl_lookup_push(s, k, v, k);
            assert forall|b: u64| b != k implies #[trigger] tbl_lookup(self.entries@, b)
                == tbl_lookup(s, b) by {
                lemma_tbl_lookup_push(s, k, v, b);
            }
            assert forall|p: int, q: int|
                0 <= p < q < self.entries@.len() implies (#[trigger] self.entries@[p]).0 != (
            #[trigger] self.entries@[q]).0 by {
                assert(self.entries@ == s.push((k, v)));
                if q < s.len() {
                    assert(s[p].0 != s[q].0);
                } else {
                    assert(s[p].0 != k);
                }
            }
        }
    }
}

/// Appending an entry for `k` makes `k` read as the appended value and leaves
/// every other key `b` unchanged.
pub proof fn lemma_tbl_lookup_push(s: Seq<(u64, u64)>, k: u64, v: u64, b: u64)
    ensures
        tbl_lookup(s.push((k, v)), k) == v,
        b != k ==> tbl_lookup(s.push((k, v)), b) == tbl_lookup(s, b),
{
    assert(s.push((k, v)).last() == (k, v));
    assert(s.push((k, v)).drop_last() =~= s);
}

/// Overwriting the unique entry for `k` in place makes `k` read as the new
/// value and leaves every other key `b` unchanged.
pub proof fn lemma_tbl_lookup_update(s: Seq<(u64, u64)>, i: int, k: u64, v: u64, b: u64)
    requires
        0 <= i < s.len(),
        s[i].0 == k,
        forall|j: int| 0 <= j < s.len() && j != i ==> (#[trigger] s[j]).0 != k,
    ensures
        tbl_lookup(s.update(i, (k, v)), k) == v,
        b != k ==> tbl_lookup(s.update(i, (k, v)), b) == tbl_lookup(s, b),
    decreases s.len(),
{
    let t = s.update(i, (k, v));
    if i == s.len() - 1 {
        assert(t.last() == (k, v));
        assert(t.drop_last() =~= s.drop_last());
        assert(s.last().0 == k);
    } else {
        assert(t.last() == s.last());
        assert(s.last().0 != k);
        assert(t.drop_last() =~= s.drop_last().update(i, (k, v)));
        assert(forall|j: int|
            0 <= j < s.drop_last().len() && j != i ==> (#[trigger] s.drop_last()[j]).0 != k);
        lemma_tbl_lookup_update(s.drop_last(), i, k, v, b);
    }
}

} // verus!
