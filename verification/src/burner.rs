//! Pending-burns ledger and the burn worker's decisions.
//!
//! Debits are deferred: the verifier accumulates the amounts to burn per
//! payer in a durable `pending_burns` table, and a separate worker drains a
//! row once its amount reaches the burn threshold, oldest last-burn first,
//! subtracting what it burned once the transaction is confirmed.  The table
//! is modelled here; the worker's transaction submission lives in the shell.

use vstd::prelude::*;
use crate::kv::{
    bytes_eq,
    copy_bytes,
    kv_lookup,
    kv_store,
    lemma_kv_lookup_at,
    lemma_kv_lookup_none,
    lemma_kv_store_at,
};

verus! {

/// A row is drained only once its pending amount reaches this threshold.
pub const BURN_THRESHOLD: u64 = 10_000;

/// One pending-burns row: the accumulated amount and when the payer was
/// last burned.
#[derive(Clone, Copy, PartialEq, Eq, Structural, Debug)]
pub struct BurnRow {
    pub amount: u64,
    pub last_burn_ms: u64,
}

/// The pending-burns table, keyed by payer.
pub struct PendingBurns {
    pub entries: Vec<(Vec<u8>, BurnRow)>,
}

/// View of the table's entries.
pub open spec fn pending_entries(entries: Seq<(Vec<u8>, BurnRow)>) -> Seq<(Seq<u8>, BurnRow)> {
    entries.map_values(|e: (Vec<u8>, BurnRow)| (e.0@, e.1))
}

impl View for PendingBurns {
    type V = Seq<(Seq<u8>, BurnRow)>;

    open spec fn view(&self) -> Seq<(Seq<u8>, BurnRow)> {
        pending_entries(self.entries@)
    }
}

/// The amount pending for a payer; no row means nothing pending.
pub open spec fn pending_amount(m: Seq<(Seq<u8>, BurnRow)>, payer: Seq<u8>) -> int {
    match kv_lookup(m, payer) {
        Some(row) => row.amount as int,
        None => 0,
    }
}

/// Upsert of a burn: a new row starts at the amount with the burn clock set
/// now; an existing row accumulates the amount and keeps its last-burn
/// time.
pub open spec fn burn_spec(
    m: Seq<(Seq<u8>, BurnRow)>,
    payer: Seq<u8>,
    amount: u64,
    now_ms: u64,
) -> Seq<(Seq<u8>, BurnRow)> {
    match kv_lookup(m, payer) {
        None => m.push((payer, BurnRow { amount, last_burn_ms: now_ms })),
        Some(row) => kv_store(
            m,
            payer,
            BurnRow { amount: (row.amount + amount) as u64, last_burn_ms: row.last_burn_ms },
        ),
    }
}

impl PendingBurns {
    /// An empty table.
    pub fn new() -> (r: PendingBurns)
        ensures
            r@ == Seq::<(Seq<u8>, BurnRow)>::empty(),
    {
        let r = PendingBurns { entries: Vec::new() };
        proof {
            assert(r@ =~= Seq::<(Seq<u8>, BurnRow)>::empty());
        }
        r
    }

    /// Index of a payer's row, scanning in table order.
    fn find(&self, payer: &Vec<u8>) -> (r: Option<usize>)
        ensures
            match r {
                Some(i) => i < self@.len() && self@[i as int].0 == payer@ && (forall|j: int|
                    0 <= j < i ==> (#[trigger] self@[j]).0 != payer@),
                None => forall|j: int| 0 <= j < self@.len() ==> (#[trigger] self@[j]).0 != payer@,
            },
    {
        let mut i: usize = 0;
        while i < self.entries.len()
            invariant
                0 <= i <= self@.len(),
                self@.len() == self.entries@.len(),
                forall|j: int| 0 <= j < i ==> (#[trigger] self@[j]).0 != payer@,
            decreases self@.len() - i,
        {
            proof {
                assert(self@[i as int] == (self.entries@[i as int].0@, self.entries@[i as int].1));
            }
            if bytes_eq(&self.entries[i].0, payer) {
                return Some(i);
            }
            i += 1;
        }
        None
    }

    /// The amount pending for a payer.
    pub fn amount_of(&self, payer: &Vec<u8>) -> (r: u64)
        ensures
            r == pending_amount(self@, payer@),
    {
        match self.find(payer) {
            Some(i) => {
                proof {
                    lemma_kv_lookup_at(self@, payer@, i as int);
                }
                self.entries[i].1.amount
            },
            None => {
                proof {
                    lemma_kv_lookup_none(self@, payer@);
                }
                0
            },
        }
    }

    /// Accumulate a burn for a payer.
    pub fn burn(&mut self, payer: &Vec<u8>, amount: u64, now_ms: u64)
        requires
            pending_amount(old(self)@, payer@) + amount <= u64::MAX,
        ensures
            final(self)@ == burn_spec(old(self)@, payer@, amount, now_ms),
    {
        let ghost m = self@;
        match self.find(payer) {
            Some(i) => {
                proof {
                    lemma_kv_lookup_at(m, payer@, i as int);
                }
                let row = self.entries[i].1;
                let key = copy_bytes(&self.entries[i].0);
                self.entries[i] = (
                    key,
                    BurnRow { amount: row.amount + amount, last_burn_ms: row.last_burn_ms },
                );
                proof {
                    lemma_kv_store_at(m, payer@, self@[i as int].1, i as int);
                    assert(self@ =~= burn_spec(m, payer@, amount, now_ms));
                }
            },
            None => {
                proof {
                    lemma_kv_lookup_none(m, payer@);
                }
                self.entries.push((copy_bytes(payer), BurnRow { amount, last_burn_ms: now_ms }));
                proof {
                    assert(self@ =~= m.push((payer@, BurnRow { amount, last_burn_ms: now_ms })));
                }
            },
        }
    }

    /// Subtract a confirmed burn from a payer's row and advance its
    /// last-burn time.
    pub fn confirm_burn(&mut self, payer: &Vec<u8>, amount: u64, now_ms: u64)
        requires
            pending_amount(old(self)@, payer@) >= amount,
            kv_lookup(old(self)@, payer@) is Some,
        ensures
            final(self)@ == kv_store(
                old(self)@,
                payer@,
                BurnRow {
                    amount: (pending_amount(old(self)@, payer@) - amount) as u64,
                    last_burn_ms: now_ms,
                },
            ),
    {
        let ghost m = self@;
        match self.find(payer) {
            Some(i) => {
                proof {
                    lemma_kv_lookup_at(m, payer@, i as int);
                }
                let row = self.entries[i].1;
                let key = copy_bytes(&self.entries[i].0);
                self.entries[i] = (
                    key,
                    BurnRow { amount: row.amount - amount, last_burn_ms: now_ms },
                );
                proof {
                    lemma_kv_store_at(m, payer@, self@[i as int].1, i as int);
                    assert(self@ =~= kv_store(
                        m,
                        payer@,
                        BurnRow {
                            amount: (pending_amount(m, payer@) - amount) as u64,
                            last_burn_ms: now_ms,
                        },
                    ));
                }
            },
            None => {
                proof {
                    lemma_kv_lookup_none(m, payer@);
                    assert(false);
                }
            },
        }
    }

    /// The worker's pick: a row whose amount has reached the threshold,
    /// oldest last-burn first.  `None` means no row is ready.
    pub fn next_burn(&self) -> (r: Option<(Vec<u8>, u64)>)
        ensures
            match r {
                None => forall|j: int|
                    0 <= j < self@.len() ==> (#[trigger] self@[j]).1.amount < BURN_THRESHOLD,
                Some(pick) => exists|i: int|
                    0 <= i < self@.len() && (#[trigger] self@[i]).0 == pick.0@ && self@[i].1.amount
                        == pick.1 && pick.1 >= BURN_THRESHOLD && (forall|j: int|
                        0 <= j < self@.len() && (#[trigger] self@[j]).1.amount >= BURN_THRESHOLD
                            ==> self@[i].1.last_burn_ms <= self@[j].1.last_burn_ms),
            },
    {
        let mut best: Option<usize> = None;
        let mut i: usize = 0;
        while i < self.entries.len()
            invariant
                0 <= i <= self@.len(),
                self@.len() == self.entries@.len(),
                forall|k: int|
                    0 <= k < self@.len() ==> self@[k] == (
                        self.entries@[k].0@,
                        self.entries@[k].1,
                    ),
                match best {
                    None => forall|j: int|
                        0 <= j < i ==> (#[trigger] self@[j]).1.amount < BURN_THRESHOLD,
                    Some(b) => b < i && self@[b as int].1.amount >= BURN_THRESHOLD && (forall|
                        j: int,
                    |
                        0 <= j < i && (#[trigger] self@[j]).1.amount >= BURN_THRESHOLD
                            ==> self@[b as int].1.last_burn_ms <= self@[j].1.last_burn_ms),
                },
            decreases self@.len() - i,
        {
            if self.entries[i].1.amount >= BURN_THRESHOLD {
                match best {
                    None => {
                        best = Some(i);
                    },
                    Some(b) => {
                        if self.entries[i].1.last_burn_ms < self.entries[b].1.last_burn_ms {
                            best = Some(i);
                        }
                    },
                }
            }
            i += 1;
        }
        match best {
            None => None,
            Some(b) => Some((copy_bytes(&self.entries[b].0), self.entries[b].1.amount)),
        }
    }
}

} // verus!
