use vstd::prelude::*;
use crate::outputs::{
    chain_has, has_id, reconcile_one, reconciled, ChainOutput, OutputData, OutputStatus,
    OutputStore,
};
use crate::wallet::{TxLogEntry, Wallet};

verus! {

/// The stored record of an output found on chain.
pub open spec fn found_output(c: ChainOutput) -> OutputData {
    OutputData {
        id: c.id,
        value: c.value,
        status: if c.spent {
            OutputStatus::Spent
        } else {
            OutputStatus::Unspent
        },
        tx_id: None,
    }
}

/// The outputs after every chain output they lack was added, in chain
/// order, once per id.
pub open spec fn restored(outs: Seq<OutputData>, chain: Seq<ChainOutput>) -> Seq<OutputData>
    decreases chain.len(),
{
    if chain.len() == 0 {
        outs
    } else {
        let prev = restored(outs, chain.drop_last());
        if has_id(prev, chain.last().id) {
            prev
        } else {
            prev.push(found_output(chain.last()))
        }
    }
}

/// The chain shows transaction `id` took effect: an output it locked is
/// spent on chain.
pub open spec fn seen_on_chain(outs: Seq<OutputData>, chain: Seq<ChainOutput>, id: u32) -> bool {
    exists|i: int| 0 <= i < outs.len() && outs[i].tx_id == Some(id) && chain_has(chain, outs[i].id, true)
}

/// A log entry brought in line with the chain: confirmed once the chain
/// shows it took effect; a confirmed entry stays confirmed.
pub open spec fn confirm_one(e: TxLogEntry, outs: Seq<OutputData>, chain: Seq<ChainOutput>) -> TxLogEntry {
    if seen_on_chain(outs, chain, e.id) {
        TxLogEntry { confirmed: true, ..e }
    } else {
        e
    }
}

pub open spec fn confirmed_log(txs: Seq<TxLogEntry>, outs: Seq<OutputData>, chain: Seq<ChainOutput>) -> Seq<TxLogEntry> {
    Seq::new(txs.len(), |j: int| confirm_one(txs[j], outs, chain))
}

/// Whether the chain reports output `id` with the given spent flag.
pub fn chain_reports(chain: &Vec<ChainOutput>, id: u64, spent: bool) -> (r: bool)
    ensures
        r == chain_has(chain@, id, spent),
{
    let mut k: usize = 0;
    while k < chain.len()
        invariant
            k <= chain@.len(),
            forall|m: int| 0 <= m < k ==> !(chain@[m].id == id && chain@[m].spent == spent),
        decreases chain@.len() - k,
    {
        if chain[k].id == id && chain[k].spent == spent {
            return true;
        }
        k = k + 1;
    }
    false
}

/// One output brought in line with the chain.
pub fn reconcile_output(o: OutputData, chain: &Vec<ChainOutput>) -> (r: OutputData)
    ensures
        r == reconcile_one(o, chain@),
{
    let on_chain_spent = chain_reports(chain, o.id, true);
    let on_chain_unspent = chain_reports(chain, o.id, false);
    let status = if on_chain_spent {
        OutputStatus::Spent
    } else if o.status == OutputStatus::Locked {
        o.status
    } else if on_chain_unspent {
        OutputStatus::Unspent
    } else {
        OutputStatus::Unconfirmed
    };
    OutputData { id: o.id, value: o.value, status, tx_id: o.tx_id }
}

impl OutputStore {
    /// Brings every output in line with the chain; none is dropped.
    pub fn reconcile(&mut self, chain: &Vec<ChainOutput>)
        requires
            old(self).wf(),
        ensures
            final(self).wf(),
            final(self).outputs@ == reconciled(old(self).outputs@, chain@),
    {
        let ghost before = self.outputs@;
        let mut i: usize = 0;
        while i < self.outputs.len()
            invariant
                before == old(self).outputs@,
                self.outputs@.len() == before.len(),
                i <= before.len(),
                forall|j: int| 0 <= j < i ==> self.outputs@[j] == reconciled(before, chain@)[j],
                forall|j: int| i <= j < before.len() ==> self.outputs@[j] == before[j],
            decreases before.len() - i,
        {
            let o = self.outputs[i];
            let n = reconcile_output(o, chain);
            self.outputs.set(i, n);
            i = i + 1;
        }
        proof {
            assert(self.outputs@ =~= reconciled(before, chain@));
        }
    }

    /// Adds every chain output the store lacks.
    pub fn add_found(&mut self, chain: &Vec<ChainOutput>)
        requires
            old(self).wf(),
        ensures
            final(self).wf(),
            final(self).outputs@ == restored(old(self).outputs@, chain@),
    {
        let mut k: usize = 0;
        while k < chain.len()
            invariant
                k <= chain@.len(),
                self.wf(),
                self.outputs@ == restored(old(self).outputs@, chain@.subrange(0, k as int)),
            decreases chain@.len() - k,
        {
            let c = chain[k];
            proof {
                assert(chain@.subrange(0, k + 1).drop_last() =~= chain@.subrange(0, k as int));
            }
            let o = OutputData {
                id: c.id,
                value: c.value,
                status: if c.spent {
                    OutputStatus::Spent
                } else {
                    OutputStatus::Unspent
                },
                tx_id: None,
            };
            let _ = self.add(o);
            k = k + 1;
        }
        proof {
            assert(chain@.subrange(0, k as int) =~= chain@);
        }
    }
}

proof fn lemma_confirm_keeps_wf(outs: Seq<OutputData>, txs: Seq<TxLogEntry>, next: u32, chain: Seq<ChainOutput>)
    requires
        crate::wallet::locks_held(outs, txs),
        crate::wallet::log_wf(txs, next),
    ensures
        crate::wallet::locks_held(outs, confirmed_log(txs, outs, chain)),
        crate::wallet::log_wf(confirmed_log(txs, outs, chain), next),
{
    let c = confirmed_log(txs, outs, chain);
    assert forall|i: int|
        0 <= i < outs.len() && (#[trigger] outs[i]).status == OutputStatus::Locked implies exists|j: int|
            0 <= j < c.len() && Some(c[j].id) == outs[i].tx_id && !c[j].cancelled by {
        let j = choose|j: int| 0 <= j < txs.len() && Some(txs[j].id) == outs[i].tx_id && !txs[j].cancelled;
        assert(c[j].id == txs[j].id && c[j].cancelled == txs[j].cancelled);
    }
    assert forall|i: int| 0 <= i < c.len() implies (#[trigger] c[i]).id < next by {
        assert(c[i].id == txs[i].id);
    }
    assert forall|i: int, j: int| 0 <= i < c.len() && 0 <= j < c.len() && i != j implies c[i].id != c[j].id by {
        assert(c[i].id == txs[i].id && c[j].id == txs[j].id);
    }
}

impl Wallet {
    /// Whether the chain shows that transaction `id` took effect.
    pub fn tx_seen_on_chain(&self, chain: &Vec<ChainOutput>, id: u32) -> (r: bool)
        ensures
            r == seen_on_chain(self.store.outputs@, chain@, id),
    {
        let mut i: usize = 0;
        while i < self.store.outputs.len()
            invariant
                i <= self.store.outputs@.len(),
                forall|k: int|
                    0 <= k < i ==> !(self.store.outputs@[k].tx_id == Some(id) && chain_has(
                        chain@,
                        self.store.outputs@[k].id,
                        true,
                    )),
            decreases self.store.outputs@.len() - i,
        {
            let o = self.store.outputs[i];
            if o.tx_id == Some(id) && chain_reports(chain, o.id, true) {
                return true;
            }
            i = i + 1;
        }
        false
    }

    /// Check and repair: adds the owned outputs found on chain that the
    /// store lacks, brings every output in line with the chain view, and
    /// marks confirmed every logged transaction that the chain shows took
    /// effect.
    #[verifier::rlimit(40)]
    pub fn check_repair(&mut self, chain: &Vec<ChainOutput>)
        requires
            old(self).wf(),
        ensures
            final(self).wf(),
            final(self).store.outputs@ == reconciled(restored(old(self).store.outputs@, chain@), chain@),
            final(self).txs@ == confirmed_log(old(self).txs@, old(self).store.outputs@, chain@),
            final(self).next_tx_id == old(self).next_tx_id,
    {
        let mut j: usize = 0;
        while j < self.txs.len()
            invariant
                old(self).wf(),
                self.store == old(self).store,
                self.next_tx_id == old(self).next_tx_id,
                self.txs@.len() == old(self).txs@.len(),
                j <= self.txs@.len(),
                forall|k: int|
                    0 <= k < j ==> self.txs@[k] == confirm_one(
                        old(self).txs@[k],
                        old(self).store.outputs@,
                        chain@,
                    ),
                forall|k: int| j <= k < self.txs@.len() ==> self.txs@[k] == old(self).txs@[k],
            decreases self.txs@.len() - j,
        {
            let e = self.txs[j];
            if self.tx_seen_on_chain(chain, e.id) {
                self.txs.set(
                    j,
                    TxLogEntry {
                        id: e.id,
                        direction: e.direction,
                        amount: e.amount,
                        fee: e.fee,
                        confirmed: true,
                        cancelled: e.cancelled,
                        has_stored_tx: e.has_stored_tx,
                    },
                );
            }
            j = j + 1;
        }
        proof {
            assert(self.txs@ =~= confirmed_log(old(self).txs@, old(self).store.outputs@, chain@));
            lemma_confirm_keeps_wf(old(self).store.outputs@, old(self).txs@, old(self).next_tx_id, chain@);
        }
        self.restore(chain);
    }

    /// Restore: adds the owned outputs found on chain that the store lacks,
    /// then brings the store in line with the chain.
    pub fn restore(&mut self, chain: &Vec<ChainOutput>)
        requires
            old(self).wf(),
        ensures
            final(self).wf(),
            final(self).store.outputs@ == reconciled(restored(old(self).store.outputs@, chain@), chain@),
            final(self).txs@ == old(self).txs@,
            final(self).next_tx_id == old(self).next_tx_id,
    {
        self.store.add_found(chain);
        proof {
            lemma_restored_has(old(self).store.outputs@, chain@);
            let outs = self.store.outputs@;
            assert forall|i: int|
                0 <= i < outs.len() && (#[trigger] outs[i]).status == OutputStatus::Locked implies exists|j: int|
                    0 <= j < self.txs@.len() && Some(self.txs@[j].id) == outs[i].tx_id
                        && !self.txs@[j].cancelled by {
                assert(i < old(self).store.outputs@.len());
                assert(outs[i] == old(self).store.outputs@[i]);
                assert(old(self).store.outputs@[i].status == OutputStatus::Locked);
                let j = choose|j: int|
                    0 <= j < old(self).txs@.len() && Some(old(self).txs@[j].id)
                        == old(self).store.outputs@[i].tx_id && !old(self).txs@[j].cancelled;
                assert(0 <= j < self.txs@.len() && Some(self.txs@[j].id) == outs[i].tx_id
                    && !self.txs@[j].cancelled);
            }
            assert(crate::wallet::locks_held(outs, self.txs@));
        }
        self.store.reconcile(chain);
        proof {
            let before = restored(old(self).store.outputs@, chain@);
            let outs = self.store.outputs@;
            assert forall|i: int|
                0 <= i < outs.len() && (#[trigger] outs[i]).status == OutputStatus::Locked implies exists|j: int|
                    0 <= j < self.txs@.len() && Some(self.txs@[j].id) == outs[i].tx_id
                        && !self.txs@[j].cancelled by {
                assert(before[i].status == OutputStatus::Locked);
                assert(crate::wallet::locks_held(before, self.txs@));
                let j = choose|j: int|
                    0 <= j < self.txs@.len() && Some(self.txs@[j].id) == before[i].tx_id && !self.txs@[j].cancelled;
                assert(outs[i].tx_id == before[i].tx_id);
            }
        }
    }
}

/// Running check and repair a second time against the same chain view
/// leaves both the output store and the transaction log as the first run
/// left them.
pub proof fn lemma_check_repair_idempotent(outs: Seq<OutputData>, txs: Seq<TxLogEntry>, chain: Seq<ChainOutput>)
    ensures
        reconciled(restored(reconciled(restored(outs, chain), chain), chain), chain) == reconciled(
            restored(outs, chain),
            chain,
        ),
        confirmed_log(confirmed_log(txs, outs, chain), reconciled(restored(outs, chain), chain), chain)
            == confirmed_log(txs, outs, chain),
{
    lemma_restore_idempotent(outs, chain);
    lemma_restored_has(outs, chain);
    let q = restored(outs, chain);
    let r = reconciled(q, chain);
    assert forall|id: u32| seen_on_chain(r, chain, id) == seen_on_chain(outs, chain, id) by {
        if seen_on_chain(r, chain, id) {
            let i = choose|i: int| 0 <= i < r.len() && r[i].tx_id == Some(id) && chain_has(chain, r[i].id, true);
            assert(r[i].tx_id == q[i].tx_id && r[i].id == q[i].id);
            if i >= outs.len() {
                assert(q[i].tx_id is None);
            }
            assert(outs[i] == q[i]);
        }
        if seen_on_chain(outs, chain, id) {
            let i = choose|i: int|
                0 <= i < outs.len() && outs[i].tx_id == Some(id) && chain_has(chain, outs[i].id, true);
            assert(outs[i] == q[i]);
            assert(r[i].tx_id == q[i].tx_id && r[i].id == q[i].id);
        }
    }
    assert(confirmed_log(confirmed_log(txs, outs, chain), r, chain) =~= confirmed_log(txs, outs, chain));
}

proof fn lemma_restored_keeps(outs: Seq<OutputData>, chain: Seq<ChainOutput>)
    requires
        forall|k: int| 0 <= k < chain.len() ==> has_id(outs, #[trigger] chain[k].id),
    ensures
        restored(outs, chain) == outs,
    decreases chain.len(),
{
    if chain.len() > 0 {
        let p = chain.drop_last();
        assert forall|k: int| 0 <= k < p.len() implies has_id(outs, #[trigger] p[k].id) by {
            assert(p[k] == chain[k]);
        }
        lemma_restored_keeps(outs, p);
        assert(has_id(outs, chain[chain.len() - 1].id));
    }
}

proof fn lemma_restored_has(outs: Seq<OutputData>, chain: Seq<ChainOutput>)
    ensures
        forall|k: int| 0 <= k < chain.len() ==> has_id(restored(outs, chain), #[trigger] chain[k].id),
        outs.len() <= restored(outs, chain).len(),
        forall|i: int| 0 <= i < outs.len() ==> #[trigger] restored(outs, chain)[i] == outs[i],
        forall|i: int|
            outs.len() <= i < restored(outs, chain).len() ==> (#[trigger] restored(outs, chain)[i]).status
                != OutputStatus::Locked && restored(outs, chain)[i].tx_id is None,
    decreases chain.len(),
{
    if chain.len() > 0 {
        let p = chain.drop_last();
        lemma_restored_has(outs, p);
        let prev = restored(outs, p);
        let cur = restored(outs, chain);
        assert forall|i: int| 0 <= i < outs.len() implies #[trigger] cur[i] == outs[i] by {
            assert(prev[i] == outs[i]);
            assert(cur[i] == prev[i]);
        }
        assert forall|k: int| 0 <= k < chain.len() implies has_id(cur, #[trigger] chain[k].id) by {
            if k < chain.len() - 1 {
                assert(p[k] == chain[k]);
                let i = choose|i: int| 0 <= i < prev.len() && prev[i].id == p[k].id;
                assert(cur[i] == prev[i]);
            } else if !has_id(prev, chain.last().id) {
                assert(cur[prev.len() as int].id == chain.last().id);
            }
        }
    }
}

proof fn lemma_reconciled_ids(outs: Seq<OutputData>, chain: Seq<ChainOutput>, id: u64)
    requires
        has_id(outs, id),
    ensures
        has_id(reconciled(outs, chain), id),
{
    let i = choose|i: int| 0 <= i < outs.len() && outs[i].id == id;
    assert(reconciled(outs, chain)[i].id == id);
}

/// Restoring a second time against the same chain view changes nothing.
pub proof fn lemma_restore_idempotent(outs: Seq<OutputData>, chain: Seq<ChainOutput>)
    ensures
        reconciled(restored(reconciled(restored(outs, chain), chain), chain), chain) == reconciled(
            restored(outs, chain),
            chain,
        ),
{
    let once = reconciled(restored(outs, chain), chain);
    lemma_restored_has(outs, chain);
    assert forall|k: int| 0 <= k < chain.len() implies has_id(once, #[trigger] chain[k].id) by {
        lemma_reconciled_ids(restored(outs, chain), chain, chain[k].id);
    }
    lemma_restored_keeps(once, chain);
    assert(reconciled(reconciled(restored(outs, chain), chain), chain) =~= reconciled(restored(outs, chain), chain));
}

} // verus!
