use vstd::prelude::*;
use crate::error::WalletError;

verus! {

/// Where an owned output stands.
#[derive(Clone, Copy, Debug, PartialEq, Eq, Structural)]
pub enum OutputStatus {
    Unconfirmed,
    Unspent,
    Locked,
    Spent,
    Cancelled,
}

/// One output owned by the wallet. `tx_id` names the transaction that
/// locked it, if any.
#[derive(Clone, Copy, Debug, PartialEq, Eq)]
pub struct OutputData {
    pub id: u64,
    pub value: u64,
    pub status: OutputStatus,
    pub tx_id: Option<u32>,
}

/// What the chain reports of one output.
#[derive(Clone, Copy, Debug, PartialEq, Eq)]
pub struct ChainOutput {
    pub id: u64,
    pub value: u64,
    pub spent: bool,
}

/// Every output the wallet owns; outputs are never removed.
#[derive(Clone, Debug)]
pub struct OutputStore {
    pub outputs: Vec<OutputData>,
}

pub open spec fn has_id(outs: Seq<OutputData>, id: u64) -> bool {
    exists|i: int| 0 <= i < outs.len() && outs[i].id == id
}

/// Output ids are unique and every locked output names its transaction.
pub open spec fn outputs_wf(outs: Seq<OutputData>) -> bool {
    &&& forall|i: int, j: int|
        0 <= i < outs.len() && 0 <= j < outs.len() && i != j ==> outs[i].id != outs[j].id
    &&& forall|i: int|
        0 <= i < outs.len() && (#[trigger] outs[i]).status == OutputStatus::Locked
            ==> outs[i].tx_id.is_some()
}

/// Every id names a stored output.
pub open spec fn all_present(outs: Seq<OutputData>, ids: Seq<u64>) -> bool {
    forall|k: int| 0 <= k < ids.len() ==> has_id(outs, #[trigger] ids[k])
}

/// Every stored output named by an id is unspent.
pub open spec fn all_unspent(outs: Seq<OutputData>, ids: Seq<u64>) -> bool {
    forall|i: int|
        0 <= i < outs.len() && ids.contains(#[trigger] outs[i].id) ==> outs[i].status
            == OutputStatus::Unspent
}

/// The outputs after those named by `ids` were locked for transaction `t`.
pub open spec fn reserved(outs: Seq<OutputData>, ids: Seq<u64>, t: u32) -> Seq<OutputData> {
    Seq::new(
        outs.len(),
        |i: int|
            if ids.contains(outs[i].id) {
                OutputData { status: OutputStatus::Locked, tx_id: Some(t), ..outs[i] }
            } else {
                outs[i]
            },
    )
}

/// One output after the locks of transaction `t` were lifted.
pub open spec fn release_one(o: OutputData, t: u32) -> OutputData {
    if o.status == OutputStatus::Locked && o.tx_id == Some(t) {
        OutputData { status: OutputStatus::Unspent, tx_id: None, ..o }
    } else {
        o
    }
}

/// The outputs after the locks of transaction `t` were lifted.
pub open spec fn released(outs: Seq<OutputData>, t: u32) -> Seq<OutputData> {
    Seq::new(outs.len(), |i: int| release_one(outs[i], t))
}

pub open spec fn chain_has(chain: Seq<ChainOutput>, id: u64, spent: bool) -> bool {
    exists|k: int| 0 <= k < chain.len() && chain[k].id == id && chain[k].spent == spent
}

/// One output brought in line with the chain, chain truth first: spent on
/// chain makes it spent; otherwise a locked output stays locked, since an
/// in-flight transaction holds it and only cancelling that transaction
/// releases it; otherwise unspent on chain makes it unspent, and absent
/// from the chain marks it unconfirmed. Nothing is dropped.
pub open spec fn reconcile_one(o: OutputData, chain: Seq<ChainOutput>) -> OutputData {
    if chain_has(chain, o.id, true) {
        OutputData { status: OutputStatus::Spent, ..o }
    } else if o.status == OutputStatus::Locked {
        o
    } else if chain_has(chain, o.id, false) {
        OutputData { status: OutputStatus::Unspent, ..o }
    } else {
        OutputData { status: OutputStatus::Unconfirmed, ..o }
    }
}

pub open spec fn reconciled(outs: Seq<OutputData>, chain: Seq<ChainOutput>) -> Seq<OutputData> {
    Seq::new(outs.len(), |i: int| reconcile_one(outs[i], chain))
}

impl OutputStore {
    pub open spec fn wf(&self) -> bool {
        outputs_wf(self.outputs@)
    }

    pub fn new() -> (r: OutputStore)
        ensures
            r.outputs@ == Seq::<OutputData>::empty(),
            r.wf(),
    {
        OutputStore { outputs: Vec::new() }
    }

    /// Position of the output with the given id.
    pub fn find(&self, id: u64) -> (r: Option<usize>)
        ensures
            match r {
                Some(i) => i < self.outputs@.len() && self.outputs@[i as int].id == id,
                None => !has_id(self.outputs@, id),
            },
    {
        let mut i: usize = 0;
        while i < self.outputs.len()
            invariant
                i <= self.outputs@.len(),
                forall|j: int| 0 <= j < i ==> self.outputs@[j].id != id,
            decreases self.outputs@.len() - i,
        {
            if self.outputs[i].id == id {
                return Some(i);
            }
            i = i + 1;
        }
        None
    }

    /// Adds an output under a fresh id, unspent or unconfirmed.
    pub fn add(&mut self, o: OutputData) -> (r: Result<(), WalletError>)
        requires
            old(self).wf(),
            o.status != OutputStatus::Locked,
        ensures
            final(self).wf(),
            has_id(old(self).outputs@, o.id) ==> r == Err::<(), WalletError>(WalletError::InvalidInput)
                && final(self).outputs@ == old(self).outputs@,
            !has_id(old(self).outputs@, o.id) ==> r is Ok && final(self).outputs@ == old(
                self,
            ).outputs@.push(o),
    {
        match self.find(o.id) {
            Some(_) => Err(WalletError::InvalidInput),
            None => {
                self.outputs.push(o);
                proof {
                    assert forall|i: int| 0 <= i < old(self).outputs@.len() implies
                        self.outputs@[i] == old(self).outputs@[i] by {}
                }
                Ok(())
            },
        }
    }

    /// Locks every output named by `ids` for transaction `tx_id`, all or
    /// none: an unknown id gives `NotFound`, one that is not unspent gives
    /// `AlreadyLocked`, and then nothing changes.
    pub fn reserve(&mut self, ids: &Vec<u64>, tx_id: u32) -> (r: Result<(), WalletError>)
        requires
            old(self).wf(),
        ensures
            final(self).wf(),
            !all_present(old(self).outputs@, ids@) ==> r == Err::<(), WalletError>(
                WalletError::NotFound,
            ),
            all_present(old(self).outputs@, ids@) && !all_unspent(old(self).outputs@, ids@)
                ==> r == Err::<(), WalletError>(WalletError::AlreadyLocked),
            r is Ok <==> all_present(old(self).outputs@, ids@) && all_unspent(
                old(self).outputs@,
                ids@,
            ),
            r is Ok ==> final(self).outputs@ == reserved(old(self).outputs@, ids@, tx_id),
            r is Err ==> final(self).outputs@ == old(self).outputs@,
    {
        let mut k: usize = 0;
        while k < ids.len()
            invariant
                self.outputs@ == old(self).outputs@,
                old(self).wf(),
                k <= ids@.len(),
                forall|m: int| 0 <= m < k ==> has_id(self.outputs@, #[trigger] ids@[m]),
            decreases ids@.len() - k,
        {
            if self.find(ids[k]).is_none() {
                return Err(WalletError::NotFound);
            }
            k = k + 1;
        }
        let mut i: usize = 0;
        while i < self.outputs.len()
            invariant
                self.outputs@ == old(self).outputs@,
                old(self).wf(),
                all_present(old(self).outputs@, ids@),
                i <= self.outputs@.len(),
                forall|j: int|
                    0 <= j < i && ids@.contains(#[trigger] self.outputs@[j].id)
                        ==> self.outputs@[j].status == OutputStatus::Unspent,
            decreases self.outputs@.len() - i,
        {
            let o = self.outputs[i];
            if o.status != OutputStatus::Unspent && vec_contains(ids, o.id) {
                return Err(WalletError::AlreadyLocked);
            }
            i = i + 1;
        }
        let ghost before = self.outputs@;
        let mut i: usize = 0;
        while i < self.outputs.len()
            invariant
                before == old(self).outputs@,
                self.outputs@.len() == before.len(),
                i <= before.len(),
                forall|j: int| 0 <= j < i ==> self.outputs@[j] == reserved(before, ids@, tx_id)[j],
                forall|j: int| i <= j < before.len() ==> self.outputs@[j] == before[j],
            decreases before.len() - i,
        {
            let o = self.outputs[i];
            if vec_contains(ids, o.id) {
                self.outputs.set(
                    i,
                    OutputData { id: o.id, value: o.value, status: OutputStatus::Locked, tx_id: Some(tx_id) },
                );
            }
            i = i + 1;
        }
        proof {
            assert(self.outputs@ =~= reserved(before, ids@, tx_id));
        }
        Ok(())
    }

    /// Lifts every lock held by transaction `tx_id`.
    pub fn release(&mut self, tx_id: u32)
        requires
            old(self).wf(),
        ensures
            final(self).wf(),
            final(self).outputs@ == released(old(self).outputs@, tx_id),
    {
        let ghost before = self.outputs@;
        let mut i: usize = 0;
        while i < self.outputs.len()
            invariant
                self.outputs@.len() == before.len(),
                i <= before.len(),
                forall|j: int| 0 <= j < i ==> self.outputs@[j] == released(before, tx_id)[j],
                forall|j: int| i <= j < before.len() ==> self.outputs@[j] == before[j],
            decreases before.len() - i,
        {
            let o = self.outputs[i];
            if o.status == OutputStatus::Locked && o.tx_id == Some(tx_id) {
                self.outputs.set(
                    i,
                    OutputData { id: o.id, value: o.value, status: OutputStatus::Unspent, tx_id: None },
                );
            }
            i = i + 1;
        }
        proof {
            assert(self.outputs@ =~= released(before, tx_id));
        }
    }
}

/// Whether `v` holds `x`.
pub fn vec_contains(v: &Vec<u64>, x: u64) -> (r: bool)
    ensures
        r == v@.contains(x),
{
    let mut i: usize = 0;
    while i < v.len()
        invariant
            i <= v@.len(),
            forall|j: int| 0 <= j < i ==> v@[j] != x,
        decreases v@.len() - i,
    {
        if v[i] == x {
            return true;
        }
        i = i + 1;
    }
    false
}

} // verus!
