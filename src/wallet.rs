use vstd::prelude::*;
use crate::error::WalletError;
use crate::outputs::{all_present, all_unspent, released, reserved, OutputData, OutputStatus, OutputStore};
use crate::select::{estimate_fails, estimate_result, unspent_total, Selection, Strategy};
use crate::slate::{combined, complete, finalize, receivable, receive, received, Contribution, Slate, Transaction, SLATE_PARTICIPANTS};
use crate::outputs::has_id;

verus! {

/// Whether the wallet sent or received a transaction.
#[derive(Clone, Copy, Debug, PartialEq, Eq, Structural)]
pub enum TxDirection {
    Sent,
    Received,
}

/// One row of the transaction log.
#[derive(Clone, Copy, Debug, PartialEq, Eq, Structural)]
pub struct TxLogEntry {
    pub id: u32,
    pub direction: TxDirection,
    pub amount: u64,
    pub fee: u64,
    pub confirmed: bool,
    pub cancelled: bool,
    pub has_stored_tx: bool,
}

/// The state of one wallet: its outputs, its transaction log, and the id
/// the next transaction will get.
#[derive(Clone, Debug)]
pub struct Wallet {
    pub store: OutputStore,
    pub txs: Vec<TxLogEntry>,
    pub next_tx_id: u32,
}

pub open spec fn has_tx(txs: Seq<TxLogEntry>, id: u32) -> bool {
    exists|i: int| 0 <= i < txs.len() && txs[i].id == id
}

/// Log ids are unique and all below the next id.
pub open spec fn log_wf(txs: Seq<TxLogEntry>, next_tx_id: u32) -> bool {
    &&& forall|i: int| 0 <= i < txs.len() ==> (#[trigger] txs[i]).id < next_tx_id
    &&& forall|i: int, j: int|
        0 <= i < txs.len() && 0 <= j < txs.len() && i != j ==> txs[i].id != txs[j].id
}

/// The entry of transaction `id`, where one exists.
pub open spec fn tx_index(txs: Seq<TxLogEntry>, id: u32, i: int) -> bool {
    0 <= i < txs.len() && txs[i].id == id
}

/// The log after entry `i` was marked cancelled.
pub open spec fn cancelled_log(txs: Seq<TxLogEntry>, i: int) -> Seq<TxLogEntry> {
    txs.update(i, TxLogEntry { cancelled: true, ..txs[i] })
}

/// Whether repost must broadcast transaction `id`: it is logged, not
/// confirmed, and its finished transaction was stored.
pub open spec fn repost_needed(txs: Seq<TxLogEntry>, id: u32) -> bool {
    exists|i: int| tx_index(txs, id, i) && !txs[i].confirmed && txs[i].has_stored_tx
}

/// The slate that opens transaction `id` for a selection.
pub open spec fn opening_slate(s: Slate, id: u32, amount: u64, sel: Selection, message: Option<String>) -> bool {
    &&& s.tx_id == id
    &&& s.amount == amount
    &&& s.fee == sel.strategy.fee
    &&& s.num_participants == SLATE_PARTICIPANTS
    &&& s.sender.inputs@ == sel.inputs@
    &&& s.sender.outputs@ == seq![(sel.strategy.total - amount - sel.strategy.fee) as u64]
    &&& s.sender.signed
    &&& s.receiver is None
    &&& s.sender_message == message
    &&& s.receiver_message is None
}

/// Every locked output is held by a logged transaction that was not
/// cancelled.
pub open spec fn locks_held(outs: Seq<OutputData>, txs: Seq<TxLogEntry>) -> bool {
    forall|i: int|
        0 <= i < outs.len() && (#[trigger] outs[i]).status == OutputStatus::Locked ==> exists|j: int|
            0 <= j < txs.len() && Some(txs[j].id) == outs[i].tx_id && !txs[j].cancelled
}

/// Output `id` is locked for transaction `t`.
pub open spec fn held_by(outs: Seq<OutputData>, id: u64, t: u32) -> bool {
    exists|i: int|
        0 <= i < outs.len() && outs[i].id == id && outs[i].status == OutputStatus::Locked && outs[i].tx_id
            == Some(t)
}

/// Every input the sender's part of a slate spends is locked for the
/// slate's transaction, and the receiver adds no inputs.
pub open spec fn slate_held(outs: Seq<OutputData>, s: Slate) -> bool {
    &&& forall|k: int| 0 <= k < s.sender.inputs@.len() ==> #[trigger] held_by(outs, s.sender.inputs@[k], s.tx_id)
    &&& s.receiver is Some ==> s.receiver.unwrap().inputs@.len() == 0
}

/// The slate is held by its transaction and carries the amount and fee
/// that were logged for it.
pub open spec fn slate_fits(outs: Seq<OutputData>, txs: Seq<TxLogEntry>, s: Slate) -> bool {
    &&& slate_held(outs, s)
    &&& forall|i: int| tx_index(txs, s.tx_id, i) ==> txs[i].amount == s.amount && txs[i].fee == s.fee
}

impl Wallet {
    pub open spec fn wf(&self) -> bool {
        &&& self.store.wf()
        &&& log_wf(self.txs@, self.next_tx_id)
        &&& locks_held(self.store.outputs@, self.txs@)
    }

    /// An empty wallet.
    pub fn new() -> (r: Wallet)
        ensures
            r.wf(),
            r.store.outputs@ == Seq::<OutputData>::empty(),
            r.txs@ == Seq::<TxLogEntry>::empty(),
            r.next_tx_id == 0,
    {
        Wallet { store: OutputStore::new(), txs: Vec::new(), next_tx_id: 0 }
    }

    /// Position of the log entry of transaction `id`.
    pub fn find_tx(&self, id: u32) -> (r: Option<usize>)
        ensures
            match r {
                Some(i) => tx_index(self.txs@, id, i as int),
                None => !has_tx(self.txs@, id),
            },
    {
        let mut i: usize = 0;
        while i < self.txs.len()
            invariant
                i <= self.txs@.len(),
                forall|j: int| 0 <= j < i ==> self.txs@[j].id != id,
            decreases self.txs@.len() - i,
        {
            if self.txs[i].id == id {
                return Some(i);
            }
            i = i + 1;
        }
        None
    }

    /// The log entry of transaction `id`; `NotFound` where there is none.
    pub fn tx_get(&self, id: u32) -> (r: Result<TxLogEntry, WalletError>)
        ensures
            !has_tx(self.txs@, id) ==> r == Err::<TxLogEntry, WalletError>(WalletError::NotFound),
            has_tx(self.txs@, id) ==> (r matches Ok(e) && exists|i: int|
                tx_index(self.txs@, id, i) && e == self.txs@[i]),
    {
        match self.find_tx(id) {
            Some(i) => Ok(self.txs[i]),
            None => Err(WalletError::NotFound),
        }
    }

    /// Estimates a payment of `amount`, logs a new transaction and returns
    /// its opening slate. Outputs are not locked here. `InvalidInput` for a
    /// zero amount, `InsufficientFunds` where no selection pays,
    /// `StorageError` where transaction ids have run out.
    pub fn create(&mut self, amount: u64, use_all: bool, base_fee: u64, message: Option<String>) -> (r:
        Result<Slate, WalletError>)
        requires
            old(self).wf(),
            unspent_total(old(self).store.outputs@) <= u64::MAX,
        ensures
            final(self).wf(),
            final(self).store.outputs@ == old(self).store.outputs@,
            amount == 0 ==> r == Err::<Slate, WalletError>(WalletError::InvalidInput),
            r is Err ==> final(self).txs@ == old(self).txs@ && final(self).next_tx_id == old(self).next_tx_id,
            r matches Err(e) && e == WalletError::InsufficientFunds ==> estimate_fails(
                old(self).store.outputs@,
                amount as int,
                base_fee as int,
                use_all,
            ),
            r matches Err(e) && e == WalletError::StorageError ==> old(self).next_tx_id == u32::MAX,
            r matches Err(e) && e == WalletError::InvalidInput ==> amount == 0,
            r matches Err(e) ==> e == WalletError::InvalidInput || e == WalletError::InsufficientFunds
                || e == WalletError::StorageError,
            r matches Ok(s) ==> exists|sel: Selection|
                estimate_result(old(self).store.outputs@, amount as int, base_fee as int, use_all, sel)
                    && opening_slate(s, old(self).next_tx_id, amount, sel, message) && final(self).txs@
                    == old(self).txs@.push(
                    TxLogEntry {
                        id: old(self).next_tx_id,
                        direction: TxDirection::Sent,
                        amount,
                        fee: sel.strategy.fee,
                        confirmed: false,
                        cancelled: false,
                        has_stored_tx: false,
                    },
                ) && final(self).next_tx_id == old(self).next_tx_id + 1,
    {
        if amount == 0 {
            return Err(WalletError::InvalidInput);
        }
        let sel = match self.store.estimate(amount, use_all, base_fee) {
            Ok(sel) => sel,
            Err(_) => {
                return Err(WalletError::InsufficientFunds);
            },
        };
        if self.next_tx_id == u32::MAX {
            return Err(WalletError::StorageError);
        }
        proof {
            crate::select::lemma_selection_spendable(
                self.store.outputs@,
                amount as int,
                base_fee as int,
                use_all,
                sel,
            );
        }
        let change: u64 = sel.strategy.total - amount - sel.strategy.fee;
        let id = self.next_tx_id;
        let mut outputs: Vec<u64> = Vec::new();
        outputs.push(change);
        let entry = TxLogEntry {
            id,
            direction: TxDirection::Sent,
            amount,
            fee: sel.strategy.fee,
            confirmed: false,
            cancelled: false,
            has_stored_tx: false,
        };
        self.txs.push(entry);
        self.next_tx_id = id + 1;
        proof {
            let outs = self.store.outputs@;
            assert forall|i: int|
                0 <= i < outs.len() && (#[trigger] outs[i]).status == OutputStatus::Locked implies exists|j: int|
                    0 <= j < self.txs@.len() && Some(self.txs@[j].id) == outs[i].tx_id
                        && !self.txs@[j].cancelled by {
                let j = choose|j: int|
                    0 <= j < old(self).txs@.len() && Some(old(self).txs@[j].id) == outs[i].tx_id
                        && !old(self).txs@[j].cancelled;
                assert(self.txs@[j] == old(self).txs@[j]);
            }
        }
        let slate = Slate {
            tx_id: id,
            amount,
            fee: sel.strategy.fee,
            num_participants: SLATE_PARTICIPANTS,
            sender: Contribution { inputs: crate::slate::copy_u64s(&sel.inputs), outputs, signed: true },
            receiver: None,
            sender_message: message,
            receiver_message: None,
        };
        proof {
            assert(slate.sender.outputs@ =~= seq![change]);
            assert(opening_slate(slate, id, amount, sel, message));
        }
        Ok(slate)
    }

    /// Locks the outputs a slate spends for its transaction, all or none.
    /// `NotFound` where the transaction is not logged or an input is
    /// unknown, `AlreadyConfirmed` where it is confirmed, `InvalidSlate`
    /// where it was cancelled, `AlreadyLocked` where an input is not
    /// unspent.
    pub fn lock(&mut self, slate: &Slate) -> (r: Result<(), WalletError>)
        requires
            old(self).wf(),
        ensures
            final(self).wf(),
            final(self).txs@ == old(self).txs@,
            final(self).next_tx_id == old(self).next_tx_id,
            !has_tx(old(self).txs@, slate.tx_id) ==> r == Err::<(), WalletError>(WalletError::NotFound),
            forall|i: int|
                tx_index(old(self).txs@, slate.tx_id, i) && old(self).txs@[i].confirmed ==> r == Err::<
                    (),
                    WalletError,
                >(WalletError::AlreadyConfirmed),
            forall|i: int|
                tx_index(old(self).txs@, slate.tx_id, i) && !old(self).txs@[i].confirmed
                    && old(self).txs@[i].cancelled ==> r == Err::<(), WalletError>(WalletError::InvalidSlate),
            r is Ok <==> (exists|i: int|
                tx_index(old(self).txs@, slate.tx_id, i) && !old(self).txs@[i].confirmed
                    && !old(self).txs@[i].cancelled) && all_present(
                old(self).store.outputs@,
                slate.sender.inputs@,
            ) && all_unspent(old(self).store.outputs@, slate.sender.inputs@),
            has_tx(old(self).txs@, slate.tx_id) && all_present(old(self).store.outputs@, slate.sender.inputs@)
                && !all_unspent(old(self).store.outputs@, slate.sender.inputs@) && (forall|i: int|
                tx_index(old(self).txs@, slate.tx_id, i) ==> !old(self).txs@[i].confirmed
                    && !old(self).txs@[i].cancelled) ==> r == Err::<(), WalletError>(
                WalletError::AlreadyLocked,
            ),
            r is Ok ==> final(self).store.outputs@ == reserved(
                old(self).store.outputs@,
                slate.sender.inputs@,
                slate.tx_id,
            ),
            r is Err ==> final(self).store.outputs@ == old(self).store.outputs@,
    {
        let i = match self.find_tx(slate.tx_id) {
            Some(i) => i,
            None => {
                return Err(WalletError::NotFound);
            },
        };
        let entry = self.txs[i];
        if entry.confirmed {
            proof {
                assert forall|j: int| tx_index(self.txs@, slate.tx_id, j) implies j == i by {}
            }
            return Err(WalletError::AlreadyConfirmed);
        }
        if entry.cancelled {
            proof {
                assert forall|j: int| tx_index(self.txs@, slate.tx_id, j) implies j == i by {}
            }
            return Err(WalletError::InvalidSlate);
        }
        proof {
            assert forall|j: int| tx_index(self.txs@, slate.tx_id, j) implies j == i by {}
        }
        let r = self.store.reserve(&slate.sender.inputs, slate.tx_id);
        proof {
            let outs = self.store.outputs@;
            let olds = old(self).store.outputs@;
            assert forall|k: int|
                0 <= k < outs.len() && (#[trigger] outs[k]).status == OutputStatus::Locked implies exists|j: int|
                    0 <= j < self.txs@.len() && Some(self.txs@[j].id) == outs[k].tx_id
                        && !self.txs@[j].cancelled by {
                if r is Ok && slate.sender.inputs@.contains(olds[k].id) {
                    assert(outs[k].tx_id == Some(slate.tx_id));
                    assert(Some(self.txs@[i as int].id) == outs[k].tx_id);
                } else {
                    assert(outs[k] == olds[k]);
                    assert(olds[k].status == OutputStatus::Locked);
                    let j = choose|j: int|
                        0 <= j < old(self).txs@.len() && Some(old(self).txs@[j].id) == olds[k].tx_id
                            && !old(self).txs@[j].cancelled;
                    assert(0 <= j < self.txs@.len() && Some(self.txs@[j].id) == outs[k].tx_id
                        && !self.txs@[j].cancelled);
                }
            }
        }
        r
    }

    /// Cancels transaction `tx_id`: lifts its locks and marks it cancelled.
    /// `NotFound` for an unknown id, `AlreadyConfirmed` for a confirmed one.
    /// Cancelling a cancelled transaction changes nothing.
    pub fn cancel(&mut self, tx_id: u32) -> (r: Result<(), WalletError>)
        requires
            old(self).wf(),
        ensures
            final(self).wf(),
            final(self).next_tx_id == old(self).next_tx_id,
            !has_tx(old(self).txs@, tx_id) ==> r == Err::<(), WalletError>(WalletError::NotFound),
            forall|i: int|
                tx_index(old(self).txs@, tx_id, i) ==> if old(self).txs@[i].confirmed {
                    r == Err::<(), WalletError>(WalletError::AlreadyConfirmed)
                } else {
                    r is Ok && final(self).store.outputs@ == released(old(self).store.outputs@, tx_id)
                        && final(self).txs@ == cancelled_log(old(self).txs@, i)
                },
            r is Err ==> final(self).store.outputs@ == old(self).store.outputs@ && final(self).txs@
                == old(self).txs@,
    {
        let i = match self.find_tx(tx_id) {
            Some(i) => i,
            None => {
                return Err(WalletError::NotFound);
            },
        };
        proof {
            assert forall|j: int| tx_index(self.txs@, tx_id, j) implies j == i by {}
        }
        let entry = self.txs[i];
        if entry.confirmed {
            return Err(WalletError::AlreadyConfirmed);
        }
        self.store.release(tx_id);
        self.txs.set(
            i,
            TxLogEntry {
                id: entry.id,
                direction: entry.direction,
                amount: entry.amount,
                fee: entry.fee,
                confirmed: entry.confirmed,
                cancelled: true,
                has_stored_tx: entry.has_stored_tx,
            },
        );
        proof {
            assert(self.txs@ =~= cancelled_log(old(self).txs@, i as int));
            let outs = self.store.outputs@;
            let olds = old(self).store.outputs@;
            assert forall|k: int|
                0 <= k < outs.len() && (#[trigger] outs[k]).status == OutputStatus::Locked implies exists|j: int|
                    0 <= j < self.txs@.len() && Some(self.txs@[j].id) == outs[k].tx_id
                        && !self.txs@[j].cancelled by {
                assert(outs[k] == olds[k]);
                assert(olds[k].tx_id != Some(tx_id));
                let j = choose|j: int|
                    0 <= j < old(self).txs@.len() && Some(old(self).txs@[j].id) == olds[k].tx_id
                        && !old(self).txs@[j].cancelled;
                assert(j != i);
                assert(self.txs@[j] == old(self).txs@[j]);
            }
        }
        Ok(())
    }

    /// The sender finalizes its transaction and keeps it for reposting.
    /// The slate is checked before anything changes (`InvalidSlate`,
    /// `IncompleteSlate` as `finalize` gives them); `NotFound` where the
    /// transaction is not logged; `InvalidSlate` where the returned slate
    /// spends an input not locked for this transaction, the receiver added
    /// inputs, or its amount or fee differ from those logged.
    pub fn finalize_tx(&mut self, slate: &Slate) -> (r: Result<Transaction, WalletError>)
        requires
            old(self).wf(),
        ensures
            final(self).wf(),
            final(self).store.outputs@ == old(self).store.outputs@,
            final(self).next_tx_id == old(self).next_tx_id,
            !(slate.sender.signed && slate.num_participants == SLATE_PARTICIPANTS) ==> r == Err::<
                Transaction,
                WalletError,
            >(WalletError::InvalidSlate),
            slate.sender.signed && slate.num_participants == SLATE_PARTICIPANTS && !complete(*slate) ==> r
                == Err::<Transaction, WalletError>(WalletError::IncompleteSlate),
            slate.sender.signed && slate.num_participants == SLATE_PARTICIPANTS && complete(*slate)
                && !has_tx(old(self).txs@, slate.tx_id) ==> r == Err::<Transaction, WalletError>(
                WalletError::NotFound,
            ),
            r is Err ==> final(self).txs@ == old(self).txs@,
            r matches Ok(t) ==> combined(*slate, t) && exists|i: int|
                tx_index(old(self).txs@, slate.tx_id, i) && final(self).txs@ == old(self).txs@.update(
                    i,
                    TxLogEntry { has_stored_tx: true, ..old(self).txs@[i] },
                ),
            slate.sender.signed && slate.num_participants == SLATE_PARTICIPANTS && complete(*slate)
                && has_tx(old(self).txs@, slate.tx_id) && !slate_fits(old(self).store.outputs@, old(self).txs@, *slate) ==> r
                == Err::<Transaction, WalletError>(WalletError::InvalidSlate),
            r is Ok ==> slate_fits(old(self).store.outputs@, old(self).txs@, *slate),
            slate.sender.signed && slate.num_participants == SLATE_PARTICIPANTS && complete(*slate)
                && has_tx(old(self).txs@, slate.tx_id) && slate_fits(old(self).store.outputs@, old(self).txs@, *slate) ==> r is Ok,
    {
        let t = finalize(slate)?;
        let i = match self.find_tx(slate.tx_id) {
            Some(i) => i,
            None => {
                return Err(WalletError::NotFound);
            },
        };
        proof {
            assert forall|j: int| tx_index(self.txs@, slate.tx_id, j) implies j == i by {}
        }
        if self.txs[i].amount != slate.amount || self.txs[i].fee != slate.fee {
            return Err(WalletError::InvalidSlate);
        }
        let mut k: usize = 0;
        while k < slate.sender.inputs.len()
            invariant
                self.store.outputs@ == old(self).store.outputs@,
                self.txs@ == old(self).txs@,
                old(self).wf(),
                slate.sender.signed && slate.num_participants == SLATE_PARTICIPANTS && complete(*slate),
                combined(*slate, t),
                tx_index(old(self).txs@, slate.tx_id, i as int),
                old(self).txs@[i as int].amount == slate.amount && old(self).txs@[i as int].fee == slate.fee,
                forall|j: int| tx_index(old(self).txs@, slate.tx_id, j) ==> j == i,
                k <= slate.sender.inputs@.len(),
                forall|m: int| 0 <= m < k ==> #[trigger] held_by(self.store.outputs@, slate.sender.inputs@[m], slate.tx_id),
            decreases slate.sender.inputs@.len() - k,
        {
            match self.store.find(slate.sender.inputs[k]) {
                None => {
                    proof {
                        assert(!held_by(self.store.outputs@, slate.sender.inputs@[k as int], slate.tx_id));
                    }
                    return Err(WalletError::InvalidSlate);
                },
                Some(j) => {
                    let o = self.store.outputs[j];
                    if o.status != OutputStatus::Locked || o.tx_id != Some(slate.tx_id) {
                        proof {
                            assert(!held_by(self.store.outputs@, slate.sender.inputs@[k as int], slate.tx_id)) by {
                                if held_by(self.store.outputs@, slate.sender.inputs@[k as int], slate.tx_id) {
                                    let x = choose|x: int| 0 <= x < self.store.outputs@.len()
                                        && self.store.outputs@[x].id == slate.sender.inputs@[k as int]
                                        && self.store.outputs@[x].status == OutputStatus::Locked
                                        && self.store.outputs@[x].tx_id == Some(slate.tx_id);
                                    assert(x == j);
                                }
                            }
                        }
                        return Err(WalletError::InvalidSlate);
                    }
                },
            }
            k = k + 1;
        }
        match &slate.receiver {
            Some(c) => {
                if c.inputs.len() != 0 {
                    return Err(WalletError::InvalidSlate);
                }
            },
            None => {},
        }
        let entry = self.txs[i];
        self.txs.set(
            i,
            TxLogEntry {
                id: entry.id,
                direction: entry.direction,
                amount: entry.amount,
                fee: entry.fee,
                confirmed: entry.confirmed,
                cancelled: entry.cancelled,
                has_stored_tx: true,
            },
        );
        proof {
            assert(self.txs@ =~= old(self).txs@.update(
                i as int,
                TxLogEntry { has_stored_tx: true, ..old(self).txs@[i as int] },
            ));
            let outs = self.store.outputs@;
            assert forall|k: int|
                0 <= k < outs.len() && (#[trigger] outs[k]).status == OutputStatus::Locked implies exists|j: int|
                    0 <= j < self.txs@.len() && Some(self.txs@[j].id) == outs[k].tx_id
                        && !self.txs@[j].cancelled by {
                let j = choose|j: int|
                    0 <= j < old(self).txs@.len() && Some(old(self).txs@[j].id) == outs[k].tx_id
                        && !old(self).txs@[j].cancelled;
                assert(0 <= j < self.txs@.len() && Some(self.txs@[j].id) == outs[k].tx_id
                    && !self.txs@[j].cancelled);
            }
        }
        Ok(t)
    }

    /// Creates a payment and locks its inputs at once, so that the slate is
    /// never handed on with its outputs free. Fails as `create` does; where
    /// it succeeds, exactly the selected outputs are locked.
    pub fn create_and_lock(&mut self, amount: u64, use_all: bool, base_fee: u64, message: Option<
        String,
    >) -> (r: Result<Slate, WalletError>)
        requires
            old(self).wf(),
            unspent_total(old(self).store.outputs@) <= u64::MAX,
        ensures
            final(self).wf(),
            amount == 0 ==> r == Err::<Slate, WalletError>(WalletError::InvalidInput),
            r is Err ==> final(self).txs@ == old(self).txs@ && final(self).next_tx_id == old(self).next_tx_id
                && final(self).store.outputs@ == old(self).store.outputs@,
            r matches Err(e) && e == WalletError::InsufficientFunds ==> estimate_fails(
                old(self).store.outputs@,
                amount as int,
                base_fee as int,
                use_all,
            ),
            r matches Err(e) && e == WalletError::StorageError ==> old(self).next_tx_id == u32::MAX,
            r matches Err(e) && e == WalletError::InvalidInput ==> amount == 0,
            r matches Err(e) ==> e == WalletError::InvalidInput || e == WalletError::InsufficientFunds
                || e == WalletError::StorageError,
            r matches Ok(s) ==> exists|sel: Selection|
                estimate_result(old(self).store.outputs@, amount as int, base_fee as int, use_all, sel)
                    && opening_slate(s, old(self).next_tx_id, amount, sel, message) && final(self).txs@
                    == old(self).txs@.push(
                    TxLogEntry {
                        id: old(self).next_tx_id,
                        direction: TxDirection::Sent,
                        amount,
                        fee: sel.strategy.fee,
                        confirmed: false,
                        cancelled: false,
                        has_stored_tx: false,
                    },
                ) && final(self).next_tx_id == old(self).next_tx_id + 1 && final(self).store.outputs@
                    == reserved(old(self).store.outputs@, sel.inputs@, old(self).next_tx_id),
    {
        let slate = self.create(amount, use_all, base_fee, message)?;
        proof {
            let sel = choose|sel: Selection|
                estimate_result(old(self).store.outputs@, amount as int, base_fee as int, use_all, sel)
                    && opening_slate(slate, old(self).next_tx_id, amount, sel, message) && self.txs@
                    == old(self).txs@.push(
                    TxLogEntry {
                        id: old(self).next_tx_id,
                        direction: TxDirection::Sent,
                        amount,
                        fee: sel.strategy.fee,
                        confirmed: false,
                        cancelled: false,
                        has_stored_tx: false,
                    },
                ) && self.next_tx_id == old(self).next_tx_id + 1;
            crate::select::lemma_selection_spendable(
                old(self).store.outputs@,
                amount as int,
                base_fee as int,
                use_all,
                sel,
            );
            let last = self.txs@.len() - 1;
            assert(tx_index(self.txs@, slate.tx_id, last));
            assert forall|j: int| tx_index(self.txs@, slate.tx_id, j) implies j == last by {
                if j != last {
                    assert(self.txs@[j] == old(self).txs@[j]);
                }
            }
        }
        match self.lock(&slate) {
            Ok(()) => Ok(slate),
            Err(e) => Err(e),
        }
    }

    /// The receiver's step on its own wallet. The slate is checked before
    /// anything changes (`InvalidSlate`, as `receive` gives it); then the
    /// new output of the amount is stored as unconfirmed under
    /// `output_id` (`InvalidInput` where that id is taken) and a received
    /// entry is logged (`StorageError` where ids have run out).
    pub fn receive_tx(&mut self, slate: &Slate, message: Option<String>, output_id: u64) -> (r: Result<
        Slate,
        WalletError,
    >)
        requires
            old(self).wf(),
        ensures
            final(self).wf(),
            !receivable(*slate) ==> r == Err::<Slate, WalletError>(WalletError::InvalidSlate),
            receivable(*slate) && has_id(old(self).store.outputs@, output_id) ==> r == Err::<Slate, WalletError>(
                WalletError::InvalidInput,
            ),
            receivable(*slate) && !has_id(old(self).store.outputs@, output_id) && old(self).next_tx_id == u32::MAX
                ==> r == Err::<Slate, WalletError>(WalletError::StorageError),
            receivable(*slate) && !has_id(old(self).store.outputs@, output_id) && old(self).next_tx_id < u32::MAX
                ==> r is Ok,
            r is Err ==> final(self).store.outputs@ == old(self).store.outputs@ && final(self).txs@ == old(
                self,
            ).txs@ && final(self).next_tx_id == old(self).next_tx_id,
            r matches Ok(s) ==> received(*slate, s, message) && final(self).store.outputs@ == old(
                self,
            ).store.outputs@.push(
                OutputData {
                    id: output_id,
                    value: slate.amount,
                    status: OutputStatus::Unconfirmed,
                    tx_id: None,
                },
            ) && final(self).txs@ == old(self).txs@.push(
                TxLogEntry {
                    id: old(self).next_tx_id,
                    direction: TxDirection::Received,
                    amount: slate.amount,
                    fee: slate.fee,
                    confirmed: false,
                    cancelled: false,
                    has_stored_tx: false,
                },
            ) && final(self).next_tx_id == old(self).next_tx_id + 1,
    {
        let answered = receive(slate, message)?;
        if self.store.find(output_id).is_some() {
            return Err(WalletError::InvalidInput);
        }
        if self.next_tx_id == u32::MAX {
            return Err(WalletError::StorageError);
        }
        let o = OutputData { id: output_id, value: slate.amount, status: OutputStatus::Unconfirmed, tx_id: None };
        let _ = self.store.add(o);
        let id = self.next_tx_id;
        let entry = TxLogEntry {
            id,
            direction: TxDirection::Received,
            amount: slate.amount,
            fee: slate.fee,
            confirmed: false,
            cancelled: false,
            has_stored_tx: false,
        };
        self.txs.push(entry);
        self.next_tx_id = id + 1;
        proof {
            let outs = self.store.outputs@;
            assert forall|i: int|
                0 <= i < outs.len() && (#[trigger] outs[i]).status == OutputStatus::Locked implies exists|j: int|
                    0 <= j < self.txs@.len() && Some(self.txs@[j].id) == outs[i].tx_id
                        && !self.txs@[j].cancelled by {
                assert(i < old(self).store.outputs@.len());
                assert(outs[i] == old(self).store.outputs@[i]);
                let j = choose|j: int|
                    0 <= j < old(self).txs@.len() && Some(old(self).txs@[j].id) == outs[i].tx_id
                        && !old(self).txs@[j].cancelled;
                assert(self.txs@[j] == old(self).txs@[j]);
            }
        }
        Ok(answered)
    }

    /// Whether repost must broadcast transaction `tx_id`. An unknown id, a
    /// confirmed transaction, or one never stored needs nothing: repost is
    /// then a silent no-op.
    pub fn repost_action(&self, tx_id: u32) -> (r: bool)
        requires
            self.wf(),
        ensures
            r == repost_needed(self.txs@, tx_id),
    {
        match self.find_tx(tx_id) {
            None => false,
            Some(i) => {
                proof {
                    assert forall|j: int| tx_index(self.txs@, tx_id, j) implies j == i by {}
                }
                let e = self.txs[i];
                !e.confirmed && e.has_stored_tx
            },
        }
    }
}

/// Cancelling a transaction whose lock was just taken gives every output
/// the lock touched its former status back and leaves the other outputs as
/// they were; cancelling a second time changes neither outputs nor log.
pub proof fn lemma_cancel_restores(
    outs: Seq<OutputData>,
    ids: Seq<u64>,
    t: u32,
    txs: Seq<TxLogEntry>,
    i: int,
)
    requires
        all_present(outs, ids),
        all_unspent(outs, ids),
        forall|j: int|
            0 <= j < outs.len() ==> !((#[trigger] outs[j]).status == OutputStatus::Locked
                && outs[j].tx_id == Some(t)),
        0 <= i < txs.len(),
    ensures
        released(reserved(outs, ids, t), t).len() == outs.len(),
        forall|j: int|
            0 <= j < outs.len() ==> (#[trigger] released(reserved(outs, ids, t), t)[j]).status
                == outs[j].status,
        forall|j: int|
            0 <= j < outs.len() && ids.contains(outs[j].id) ==> (#[trigger] released(
                reserved(outs, ids, t),
                t,
            )[j]).status == OutputStatus::Unspent,
        forall|j: int|
            0 <= j < outs.len() && !ids.contains(outs[j].id) ==> #[trigger] released(
                reserved(outs, ids, t),
                t,
            )[j] == outs[j],
        released(released(reserved(outs, ids, t), t), t) == released(reserved(outs, ids, t), t),
        cancelled_log(cancelled_log(txs, i), i) == cancelled_log(txs, i),
{
    let x = released(reserved(outs, ids, t), t);
    assert(released(x, t) =~= x);
    assert(cancelled_log(cancelled_log(txs, i), i) =~= cancelled_log(txs, i));
}

/// Reposting a transaction that is not logged, or that is confirmed, is a
/// no-op: nothing is broadcast and, as the query takes the wallet by
/// shared reference, nothing changes.
pub proof fn lemma_repost_noop(txs: Seq<TxLogEntry>, next_tx_id: u32, id: u32)
    requires
        log_wf(txs, next_tx_id),
        !has_tx(txs, id) || exists|i: int| tx_index(txs, id, i) && txs[i].confirmed,
    ensures
        !repost_needed(txs, id),
{
}

/// In a well-formed wallet no output is locked under the id the next
/// transaction will get, so the premise of `lemma_cancel_restores` holds
/// for every transaction that `create` opens.
pub proof fn lemma_next_id_holds_no_lock(w: Wallet)
    requires
        w.wf(),
    ensures
        forall|i: int|
            0 <= i < w.store.outputs@.len() ==> !((#[trigger] w.store.outputs@[i]).status
                == OutputStatus::Locked && w.store.outputs@[i].tx_id == Some(w.next_tx_id)),
{
    assert forall|i: int|
        0 <= i < w.store.outputs@.len() implies !((#[trigger] w.store.outputs@[i]).status
        == OutputStatus::Locked && w.store.outputs@[i].tx_id == Some(w.next_tx_id)) by {
        if w.store.outputs@[i].status == OutputStatus::Locked {
            let j = choose|j: int|
                0 <= j < w.txs@.len() && Some(w.txs@[j].id) == w.store.outputs@[i].tx_id
                    && !w.txs@[j].cancelled;
            assert(w.txs@[j].id < w.next_tx_id);
        }
    }
}

} // verus!
