use vstd::prelude::*;
use crate::error::WalletError;
use crate::outputs::{all_present, all_unspent, has_id, outputs_wf, reserved, OutputData, OutputStatus, OutputStore};
use crate::greedy::{minimal_selection, picks_ids, some_set_pays};

verus! {

/// Outputs a payment creates: the receiver's and the sender's change.
pub const PAYMENT_OUTPUTS: u64 = 2;

/// Fee weight of one output; an input and the kernel weigh one each.
pub const OUTPUT_WEIGHT: u64 = 4;

/// The estimated cost of one selection policy.
#[derive(Clone, Copy, Debug, PartialEq, Eq)]
pub struct Strategy {
    pub selection_strategy_is_use_all: bool,
    pub total: u64,
    pub fee: u64,
}

/// A strategy with the ids of the outputs it spends.
#[derive(Clone, Debug)]
pub struct Selection {
    pub strategy: Strategy,
    pub inputs: Vec<u64>,
}

/// Fee of a transaction with the given input and output counts.
pub open spec fn fee_for(num_inputs: int, num_outputs: int, base_fee: int) -> int {
    base_fee * (num_inputs + OUTPUT_WEIGHT * num_outputs + 1)
}

pub open spec fn spendable(o: OutputData) -> bool {
    o.status == OutputStatus::Unspent
}

pub open spec fn unspent_total(outs: Seq<OutputData>) -> int
    decreases outs.len(),
{
    if outs.len() == 0 {
        0
    } else {
        unspent_total(outs.drop_last()) + if spendable(outs.last()) {
            outs.last().value as int
        } else {
            0
        }
    }
}

pub open spec fn unspent_count(outs: Seq<OutputData>) -> int
    decreases outs.len(),
{
    if outs.len() == 0 {
        0
    } else {
        unspent_count(outs.drop_last()) + if spendable(outs.last()) {
            1int
        } else {
            0
        }
    }
}

/// Ids of the unspent outputs, in store order.
pub open spec fn unspent_ids(outs: Seq<OutputData>) -> Seq<u64>
    decreases outs.len(),
{
    if outs.len() == 0 {
        Seq::empty()
    } else if spendable(outs.last()) {
        unspent_ids(outs.drop_last()).push(outs.last().id)
    } else {
        unspent_ids(outs.drop_last())
    }
}

/// All unspent outputs together pay the amount and their fee.
pub open spec fn use_all_ok(outs: Seq<OutputData>, amount: int, base_fee: int) -> bool {
    let fee = fee_for(unspent_count(outs), PAYMENT_OUTPUTS as int, base_fee);
    unspent_count(outs) > 0 && fee <= u64::MAX && amount + fee <= unspent_total(outs)
}

/// The selection spending every unspent output.
pub open spec fn use_all_selection(outs: Seq<OutputData>, base_fee: int, flag: bool) -> (Strategy, Seq<u64>) {
    (
        Strategy {
            selection_strategy_is_use_all: flag,
            total: unspent_total(outs) as u64,
            fee: fee_for(unspent_count(outs), PAYMENT_OUTPUTS as int, base_fee) as u64,
        },
        unspent_ids(outs),
    )
}

/// What a policy picks: for use-all every unspent output; for
/// smallest-first the fewest unspent outputs that pay, taken largest first.
pub open spec fn estimate_result(outs: Seq<OutputData>, amount: int, base_fee: int, use_all: bool, sel: Selection) -> bool {
    if use_all {
        use_all_ok(outs, amount, base_fee) && (sel.strategy, sel.inputs@) == use_all_selection(outs, base_fee, true)
    } else {
        exists|order: Seq<int>| minimal_selection(outs, amount, base_fee, order, sel)
    }
}

/// The policy finds nothing that pays.
pub open spec fn estimate_fails(outs: Seq<OutputData>, amount: int, base_fee: int, use_all: bool) -> bool {
    if use_all {
        !use_all_ok(outs, amount, base_fee)
    } else {
        !some_set_pays(outs, amount, base_fee)
    }
}

proof fn lemma_total_monotone(outs: Seq<OutputData>, i: int, j: int)
    requires
        0 <= i <= j <= outs.len(),
    ensures
        unspent_total(outs.subrange(0, i)) <= unspent_total(outs.subrange(0, j)),
    decreases j - i,
{
    if i < j {
        lemma_total_monotone(outs, i, j - 1);
        assert(outs.subrange(0, j).drop_last() =~= outs.subrange(0, j - 1));
    }
}

/// Fee of a payment with `num_inputs` inputs, or `None` where it exceeds
/// what a `u64` holds.
pub fn fee_of(num_inputs: u64, num_outputs: u64, base_fee: u64) -> (r: Option<u64>)
    ensures
        fee_for(num_inputs as int, num_outputs as int, base_fee as int) <= u64::MAX ==> r == Some(
            fee_for(num_inputs as int, num_outputs as int, base_fee as int) as u64,
        ),
        fee_for(num_inputs as int, num_outputs as int, base_fee as int) > u64::MAX ==> r is None,
{
    let scaled: u128 = 4 * num_outputs as u128;
    let weight: u128 = num_inputs as u128 + scaled + 1;
    proof {
        assert(fee_for(num_inputs as int, num_outputs as int, base_fee as int) == weight as int
            * base_fee as int) by (nonlinear_arith)
            requires
                weight == num_inputs + 4 * num_outputs + 1,
        ;
    }
    if base_fee == 0 {
        return Some(0);
    }
    if weight > u64::MAX as u128 {
        proof {
            assert(base_fee as int * weight as int >= weight as int) by (nonlinear_arith)
                requires
                    base_fee >= 1,
                    weight >= 0,
            ;
        }
        return None;
    }
    proof {
        assert(weight as int * base_fee as int <= u64::MAX as int * u64::MAX as int) by (nonlinear_arith)
            requires
                weight <= u64::MAX,
                base_fee <= u64::MAX,
        ;
    }
    let fee: u128 = weight * base_fee as u128;
    if fee > u64::MAX as u128 {
        None
    } else {
        Some(fee as u64)
    }
}

impl OutputStore {
    /// Sum, count and ids of the unspent outputs.
    pub fn unspent_summary(&self) -> (r: (u64, u64, Vec<u64>))
        requires
            unspent_total(self.outputs@) <= u64::MAX,
        ensures
            r.0 == unspent_total(self.outputs@),
            r.1 == unspent_count(self.outputs@),
            r.2@ == unspent_ids(self.outputs@),
    {
        let mut total: u64 = 0;
        let mut count: u64 = 0;
        let mut ids: Vec<u64> = Vec::new();
        let mut i: usize = 0;
        while i < self.outputs.len()
            invariant
                i <= self.outputs@.len(),
                unspent_total(self.outputs@) <= u64::MAX,
                total == unspent_total(self.outputs@.subrange(0, i as int)),
                count == unspent_count(self.outputs@.subrange(0, i as int)),
                count <= i,
                ids@ == unspent_ids(self.outputs@.subrange(0, i as int)),
            decreases self.outputs@.len() - i,
        {
            let o = self.outputs[i];
            proof {
                let s = self.outputs@;
                assert(s.subrange(0, i + 1).drop_last() =~= s.subrange(0, i as int));
                lemma_total_monotone(s, i + 1, s.len() as int);
                assert(s.subrange(0, s.len() as int) =~= s);
            }
            if o.status == OutputStatus::Unspent {
                total = total + o.value;
                count = count + 1;
                ids.push(o.id);
            }
            i = i + 1;
        }
        proof {
            assert(self.outputs@.subrange(0, i as int) =~= self.outputs@);
        }
        (total, count, ids)
    }

    /// Picks the outputs that pay `amount` under the chosen policy and
    /// computes the fee; `InsufficientFunds` exactly where the policy finds
    /// nothing that pays.
    pub fn estimate(&self, amount: u64, use_all: bool, base_fee: u64) -> (r: Result<Selection, WalletError>)
        requires
            unspent_total(self.outputs@) <= u64::MAX,
        ensures
            r is Ok ==> estimate_result(self.outputs@, amount as int, base_fee as int, use_all, r.unwrap()),
            r is Err ==> r == Err::<Selection, WalletError>(WalletError::InsufficientFunds) && estimate_fails(
                self.outputs@,
                amount as int,
                base_fee as int,
                use_all,
            ),
    {
        if !use_all {
            return match self.smallest_first(amount, base_fee) {
                Some(sel) => Ok(sel),
                None => Err(WalletError::InsufficientFunds),
            };
        }
        let (total, count, ids) = self.unspent_summary();
        if count == 0 {
            return Err(WalletError::InsufficientFunds);
        }
        match fee_of(count, PAYMENT_OUTPUTS, base_fee) {
            None => Err(WalletError::InsufficientFunds),
            Some(fee) => {
                if amount as u128 + fee as u128 > total as u128 {
                    Err(WalletError::InsufficientFunds)
                } else {
                    Ok(
                        Selection {
                            strategy: Strategy { selection_strategy_is_use_all: true, total, fee },
                            inputs: ids,
                        },
                    )
                }
            },
        }
    }
}

/// Lists the strategies side by side: the smallest-first one where it
/// succeeded, then the use-all one. The use-all outcome decides: its error
/// is the one returned.
pub fn combine_strategies(smallest: Result<Strategy, WalletError>, all: Result<Strategy, WalletError>) -> (r:
    Result<Vec<Strategy>, WalletError>)
    ensures
        all matches Err(e) ==> r == Err::<Vec<Strategy>, WalletError>(e),
        all matches Ok(a) ==> (r matches Ok(v) && v@ == match smallest {
            Ok(s) => seq![s, a],
            Err(_) => seq![a],
        }),
{
    let mut result: Vec<Strategy> = Vec::new();
    if let Ok(s) = smallest {
        result.push(s);
    }
    match all {
        Ok(a) => {
            result.push(a);
            proof {
                match smallest {
                    Ok(s) => assert(result@ =~= seq![s, a]),
                    Err(_) => assert(result@ =~= seq![a]),
                }
            }
            Ok(result)
        },
        Err(e) => Err(e),
    }
}

impl OutputStore {
    /// The strategies query: both policies estimated for `amount`, the
    /// smallest-first one first where it pays, then the use-all one, whose
    /// outcome decides success.
    pub fn tx_strategies(&self, amount: u64, base_fee: u64) -> (r: Result<Vec<Strategy>, WalletError>)
        requires
            unspent_total(self.outputs@) <= u64::MAX,
        ensures
            r is Ok <==> use_all_ok(self.outputs@, amount as int, base_fee as int),
            r matches Err(e) ==> e == WalletError::InsufficientFunds,
            r matches Ok(v) ==> v@.last() == use_all_selection(self.outputs@, base_fee as int, true).0 && ((
            v@.len() == 2 && exists|sel: Selection|
                estimate_result(self.outputs@, amount as int, base_fee as int, false, sel)
                    && sel.strategy == v@[0]) || (v@.len() == 1 && !some_set_pays(
                self.outputs@,
                amount as int,
                base_fee as int,
            ))),
    {
        let smallest = match self.estimate(amount, false, base_fee) {
            Ok(sel) => Ok(sel.strategy),
            Err(e) => Err(e),
        };
        let all = match self.estimate(amount, true, base_fee) {
            Ok(sel) => Ok(sel.strategy),
            Err(e) => Err(e),
        };
        combine_strategies(smallest, all)
    }
}

/// Some unspent output carries id `x`.
pub open spec fn spendable_id(outs: Seq<OutputData>, x: u64) -> bool {
    exists|i: int| 0 <= i < outs.len() && outs[i].id == x && spendable(outs[i])
}

/// Every id the use-all policy lists belongs to an unspent output.
pub proof fn lemma_unspent_ids_spendable(outs: Seq<OutputData>)
    ensures
        forall|k: int|
            0 <= k < unspent_ids(outs).len() ==> spendable_id(outs, #[trigger] unspent_ids(outs)[k]),
    decreases outs.len(),
{
    if outs.len() == 0 {
        assert(unspent_ids(outs).len() == 0);
    } else {
        let p = outs.drop_last();
        lemma_unspent_ids_spendable(p);
        assert forall|k: int| 0 <= k < unspent_ids(outs).len() implies spendable_id(
            outs,
            #[trigger] unspent_ids(outs)[k],
        ) by {
            if k < unspent_ids(p).len() {
                let i = choose|i: int|
                    0 <= i < p.len() && p[i].id == unspent_ids(p)[k] && spendable(p[i]);
                assert(outs[i] == p[i]);
                if spendable(outs.last()) {
                    assert(unspent_ids(outs) == unspent_ids(p).push(outs.last().id));
                    assert(unspent_ids(outs)[k] == unspent_ids(p)[k]);
                }
                assert(0 <= i < outs.len() && outs[i].id == unspent_ids(outs)[k] && spendable(outs[i]));
            } else {
                assert(spendable(outs.last()));
                assert(unspent_ids(outs) == unspent_ids(p).push(outs.last().id));
                assert(unspent_ids(outs)[k] == outs.last().id);
                let i = outs.len() - 1;
                assert(0 <= i < outs.len() && outs[i].id == unspent_ids(outs)[k] && spendable(outs[i]));
            }
        }
    }
}

/// Locking outputs for a transaction locks exactly those outputs and leaves
/// the rest as they were, and no later estimate on the resulting store
/// selects any of them until they are released.
pub proof fn lemma_locked_outputs_not_selected(
    outs: Seq<OutputData>,
    ids: Seq<u64>,
    t: u32,
    amount: int,
    base_fee: int,
    use_all: bool,
    sel: Selection,
)
    requires
        outputs_wf(outs),
        all_present(outs, ids),
        all_unspent(outs, ids),
        estimate_result(reserved(outs, ids, t), amount, base_fee, use_all, sel),
    ensures
        forall|i: int|
            0 <= i < outs.len() && ids.contains(outs[i].id) ==> #[trigger] reserved(outs, ids, t)[i].status
                == OutputStatus::Locked && reserved(outs, ids, t)[i].tx_id == Some(t),
        forall|i: int|
            0 <= i < outs.len() && !ids.contains(outs[i].id) ==> #[trigger] reserved(outs, ids, t)[i]
                == outs[i],
        forall|k: int| 0 <= k < sel.inputs@.len() ==> !ids.contains(#[trigger] sel.inputs@[k]),
{
    let r = reserved(outs, ids, t);
    assert forall|k: int| 0 <= k < sel.inputs@.len() implies !ids.contains(#[trigger] sel.inputs@[k]) by {
        let x = sel.inputs@[k];
        let i: int = if !use_all {
            let order = choose|order: Seq<int>| minimal_selection(r, amount, base_fee, order, sel);
            assert(sel.inputs@[k] == picks_ids(r, order)[k]);
            order[k]
        } else {
            lemma_unspent_ids_spendable(r);
            assert(spendable_id(r, unspent_ids(r)[k]));
            choose|i: int| 0 <= i < r.len() && r[i].id == unspent_ids(r)[k] && spendable(r[i])
        };
        assert(r[i].id == x && spendable(r[i]));
    }
}

/// Once an output is locked for one transaction, a second lock of any
/// set of outputs that includes it fails with `AlreadyLocked` and changes
/// nothing: of two locks racing for one output, exactly one wins.
pub proof fn lemma_second_lock_fails(outs: Seq<OutputData>, ids1: Seq<u64>, t1: u32, ids2: Seq<u64>, x: u64)
    requires
        all_present(outs, ids1),
        all_unspent(outs, ids1),
        all_present(outs, ids2),
        ids1.contains(x),
        ids2.contains(x),
    ensures
        all_present(reserved(outs, ids1, t1), ids2),
        !all_unspent(reserved(outs, ids1, t1), ids2),
{
    let r = reserved(outs, ids1, t1);
    assert forall|k: int| 0 <= k < ids2.len() implies has_id(r, #[trigger] ids2[k]) by {
        let i = choose|i: int| 0 <= i < outs.len() && outs[i].id == ids2[k];
        assert(r[i].id == ids2[k]);
    }
    let m = choose|m: int| 0 <= m < ids1.len() && ids1[m] == x;
    assert(has_id(outs, ids1[m]));
    let i = choose|i: int| 0 <= i < outs.len() && outs[i].id == ids1[m];
    assert(r[i].status == OutputStatus::Locked);
}

/// Whatever a policy selects consists of stored unspent outputs.
pub proof fn lemma_selection_spendable(outs: Seq<OutputData>, amount: int, base_fee: int, use_all: bool, sel: Selection)
    requires
        outputs_wf(outs),
        estimate_result(outs, amount, base_fee, use_all, sel),
        unspent_total(outs) <= u64::MAX,
        amount >= 0,
        base_fee >= 0,
    ensures
        all_present(outs, sel.inputs@),
        all_unspent(outs, sel.inputs@),
        sel.strategy.total >= amount + sel.strategy.fee,
        sel.strategy.fee <= sel.strategy.total,
{
    assert forall|k: int| 0 <= k < sel.inputs@.len() implies spendable_id(outs, #[trigger] sel.inputs@[k]) by {
        if !use_all {
            let order = choose|order: Seq<int>| minimal_selection(outs, amount, base_fee, order, sel);
            assert(sel.inputs@[k] == outs[order[k]].id);
            assert(spendable(outs[order[k]]));
        } else {
            lemma_unspent_ids_spendable(outs);
        }
    }
    assert forall|k: int| 0 <= k < sel.inputs@.len() implies has_id(outs, #[trigger] sel.inputs@[k]) by {
        assert(spendable_id(outs, sel.inputs@[k]));
    }
    assert forall|i: int|
        0 <= i < outs.len() && sel.inputs@.contains(#[trigger] outs[i].id) implies outs[i].status
        == OutputStatus::Unspent by {
        let k = choose|k: int| 0 <= k < sel.inputs@.len() && sel.inputs@[k] == outs[i].id;
        assert(spendable_id(outs, sel.inputs@[k]));
        let j = choose|j: int| 0 <= j < outs.len() && outs[j].id == sel.inputs@[k] && spendable(outs[j]);
        assert(i == j);
    }
    if !use_all {
        let order = choose|order: Seq<int>| minimal_selection(outs, amount, base_fee, order, sel);
        assert(order.subrange(0, order.len() as int) =~= order);
        assert(fee_for(order.len() as int, PAYMENT_OUTPUTS as int, base_fee) >= 0) by (nonlinear_arith)
            requires
                base_fee >= 0,
                order.len() >= 1,
        ;
    } else {
        let c = unspent_count(outs);
        assert(fee_for(c, PAYMENT_OUTPUTS as int, base_fee) >= 0) by (nonlinear_arith)
            requires
                base_fee >= 0,
                c > 0,
        ;
    }
}

/// Sum of the values of the outputs in one status.
pub open spec fn status_total(outs: Seq<OutputData>, st: OutputStatus) -> int
    decreases outs.len(),
{
    if outs.len() == 0 {
        0
    } else {
        status_total(outs.drop_last(), st) + if outs.last().status == st {
            outs.last().value as int
        } else {
            0
        }
    }
}

/// Balance of a wallet: what can be spent, what in-flight transactions
/// hold, what awaits confirmation, and their sum.
#[derive(Clone, Copy, Debug, PartialEq, Eq)]
pub struct WalletSummary {
    pub total: u64,
    pub spendable: u64,
    pub locked: u64,
    pub awaiting_confirmation: u64,
}

proof fn lemma_status_total_monotone(outs: Seq<OutputData>, st: OutputStatus, i: int, j: int)
    requires
        0 <= i <= j <= outs.len(),
    ensures
        status_total(outs.subrange(0, i), st) <= status_total(outs.subrange(0, j), st),
    decreases j - i,
{
    if i < j {
        lemma_status_total_monotone(outs, st, i, j - 1);
        assert(outs.subrange(0, j).drop_last() =~= outs.subrange(0, j - 1));
    }
}

impl OutputStore {
    /// The balance summary of the store.
    pub fn summary(&self) -> (r: WalletSummary)
        requires
            status_total(self.outputs@, OutputStatus::Unspent) + status_total(
                self.outputs@,
                OutputStatus::Locked,
            ) + status_total(self.outputs@, OutputStatus::Unconfirmed) <= u64::MAX,
        ensures
            r.spendable == status_total(self.outputs@, OutputStatus::Unspent),
            r.locked == status_total(self.outputs@, OutputStatus::Locked),
            r.awaiting_confirmation == status_total(self.outputs@, OutputStatus::Unconfirmed),
            r.total == r.spendable + r.locked + r.awaiting_confirmation,
    {
        let ghost s = self.outputs@;
        let mut spendable: u64 = 0;
        let mut locked: u64 = 0;
        let mut awaiting: u64 = 0;
        let mut i: usize = 0;
        proof {
            assert(s.subrange(0, s.len() as int) =~= s);
        }
        while i < self.outputs.len()
            invariant
                s == self.outputs@,
                i <= s.len(),
                s.subrange(0, s.len() as int) == s,
                status_total(s, OutputStatus::Unspent) + status_total(s, OutputStatus::Locked)
                    + status_total(s, OutputStatus::Unconfirmed) <= u64::MAX,
                spendable == status_total(s.subrange(0, i as int), OutputStatus::Unspent),
                locked == status_total(s.subrange(0, i as int), OutputStatus::Locked),
                awaiting == status_total(s.subrange(0, i as int), OutputStatus::Unconfirmed),
            decreases s.len() - i,
        {
            let o = self.outputs[i];
            proof {
                assert(s.subrange(0, i + 1).drop_last() =~= s.subrange(0, i as int));
                lemma_status_total_monotone(s, OutputStatus::Unspent, i + 1, s.len() as int);
                lemma_status_total_monotone(s, OutputStatus::Locked, i + 1, s.len() as int);
                lemma_status_total_monotone(s, OutputStatus::Unconfirmed, i + 1, s.len() as int);
            }
            if o.status == OutputStatus::Unspent {
                spendable = spendable + o.value;
            } else if o.status == OutputStatus::Locked {
                locked = locked + o.value;
            } else if o.status == OutputStatus::Unconfirmed {
                awaiting = awaiting + o.value;
            }
            i = i + 1;
        }
        WalletSummary { total: spendable + locked + awaiting, spendable, locked, awaiting_confirmation: awaiting }
    }
}

} // verus!
