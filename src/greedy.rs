use vstd::prelude::*;
use crate::outputs::{OutputData, OutputStatus, OutputStore};
use crate::select::{fee_of, fee_for, spendable, unspent_total, Selection, Strategy, PAYMENT_OUTPUTS};

verus! {

/// Sum of the values of the outputs a mask marks.
pub open spec fn mask_total(outs: Seq<OutputData>, m: Seq<bool>) -> int
    decreases m.len(),
{
    if m.len() == 0 {
        0
    } else {
        mask_total(outs, m.drop_last()) + if m.last() {
            outs[m.len() - 1].value as int
        } else {
            0
        }
    }
}

/// Number of outputs a mask marks.
pub open spec fn mask_count(m: Seq<bool>) -> int
    decreases m.len(),
{
    if m.len() == 0 {
        0
    } else {
        mask_count(m.drop_last()) + if m.last() {
            1int
        } else {
            0
        }
    }
}

/// A mask over the store that marks unspent outputs only: a set of
/// outputs that could be spent together.
pub open spec fn within_unspent(outs: Seq<OutputData>, m: Seq<bool>) -> bool {
    m.len() == outs.len() && forall|i: int| 0 <= i < m.len() && m[i] ==> spendable(outs[i])
}

/// The mask of every unspent output.
pub open spec fn unspent_mask(outs: Seq<OutputData>) -> Seq<bool> {
    Seq::new(outs.len(), |i: int| spendable(outs[i]))
}

/// Sum of the values at a sequence of positions.
pub open spec fn picks_total(outs: Seq<OutputData>, g: Seq<int>) -> int
    decreases g.len(),
{
    if g.len() == 0 {
        0
    } else {
        picks_total(outs, g.drop_last()) + outs[g.last()].value as int
    }
}

/// `g` lists distinct unspent positions, each of greatest value among the
/// unspent outputs not listed before it.
pub open spec fn is_greedy(outs: Seq<OutputData>, g: Seq<int>) -> bool {
    &&& forall|j: int| 0 <= j < g.len() ==> 0 <= #[trigger] g[j] < outs.len() && spendable(outs[g[j]])
    &&& forall|a: int, b: int| 0 <= a < b < g.len() ==> g[a] != g[b]
    &&& forall|j: int, i: int|
        0 <= j < g.len() && 0 <= i < outs.len() && spendable(outs[i]) && !g.subrange(0, j).contains(i)
            ==> #[trigger] outs[i].value <= outs[#[trigger] g[j]].value
}

proof fn lemma_mask_basics(outs: Seq<OutputData>, m: Seq<bool>)
    ensures
        mask_count(m) >= 0,
        mask_total(outs, m) >= 0,
        mask_count(m) == 0 ==> mask_total(outs, m) == 0,
        mask_count(m) > 0 ==> exists|i: int| 0 <= i < m.len() && m[i],
        mask_count(m) <= m.len(),
    decreases m.len(),
{
    if m.len() > 0 {
        lemma_mask_basics(outs, m.drop_last());
        if mask_count(m.drop_last()) > 0 {
            let i = choose|i: int| 0 <= i < m.drop_last().len() && m.drop_last()[i];
            assert(m[i]);
        }
        if m.last() {
            assert(m[m.len() - 1]);
        }
    }
}

proof fn lemma_mask_clear(outs: Seq<OutputData>, m: Seq<bool>, i: int)
    requires
        0 <= i < m.len(),
        m[i],
    ensures
        mask_total(outs, m.update(i, false)) == mask_total(outs, m) - outs[i].value,
        mask_count(m.update(i, false)) == mask_count(m) - 1,
    decreases m.len(),
{
    let u = m.update(i, false);
    if i == m.len() - 1 {
        assert(u.drop_last() =~= m.drop_last());
    } else {
        assert(u.drop_last() =~= m.drop_last().update(i, false));
        lemma_mask_clear(outs, m.drop_last(), i);
    }
}

proof fn lemma_mask_prefix(outs: Seq<OutputData>, outs2: Seq<OutputData>, m: Seq<bool>)
    requires
        m.len() <= outs.len(),
        m.len() <= outs2.len(),
        forall|i: int| 0 <= i < m.len() ==> outs[i] == outs2[i],
    ensures
        mask_total(outs, m) == mask_total(outs2, m),
    decreases m.len(),
{
    if m.len() > 0 {
        lemma_mask_prefix(outs, outs2, m.drop_last());
    }
}

/// The unspent mask adds up to the unspent total.
proof fn lemma_unspent_mask_total(outs: Seq<OutputData>)
    ensures
        mask_total(outs, unspent_mask(outs)) == unspent_total(outs),
    decreases outs.len(),
{
    if outs.len() > 0 {
        let p = outs.drop_last();
        lemma_unspent_mask_total(p);
        assert(unspent_mask(outs).drop_last() =~= unspent_mask(p));
        lemma_mask_prefix(outs, p, unspent_mask(p));
    }
}

/// A mask within another counts no more.
proof fn lemma_mask_count_sub(a: Seq<bool>, b: Seq<bool>)
    requires
        a.len() == b.len(),
        forall|i: int| 0 <= i < a.len() && a[i] ==> b[i],
    ensures
        mask_count(a) <= mask_count(b),
    decreases a.len(),
{
    if a.len() > 0 {
        lemma_mask_count_sub(a.drop_last(), b.drop_last());
    }
}

proof fn lemma_picks_front(outs: Seq<OutputData>, g: Seq<int>)
    requires
        g.len() >= 1,
    ensures
        picks_total(outs, g) == outs[g[0]].value + picks_total(outs, g.subrange(1, g.len() as int)),
    decreases g.len(),
{
    let rest = g.subrange(1, g.len() as int);
    if g.len() > 1 {
        lemma_picks_front(outs, g.drop_last());
        assert(g.drop_last().subrange(1, g.len() - 1) =~= rest.drop_last());
        assert(rest.last() == g.last());
        assert(picks_total(outs, rest) == picks_total(outs, rest.drop_last()) + outs[rest.last()].value);
        assert(g.drop_last()[0] == g[0]);
        assert(picks_total(outs, g) == picks_total(outs, g.drop_last()) + outs[g.last()].value);
        assert(picks_total(outs, g.drop_last()) == outs[g[0]].value + picks_total(
            outs,
            rest.drop_last(),
        ));
    } else {
        assert(g.drop_last().len() == 0);
        assert(rest.len() == 0);
        assert(g.last() == g[0]);
        assert(picks_total(outs, g) == picks_total(outs, g.drop_last()) + outs[g.last()].value);
        assert(picks_total(outs, g.drop_last()) == 0);
        assert(picks_total(outs, rest) == 0);
    }
}

/// Any set of unspent outputs that avoids the first `p` greedy picks is
/// worth no more than as many greedy picks that follow them.
proof fn lemma_greedy_bound(outs: Seq<OutputData>, g: Seq<int>, p: int, t: Seq<bool>)
    requires
        is_greedy(outs, g),
        within_unspent(outs, t),
        0 <= p,
        p + mask_count(t) <= g.len(),
        forall|a: int| 0 <= a < p ==> !t[#[trigger] g[a]],
    ensures
        mask_total(outs, t) <= picks_total(outs, g.subrange(p, p + mask_count(t))),
    decreases mask_count(t),
{
    lemma_mask_basics(outs, t);
    let c = mask_count(t);
    if c == 0 {
        assert(g.subrange(p, p).len() == 0);
    } else {
        let gp = g[p];
        let x: int = if t[gp] {
            gp
        } else {
            let i = choose|i: int| 0 <= i < t.len() && t[i];
            assert(!g.subrange(0, p).contains(i)) by {
                if g.subrange(0, p).contains(i) {
                    let a = choose|a: int| 0 <= a < p && g.subrange(0, p)[a] == i;
                    assert(g[a] == i);
                }
            }
            i
        };
        assert(outs[x].value <= outs[gp].value);
        let u = t.update(x, false);
        lemma_mask_clear(outs, t, x);
        assert forall|a: int| 0 <= a < p + 1 implies !u[#[trigger] g[a]] by {
            if a < p {
                assert(!t[g[a]]);
            }
        }
        lemma_greedy_bound(outs, g, p + 1, u);
        let s = g.subrange(p, p + c);
        lemma_picks_front(outs, s);
        assert(s.subrange(1, c) =~= g.subrange(p + 1, p + 1 + mask_count(u)));
    }
}

/// No set of fewer outputs than `g` lists, `g` being greedy, is worth more
/// than the first as many greedy picks; a greedy list that exhausts the
/// unspent outputs bounds every set.
pub proof fn lemma_greedy_dominates(outs: Seq<OutputData>, g: Seq<int>, t: Seq<bool>)
    requires
        is_greedy(outs, g),
        within_unspent(outs, t),
        mask_count(t) <= g.len(),
    ensures
        mask_total(outs, t) <= picks_total(outs, g.subrange(0, mask_count(t))),
{
    lemma_greedy_bound(outs, g, 0, t);
}

pub proof fn lemma_unspent_count_bound(outs: Seq<OutputData>, t: Seq<bool>)
    requires
        within_unspent(outs, t),
    ensures
        mask_count(t) <= mask_count(unspent_mask(outs)),
{
    lemma_mask_count_sub(t, unspent_mask(outs));
}

pub proof fn lemma_clear_step(outs: Seq<OutputData>, m: Seq<bool>, i: int)
    requires
        0 <= i < m.len(),
        m[i],
    ensures
        mask_total(outs, m.update(i, false)) == mask_total(outs, m) - outs[i].value,
        mask_count(m.update(i, false)) == mask_count(m) - 1,
        mask_total(outs, m.update(i, false)) >= 0,
        mask_count(m.update(i, false)) >= 0,
{
    lemma_mask_clear(outs, m, i);
    lemma_mask_basics(outs, m.update(i, false));
}

pub proof fn lemma_unspent_mask_sum(outs: Seq<OutputData>)
    ensures
        mask_total(outs, unspent_mask(outs)) == unspent_total(outs),
        mask_count(unspent_mask(outs)) >= 0,
{
    lemma_unspent_mask_total(outs);
    lemma_mask_basics(outs, unspent_mask(outs));
}

/// The outputs a mask marks pay `amount` and the fee of a payment with
/// that many inputs.
pub open spec fn pays(outs: Seq<OutputData>, t: Seq<bool>, amount: int, base_fee: int) -> bool {
    let fee = fee_for(mask_count(t), PAYMENT_OUTPUTS as int, base_fee);
    mask_count(t) >= 1 && fee <= u64::MAX && mask_total(outs, t) >= amount + fee
}

/// The first `m` greedy picks pay `amount` and their fee.
pub open spec fn prefix_pays(outs: Seq<OutputData>, g: Seq<int>, m: int, amount: int, base_fee: int) -> bool {
    let fee = fee_for(m, PAYMENT_OUTPUTS as int, base_fee);
    fee <= u64::MAX && picks_total(outs, g.subrange(0, m)) >= amount + fee
}

/// Ids of the outputs at the listed positions.
pub open spec fn picks_ids(outs: Seq<OutputData>, g: Seq<int>) -> Seq<u64> {
    Seq::new(g.len(), |j: int| outs[g[j]].id)
}

/// `sel` spends the greedy picks `g`, which pay `amount` and their fee,
/// while no set of fewer unspent outputs pays amount and its own fee.
pub open spec fn minimal_selection(outs: Seq<OutputData>, amount: int, base_fee: int, g: Seq<int>, sel: Selection) -> bool {
    &&& is_greedy(outs, g)
    &&& g.len() >= 1
    &&& prefix_pays(outs, g, g.len() as int, amount, base_fee)
    &&& picks_total(outs, g) <= u64::MAX
    &&& sel.inputs@ == picks_ids(outs, g)
    &&& sel.strategy == (Strategy {
        selection_strategy_is_use_all: false,
        total: picks_total(outs, g) as u64,
        fee: fee_for(g.len() as int, PAYMENT_OUTPUTS as int, base_fee) as u64,
    })
    &&& forall|t: Seq<bool>|
        within_unspent(outs, t) && mask_count(t) < g.len() ==> !#[trigger] pays(outs, t, amount, base_fee)
}

/// Some set of unspent outputs pays `amount` and its fee.
pub open spec fn some_set_pays(outs: Seq<OutputData>, amount: int, base_fee: int) -> bool {
    exists|t: Seq<bool>| within_unspent(outs, t) && #[trigger] pays(outs, t, amount, base_fee)
}

proof fn lemma_fewer_do_not_pay(outs: Seq<OutputData>, g: Seq<int>, amount: int, base_fee: int, bound: int)
    requires
        is_greedy(outs, g),
        bound <= g.len(),
        forall|m: int| 1 <= m <= g.len() ==> !#[trigger] prefix_pays(outs, g, m, amount, base_fee),
    ensures
        forall|t: Seq<bool>|
            within_unspent(outs, t) && mask_count(t) <= bound ==> !#[trigger] pays(outs, t, amount, base_fee),
{
    assert forall|t: Seq<bool>| within_unspent(outs, t) && mask_count(t) <= bound implies !#[trigger] pays(
        outs,
        t,
        amount,
        base_fee,
    ) by {
        if mask_count(t) >= 1 {
            lemma_greedy_dominates(outs, g, t);
            assert(!prefix_pays(outs, g, mask_count(t), amount, base_fee));
        }
    }
}

/// `a` marks exactly the unspent outputs not yet picked.
pub open spec fn avail_ok(outs: Seq<OutputData>, g: Seq<int>, a: Seq<bool>) -> bool {
    a.len() == outs.len() && forall|k: int| 0 <= k < a.len() ==> #[trigger] a[k] == (spendable(outs[k]) && !g.contains(k))
}

proof fn lemma_pick_step(outs: Seq<OutputData>, g: Seq<int>, a: Seq<bool>, b: int, amount: int, base_fee: int)
    requires
        avail_ok(outs, g, a),
        is_greedy(outs, g),
        0 <= b < a.len(),
        a[b],
        forall|x: int| 0 <= x < a.len() && a[x] ==> outs[x].value <= outs[b].value,
        forall|m: int| 1 <= m <= g.len() ==> !#[trigger] prefix_pays(outs, g, m, amount, base_fee),
    ensures
        avail_ok(outs, g.push(b), a.update(b, false)),
        is_greedy(outs, g.push(b)),
        g.push(b).drop_last() == g,
        forall|m: int| 1 <= m <= g.len() ==> !#[trigger] prefix_pays(outs, g.push(b), m, amount, base_fee),
        g.push(b).subrange(0, (g.len() + 1) as int) == g.push(b),
{
    let h = g.push(b);
    let u = a.update(b, false);
    assert(h.drop_last() =~= g);
    assert(h.subrange(0, (g.len() + 1) as int) =~= h);
    assert(!g.contains(b));
    assert forall|k: int| 0 <= k < u.len() implies #[trigger] u[k] == (spendable(outs[k]) && !h.contains(k)) by {
        if k == b {
            assert(h[g.len() as int] == k);
        } else {
            assert(u[k] == a[k]);
            if h.contains(k) {
                let i = choose|i: int| 0 <= i < h.len() && h[i] == k;
                assert(i < g.len());
                assert(g[i] == k);
            }
            if g.contains(k) {
                let i = choose|i: int| 0 <= i < g.len() && g[i] == k;
                assert(h[i] == k);
            }
        }
    }
    assert forall|j: int| 0 <= j < h.len() implies 0 <= #[trigger] h[j] < outs.len() && spendable(outs[h[j]]) by {
        if j < g.len() {
            assert(h[j] == g[j]);
        }
    }
    assert forall|x: int, y: int| 0 <= x < y < h.len() implies h[x] != h[y] by {
        assert(h[x] == g[x]);
        if y == g.len() {
            assert(g.contains(g[x]));
        } else {
            assert(h[y] == g[y]);
        }
    }
    assert forall|j: int, x: int|
        0 <= j < h.len() && 0 <= x < outs.len() && spendable(outs[x]) && !h.subrange(0, j).contains(x)
            implies #[trigger] outs[x].value <= outs[#[trigger] h[j]].value by {
        if j < g.len() {
            assert(h.subrange(0, j) =~= g.subrange(0, j));
            assert(h[j] == g[j]);
        } else {
            assert(h.subrange(0, j) =~= g);
            assert(a[x]);
        }
    }
    assert forall|m: int| 1 <= m <= g.len() implies !#[trigger] prefix_pays(outs, h, m, amount, base_fee) by {
        assert(h.subrange(0, m) =~= g.subrange(0, m));
        assert(!prefix_pays(outs, g, m, amount, base_fee));
    }
}

impl OutputStore {
    /// The smallest-first policy: takes unspent outputs largest first and
    /// stops at the first count that pays the amount and its fee, which is
    /// the least count that any set of unspent outputs needs. `None`
    /// exactly where no set of unspent outputs pays.
    #[verifier::spinoff_prover]
    #[verifier::rlimit(60)]
    pub fn smallest_first(&self, amount: u64, base_fee: u64) -> (r: Option<Selection>)
        requires
            unspent_total(self.outputs@) <= u64::MAX,
        ensures
            r is Some ==> exists|order: Seq<int>|
                minimal_selection(self.outputs@, amount as int, base_fee as int, order, r.unwrap()),
            r is None ==> !some_set_pays(self.outputs@, amount as int, base_fee as int),
    {
        let ghost outs = self.outputs@;
        let n = self.outputs.len();
        let mut avail: Vec<bool> = Vec::new();
        let mut i: usize = 0;
        while i < n
            invariant
                outs == self.outputs@,
                n == outs.len(),
                i <= n,
                avail@ == unspent_mask(outs).subrange(0, i as int),
            decreases n - i,
        {
            avail.push(self.outputs[i].status == OutputStatus::Unspent);
            proof {
                assert(avail@ =~= unspent_mask(outs).subrange(0, i + 1));
            }
            i = i + 1;
        }
        proof {
            assert(avail@ =~= unspent_mask(outs));
            lemma_unspent_mask_sum(outs);
        }
        let mut picks: Vec<usize> = Vec::new();
        let ghost mut g: Seq<int> = Seq::empty();
        let mut sum: u64 = 0;
        loop
            invariant
                outs == self.outputs@,
                n == outs.len(),
                unspent_total(outs) <= u64::MAX,
                mask_total(outs, unspent_mask(outs)) == unspent_total(outs),
                avail@.len() == n,
                avail_ok(outs, g, avail@),
                is_greedy(outs, g),
                picks@.len() == g.len(),
                forall|j: int| 0 <= j < g.len() ==> picks@[j] as int == g[j],
                sum == picks_total(outs, g),
                sum + mask_total(outs, avail@) == unspent_total(outs),
                mask_count(avail@) + g.len() == mask_count(unspent_mask(outs)),
                mask_count(avail@) >= 0,
                forall|m: int| 1 <= m <= g.len() ==> !#[trigger] prefix_pays(outs, g, m, amount as int, base_fee as int),
            decreases mask_count(avail@),
        {
            let mut best: Option<usize> = None;
            let mut k: usize = 0;
            while k < n
                invariant
                    n == avail@.len(),
                    outs == self.outputs@,
                    n == outs.len(),
                    k <= n,
                    match best {
                        Some(b) => b < n && avail@[b as int] && forall|x: int|
                            0 <= x < k && avail@[x] ==> outs[x].value <= outs[b as int].value,
                        None => forall|x: int| 0 <= x < k ==> !avail@[x],
                    },
                decreases n - k,
            {
                if avail[k] {
                    match best {
                        Some(b) => {
                            if self.outputs[k].value > self.outputs[b].value {
                                best = Some(k);
                            }
                        },
                        None => {
                            best = Some(k);
                        },
                    }
                }
                k = k + 1;
            }
            let b = match best {
                None => {
                    proof {
                        lemma_mask_basics(outs, avail@);
                        assert forall|t: Seq<bool>| within_unspent(outs, t) implies !#[trigger] pays(
                            outs,
                            t,
                            amount as int,
                            base_fee as int,
                        ) by {
                            lemma_unspent_count_bound(outs, t);
                            lemma_fewer_do_not_pay(outs, g, amount as int, base_fee as int, g.len() as int);
                        }
                    }
                    return None;
                },
                Some(b) => b,
            };
            proof {
                lemma_clear_step(outs, avail@, b as int);
            }
            let ghost old_g = g;
            let ghost old_avail = avail@;
            let v = self.outputs[b].value;
            sum = sum + v;
            picks.push(b);
            avail.set(b, false);
            proof {
                lemma_pick_step(outs, old_g, old_avail, b as int, amount as int, base_fee as int);
                g = g.push(b as int);
                assert(picks_total(outs, g) == picks_total(outs, old_g) + outs[b as int].value);
            }
            let count = picks.len() as u64;
            if let Some(fee) = fee_of(count, PAYMENT_OUTPUTS, base_fee) {
                if sum as u128 >= amount as u128 + fee as u128 {
                    let mut ids: Vec<u64> = Vec::new();
                    let mut j: usize = 0;
                    while j < picks.len()
                        invariant
                            outs == self.outputs@,
                            n == outs.len(),
                            picks@.len() == g.len(),
                            forall|q: int| 0 <= q < g.len() ==> picks@[q] as int == g[q],
                            is_greedy(outs, g),
                            j <= picks@.len(),
                            ids@ == picks_ids(outs, g).subrange(0, j as int),
                        decreases picks@.len() - j,
                    {
                        proof {
                            assert(picks@[j as int] as int == g[j as int]);
                        }
                        ids.push(self.outputs[picks[j]].id);
                        proof {
                            assert(ids@ =~= picks_ids(outs, g).subrange(0, j + 1));
                        }
                        j = j + 1;
                    }
                    proof {
                        assert(ids@ =~= picks_ids(outs, g));
                        lemma_fewer_do_not_pay(outs, old_g, amount as int, base_fee as int, old_g.len() as int);
                        assert forall|t: Seq<bool>| within_unspent(outs, t) && mask_count(t) < g.len() implies !#[trigger] pays(
                            outs,
                            t,
                            amount as int,
                            base_fee as int,
                        ) by {
                            if mask_count(t) >= 1 {
                                lemma_greedy_dominates(outs, old_g, t);
                                assert(old_g.subrange(0, mask_count(t)) =~= g.subrange(0, mask_count(t)));
                                assert(!prefix_pays(outs, g, mask_count(t), amount as int, base_fee as int));
                            }
                        }
                    }
                    let sel = Selection {
                        strategy: Strategy { selection_strategy_is_use_all: false, total: sum, fee },
                        inputs: ids,
                    };
                    proof {
                        assert(prefix_pays(outs, g, g.len() as int, amount as int, base_fee as int));
                        assert(minimal_selection(self.outputs@, amount as int, base_fee as int, g, sel));
                    }
                    let res = Some(sel);
                    proof {
                        assert(res.unwrap() == sel);
                        assert(exists|order: Seq<int>|
                            minimal_selection(self.outputs@, amount as int, base_fee as int, order, res.unwrap()));
                    }
                    return res;
                }
            }
        }
    }
}

} // verus!
