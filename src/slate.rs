use vstd::prelude::*;
use crate::error::WalletError;

verus! {

/// Participants of a slate: sender and receiver.
pub const SLATE_PARTICIPANTS: u8 = 2;

/// What one party adds to a slate: the ids of the outputs it spends, the
/// values of the outputs it creates, and whether it signed.
#[derive(Clone, Debug)]
pub struct Contribution {
    pub inputs: Vec<u64>,
    pub outputs: Vec<u64>,
    pub signed: bool,
}

/// The proposal that sender and receiver pass back and forth while they
/// build one transaction.
#[derive(Clone, Debug)]
pub struct Slate {
    pub tx_id: u32,
    pub amount: u64,
    pub fee: u64,
    pub num_participants: u8,
    pub sender: Contribution,
    pub receiver: Option<Contribution>,
    pub sender_message: Option<String>,
    pub receiver_message: Option<String>,
}

/// A fully combined transaction, ready to post.
#[derive(Clone, Debug)]
pub struct Transaction {
    pub inputs: Vec<u64>,
    pub outputs: Vec<u64>,
}

/// A slate the receiver may sign: two parties, the sender signed, nothing
/// from the receiver yet, a positive amount.
pub open spec fn receivable(s: Slate) -> bool {
    &&& s.num_participants == SLATE_PARTICIPANTS
    &&& s.sender.signed
    &&& s.receiver is None
    &&& s.amount > 0
}

pub open spec fn same_contribution(a: Contribution, b: Contribution) -> bool {
    a.inputs@ == b.inputs@ && a.outputs@ == b.outputs@ && a.signed == b.signed
}

/// `r` is `s` with the receiver's output of the amount and its signature
/// added, and nothing else changed.
pub open spec fn received(s: Slate, r: Slate, message: Option<String>) -> bool {
    &&& r.tx_id == s.tx_id
    &&& r.amount == s.amount
    &&& r.fee == s.fee
    &&& r.num_participants == s.num_participants
    &&& same_contribution(r.sender, s.sender)
    &&& r.sender_message == s.sender_message
    &&& r.receiver_message == message
    &&& r.receiver matches Some(c) && c.inputs@ == Seq::<u64>::empty() && c.outputs@ == seq![
        s.amount,
    ] && c.signed
}

/// Every participant's contribution is present and signed.
pub open spec fn complete(s: Slate) -> bool {
    s.receiver matches Some(c) && c.signed
}

/// `t` joins the sender's and the receiver's inputs and outputs.
pub open spec fn combined(s: Slate, t: Transaction) -> bool {
    s.receiver matches Some(c) && t.inputs@ == s.sender.inputs@ + c.inputs@ && t.outputs@
        == s.sender.outputs@ + c.outputs@
}

/// Copies a list of ids or values.
pub fn copy_u64s(v: &Vec<u64>) -> (r: Vec<u64>)
    ensures
        r@ == v@,
{
    let mut r: Vec<u64> = Vec::new();
    let mut i: usize = 0;
    while i < v.len()
        invariant
            i <= v@.len(),
            r@ == v@.subrange(0, i as int),
        decreases v@.len() - i,
    {
        r.push(v[i]);
        proof {
            assert(v@.subrange(0, i + 1) =~= v@.subrange(0, i as int).push(v@[i as int]));
        }
        i = i + 1;
    }
    proof {
        assert(v@.subrange(0, i as int) =~= v@);
    }
    r
}

/// Joins two lists.
pub fn join_u64s(a: &Vec<u64>, b: &Vec<u64>) -> (r: Vec<u64>)
    ensures
        r@ == a@ + b@,
{
    let mut r = copy_u64s(a);
    let mut i: usize = 0;
    while i < b.len()
        invariant
            i <= b@.len(),
            r@ == a@ + b@.subrange(0, i as int),
        decreases b@.len() - i,
    {
        r.push(b[i]);
        proof {
            assert(a@ + b@.subrange(0, i + 1) =~= (a@ + b@.subrange(0, i as int)).push(b@[i as int]));
        }
        i = i + 1;
    }
    proof {
        assert(b@.subrange(0, i as int) =~= b@);
    }
    r
}

pub fn copy_contribution(c: &Contribution) -> (r: Contribution)
    ensures
        same_contribution(r, *c),
{
    Contribution { inputs: copy_u64s(&c.inputs), outputs: copy_u64s(&c.outputs), signed: c.signed }
}

fn copy_message(m: &Option<String>) -> (r: Option<String>)
    ensures
        r == *m,
{
    match m {
        Some(s) => {
            let t = s.clone();
            proof {
                assert(t@ == s@);
                assert(t == *s);
            }
            Some(t)
        },
        None => None,
    }
}

/// The receiver's step: checks the slate before anything else, then adds
/// an output of the amount with the receiver's signature. `InvalidSlate`
/// exactly where the slate is not receivable.
pub fn receive(slate: &Slate, message: Option<String>) -> (r: Result<Slate, WalletError>)
    ensures
        !receivable(*slate) ==> r == Err::<Slate, WalletError>(WalletError::InvalidSlate),
        receivable(*slate) ==> (r matches Ok(s) && received(*slate, s, message)),
{
    if slate.num_participants != SLATE_PARTICIPANTS || !slate.sender.signed || slate.receiver.is_some()
        || slate.amount == 0 {
        return Err(WalletError::InvalidSlate);
    }
    let mut outputs: Vec<u64> = Vec::new();
    outputs.push(slate.amount);
    let contribution = Contribution { inputs: Vec::new(), outputs, signed: true };
    proof {
        assert(contribution.outputs@ =~= seq![slate.amount]);
    }
    Ok(
        Slate {
            tx_id: slate.tx_id,
            amount: slate.amount,
            fee: slate.fee,
            num_participants: slate.num_participants,
            sender: copy_contribution(&slate.sender),
            receiver: Some(contribution),
            sender_message: copy_message(&slate.sender_message),
            receiver_message: message,
        },
    )
}

/// Combines the contributions into one transaction. The sender's
/// signature and the participant count are checked first (`InvalidSlate`);
/// a missing or unsigned receiver part gives `IncompleteSlate`.
pub fn finalize(slate: &Slate) -> (r: Result<Transaction, WalletError>)
    ensures
        !(slate.sender.signed && slate.num_participants == SLATE_PARTICIPANTS) ==> r == Err::<
            Transaction,
            WalletError,
        >(WalletError::InvalidSlate),
        slate.sender.signed && slate.num_participants == SLATE_PARTICIPANTS && !complete(*slate) ==> r
            == Err::<Transaction, WalletError>(WalletError::IncompleteSlate),
        slate.sender.signed && slate.num_participants == SLATE_PARTICIPANTS && complete(*slate) ==> (r matches Ok(
            t,
        ) && combined(*slate, t)),
{
    if !slate.sender.signed || slate.num_participants != SLATE_PARTICIPANTS {
        return Err(WalletError::InvalidSlate);
    }
    match &slate.receiver {
        None => Err(WalletError::IncompleteSlate),
        Some(c) => {
            if !c.signed {
                Err(WalletError::IncompleteSlate)
            } else {
                Ok(
                    Transaction {
                        inputs: join_u64s(&slate.sender.inputs, &c.inputs),
                        outputs: join_u64s(&slate.sender.outputs, &c.outputs),
                    },
                )
            }
        },
    }
}

/// A slate that was received is complete, so it finalizes; and the
/// transaction it then yields holds exactly the sender's inputs and
/// outputs followed by the receiver's: nothing lost, nothing twice.
pub proof fn lemma_round_trip(s: Slate, message: Option<String>, r: Slate, t: Transaction)
    requires
        receivable(s),
        received(s, r, message),
        combined(r, t),
    ensures
        r.sender.signed && r.num_participants == SLATE_PARTICIPANTS && complete(r),
        t.inputs@ == s.sender.inputs@,
        t.outputs@ == s.sender.outputs@.push(s.amount),
        t.inputs@.len() + t.outputs@.len() == s.sender.inputs@.len() + s.sender.outputs@.len() + 1,
{
    let c = r.receiver.unwrap();
    assert(t.inputs@ =~= s.sender.inputs@);
    assert(t.outputs@ =~= s.sender.outputs@.push(s.amount));
}

} // verus!
