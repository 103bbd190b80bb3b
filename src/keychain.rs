use vstd::prelude::*;
use crate::config::same_text;
use crate::error::WalletError;

verus! {

/// Name of the account an operation addresses unless it names another.
pub const DEFAULT_ACCOUNT: &'static str = "default";

/// A named derivation path recorded in the wallet.
#[derive(Clone, Debug)]
pub struct AccountPath {
    pub label: String,
    pub path_index: u32,
}

pub open spec fn account_named(accounts: Seq<AccountPath>, name: Seq<char>, i: int) -> bool {
    0 <= i < accounts.len() && accounts[i].label@ == name && forall|j: int|
        0 <= j < i ==> accounts[j].label@ != name
}

/// The derivation path of the account called `name`: the first one
/// recorded under that name; `InvalidInput` where none is.
pub fn derive_account(accounts: &Vec<AccountPath>, name: &str) -> (r: Result<u32, WalletError>)
    ensures
        match r {
            Ok(p) => exists|i: int| account_named(accounts@, name@, i) && accounts@[i].path_index == p,
            Err(e) => e == WalletError::InvalidInput && forall|i: int|
                0 <= i < accounts@.len() ==> accounts@[i].label@ != name@,
        },
{
    let mut i: usize = 0;
    while i < accounts.len()
        invariant
            i <= accounts@.len(),
            forall|j: int| 0 <= j < i ==> accounts@[j].label@ != name@,
        decreases accounts@.len() - i,
    {
        if same_text(accounts[i].label.as_str(), name) {
            proof {
                assert(account_named(accounts@, name@, i as int));
            }
            return Ok(accounts[i].path_index);
        }
        i = i + 1;
    }
    Err(WalletError::InvalidInput)
}

} // verus!
