use grin_wallet_core::config::{chain_type_from_name, get_wallet_config, ChainType};
use grin_wallet_core::error::WalletError;
use grin_wallet_core::keychain::{derive_account, AccountPath, DEFAULT_ACCOUNT};
use grin_wallet_core::outputs::{ChainOutput, OutputData, OutputStatus, OutputStore};
use grin_wallet_core::scan::{chain_reports, reconcile_output};
use grin_wallet_core::select::{combine_strategies, fee_of, Strategy};
use grin_wallet_core::slate::{finalize, receive, Contribution, Slate};
use grin_wallet_core::wallet::{TxDirection, TxLogEntry, Wallet};

fn unspent(id: u64, value: u64) -> OutputData {
    OutputData { id, value, status: OutputStatus::Unspent, tx_id: None }
}

fn wallet_with(values: &[u64]) -> Wallet {
    let mut w = Wallet::new();
    for (k, v) in values.iter().enumerate() {
        w.store.add(unspent(k as u64 + 1, *v)).unwrap();
    }
    w
}

fn status_of(w: &Wallet, id: u64) -> OutputStatus {
    let i = w.store.find(id).unwrap();
    w.store.outputs[i].status
}

#[test]
fn chain_type_names() {
    assert_eq!(chain_type_from_name("floonet"), ChainType::Floonet);
    assert_eq!(chain_type_from_name("usernet"), ChainType::UserTesting);
    assert_eq!(chain_type_from_name("mainnet"), ChainType::Mainnet);
    assert_eq!(chain_type_from_name("anything"), ChainType::Mainnet);
}

#[test]
fn wallet_config_paths() {
    let c = get_wallet_config("/home/w", "floonet", "http://127.0.0.1:13413");
    assert_eq!(c.chain_type, ChainType::Floonet);
    assert_eq!(c.data_file_dir, "/home/w/wallet_data");
    assert_eq!(c.node_api_secret_path, "/home/w/.api_secret");
    assert_eq!(c.api_secret_path, ".api_secret");
    assert_eq!(c.check_node_api_http_addr, "http://127.0.0.1:13413");
    assert_eq!(c.api_listen_interface, "127.0.0.1");
    assert_eq!(c.api_listen_port, 13415);
    assert_eq!(c.owner_api_listen_port, 3420);
}

#[test]
fn fee_schedule() {
    assert_eq!(fee_of(1, 2, 1000), Some(10_000));
    assert_eq!(fee_of(2, 2, 1000), Some(11_000));
    assert_eq!(fee_of(0, 0, 0), Some(0));
    assert_eq!(fee_of(u64::MAX, 2, 2), None);
}

#[test]
fn strategies_scenario() {
    let w = wallet_with(&[60_000, 900_000]);
    let v = w.store.tx_strategies(100_000, 1000).unwrap();
    assert_eq!(v.len(), 2);
    assert_eq!(v[0], Strategy { selection_strategy_is_use_all: false, total: 900_000, fee: 10_000 });
    assert_eq!(v[1], Strategy { selection_strategy_is_use_all: true, total: 960_000, fee: 11_000 });
    assert!(v[1].fee > v[0].fee);
}

#[test]
fn strategies_insufficient() {
    let w = wallet_with(&[60_000, 30_000]);
    assert_eq!(w.store.tx_strategies(100_000, 1000).unwrap_err(), WalletError::InsufficientFunds);
    let empty = Wallet::new();
    assert_eq!(empty.store.tx_strategies(1, 0).unwrap_err(), WalletError::InsufficientFunds);
}

#[test]
fn smallest_takes_fewest_outputs() {
    let w = wallet_with(&[60_000, 70_000]);
    let sel = w.store.estimate(100_000, false, 1000).unwrap();
    assert_eq!(sel.strategy, Strategy { selection_strategy_is_use_all: false, total: 130_000, fee: 11_000 });
    assert_eq!(sel.inputs, vec![2, 1]);
}

#[test]
fn smallest_does_not_spend_more_than_needed() {
    let w = wallet_with(&[60, 60, 60]);
    let sel = w.store.estimate(100, false, 1).unwrap();
    assert_eq!(sel.inputs.len(), 2);
    assert_eq!(sel.strategy, Strategy { selection_strategy_is_use_all: false, total: 120, fee: 11 });
    let all = w.store.estimate(100, true, 1).unwrap();
    assert_eq!(all.strategy, Strategy { selection_strategy_is_use_all: true, total: 180, fee: 12 });
}

#[test]
fn smallest_prefers_one_large_output() {
    let w = wallet_with(&[10, 20, 500, 30]);
    let sel = w.store.estimate(100, false, 2).unwrap();
    assert_eq!(sel.inputs, vec![3]);
    assert_eq!(sel.strategy.total, 500);
    assert_eq!(sel.strategy.fee, 20);
    assert_eq!(w.store.estimate(1000, false, 2).unwrap_err(), WalletError::InsufficientFunds);
}

#[test]
fn combine_keeps_use_all_error() {
    let s = Strategy { selection_strategy_is_use_all: false, total: 5, fee: 1 };
    let a = Strategy { selection_strategy_is_use_all: true, total: 7, fee: 2 };
    assert_eq!(combine_strategies(Ok(s), Ok(a)).unwrap(), vec![s, a]);
    assert_eq!(combine_strategies(Err(WalletError::InsufficientFunds), Ok(a)).unwrap(), vec![a]);
    assert_eq!(
        combine_strategies(Ok(s), Err(WalletError::NodeUnreachable)).unwrap_err(),
        WalletError::NodeUnreachable
    );
}

#[test]
fn create_does_not_lock_and_lock_reserves_selection() {
    let mut w = wallet_with(&[60_000, 900_000]);
    let slate = w.create(100_000, false, 1000, Some("hi".to_string())).unwrap();
    assert_eq!(slate.tx_id, 0);
    assert_eq!(slate.fee, 10_000);
    assert_eq!(slate.sender.inputs, vec![2]);
    assert_eq!(slate.sender.outputs, vec![790_000]);
    assert_eq!(slate.sender_message, Some("hi".to_string()));
    assert_eq!(status_of(&w, 2), OutputStatus::Unspent);
    assert_eq!(w.txs.len(), 1);
    assert_eq!(w.next_tx_id, 1);
    w.lock(&slate).unwrap();
    assert_eq!(status_of(&w, 2), OutputStatus::Locked);
    assert_eq!(w.store.outputs[1].tx_id, Some(0));
    assert_eq!(status_of(&w, 1), OutputStatus::Unspent);
    // the locked output is no longer offered
    let again = w.store.estimate(10_000, true, 1000).unwrap();
    assert_eq!(again.inputs, vec![1]);
    assert_eq!(again.strategy.total, 60_000);
}

#[test]
fn create_errors() {
    let mut w = wallet_with(&[500]);
    assert_eq!(w.create(0, false, 1, None).unwrap_err(), WalletError::InvalidInput);
    assert_eq!(w.create(10_000, false, 1, None).unwrap_err(), WalletError::InsufficientFunds);
    assert_eq!(w.txs.len(), 0);
    w.next_tx_id = u32::MAX;
    assert_eq!(w.create(10, false, 1, None).unwrap_err(), WalletError::StorageError);
}

#[test]
fn create_and_lock_locks_all_selected() {
    let mut w = wallet_with(&[60_000, 70_000, 5]);
    let slate = w.create_and_lock(100_000, true, 1000, None).unwrap();
    assert_eq!(slate.sender.inputs, vec![1, 2, 3]);
    assert_eq!(slate.fee, 12_000);
    assert_eq!(slate.sender.outputs, vec![130_005 - 100_000 - 12_000]);
    for id in 1..=3 {
        assert_eq!(status_of(&w, id), OutputStatus::Locked);
    }
}

#[test]
fn second_lock_on_same_output_fails() {
    let mut w = wallet_with(&[900_000]);
    let a = w.create(100_000, false, 1000, None).unwrap();
    let b = w.create(200_000, false, 1000, None).unwrap();
    assert_eq!(a.sender.inputs, b.sender.inputs);
    assert!(w.lock(&a).is_ok());
    let before = w.store.outputs.clone();
    assert_eq!(w.lock(&b).unwrap_err(), WalletError::AlreadyLocked);
    assert_eq!(w.store.outputs, before);
    assert_eq!(w.store.outputs[0].tx_id, Some(a.tx_id));
}

#[test]
fn reserve_is_all_or_nothing() {
    let mut s = OutputStore::new();
    s.add(unspent(1, 10)).unwrap();
    s.add(unspent(2, 20)).unwrap();
    s.reserve(&vec![2], 7).unwrap();
    let before = s.outputs.clone();
    assert_eq!(s.reserve(&vec![1, 2], 8).unwrap_err(), WalletError::AlreadyLocked);
    assert_eq!(s.outputs, before);
    assert_eq!(s.reserve(&vec![1, 9], 8).unwrap_err(), WalletError::NotFound);
    assert_eq!(s.outputs, before);
    assert_eq!(s.add(unspent(1, 5)).unwrap_err(), WalletError::InvalidInput);
}

#[test]
fn lock_unknown_or_cancelled_transaction() {
    let mut w = wallet_with(&[900_000]);
    let slate = w.create(100_000, false, 1000, None).unwrap();
    let mut other = slate.clone();
    other.tx_id = 42;
    assert_eq!(w.lock(&other).unwrap_err(), WalletError::NotFound);
    w.cancel(slate.tx_id).unwrap();
    assert_eq!(w.lock(&slate).unwrap_err(), WalletError::InvalidSlate);
    w.txs[0].confirmed = true;
    assert_eq!(w.lock(&slate).unwrap_err(), WalletError::AlreadyConfirmed);
    assert_eq!(status_of(&w, 1), OutputStatus::Unspent);
}

#[test]
fn cancel_restores_and_is_idempotent() {
    let mut w = wallet_with(&[60_000, 900_000]);
    let slate = w.create_and_lock(100_000, true, 1000, None).unwrap();
    assert_eq!(status_of(&w, 1), OutputStatus::Locked);
    w.cancel(slate.tx_id).unwrap();
    assert_eq!(status_of(&w, 1), OutputStatus::Unspent);
    assert_eq!(status_of(&w, 2), OutputStatus::Unspent);
    assert!(w.txs[0].cancelled);
    let outs = w.store.outputs.clone();
    let txs = w.txs.clone();
    w.cancel(slate.tx_id).unwrap();
    assert_eq!(w.store.outputs, outs);
    assert_eq!(w.txs, txs);
}

#[test]
fn cancel_errors() {
    let mut w = wallet_with(&[900_000]);
    assert_eq!(w.cancel(3).unwrap_err(), WalletError::NotFound);
    let slate = w.create_and_lock(100_000, false, 1000, None).unwrap();
    w.txs[0].confirmed = true;
    assert_eq!(w.cancel(slate.tx_id).unwrap_err(), WalletError::AlreadyConfirmed);
    assert_eq!(status_of(&w, 1), OutputStatus::Locked);
}

#[test]
fn repost_decisions() {
    let mut w = Wallet::new();
    w.txs.push(TxLogEntry { direction: TxDirection::Sent, id: 0, amount: 5, fee: 1, confirmed: true, cancelled: false, has_stored_tx: true });
    w.txs.push(TxLogEntry { direction: TxDirection::Sent, id: 1, amount: 5, fee: 1, confirmed: false, cancelled: false, has_stored_tx: true });
    w.txs.push(TxLogEntry { direction: TxDirection::Sent, id: 2, amount: 5, fee: 1, confirmed: false, cancelled: false, has_stored_tx: false });
    w.next_tx_id = 3;
    assert!(!w.repost_action(0));
    assert!(w.repost_action(1));
    assert!(!w.repost_action(2));
    assert!(!w.repost_action(99));
    assert_eq!(w.tx_get(99).unwrap_err(), WalletError::NotFound);
    assert_eq!(w.tx_get(1).unwrap().id, 1);
}

fn sender_slate() -> Slate {
    Slate {
        tx_id: 4,
        amount: 100,
        fee: 10,
        num_participants: 2,
        sender: Contribution { inputs: vec![7, 8], outputs: vec![40], signed: true },
        receiver: None,
        sender_message: Some("from sender".to_string()),
        receiver_message: None,
    }
}

#[test]
fn finalize_without_receiver_is_incomplete() {
    let s = sender_slate();
    assert_eq!(finalize(&s).unwrap_err(), WalletError::IncompleteSlate);
    let mut unsigned = s.clone();
    unsigned.receiver = Some(Contribution { inputs: vec![], outputs: vec![100], signed: false });
    assert_eq!(finalize(&unsigned).unwrap_err(), WalletError::IncompleteSlate);
    let mut bad = s.clone();
    bad.sender.signed = false;
    assert_eq!(finalize(&bad).unwrap_err(), WalletError::InvalidSlate);
}

#[test]
fn receive_then_finalize_joins_contributions() {
    let s = sender_slate();
    let r = receive(&s, Some("thanks".to_string())).unwrap();
    assert_eq!(r.sender.inputs, vec![7, 8]);
    assert_eq!(r.receiver_message, Some("thanks".to_string()));
    assert_eq!(r.sender_message, Some("from sender".to_string()));
    let c = r.receiver.clone().unwrap();
    assert_eq!(c.outputs, vec![100]);
    assert!(c.inputs.is_empty());
    let t = finalize(&r).unwrap();
    assert_eq!(t.inputs, vec![7, 8]);
    assert_eq!(t.outputs, vec![40, 100]);
}

#[test]
fn receive_rejects_bad_slates() {
    let s = sender_slate();
    let r = receive(&s, None).unwrap();
    assert_eq!(receive(&r, None).unwrap_err(), WalletError::InvalidSlate);
    let mut three = s.clone();
    three.num_participants = 3;
    assert_eq!(receive(&three, None).unwrap_err(), WalletError::InvalidSlate);
    let mut zero = s.clone();
    zero.amount = 0;
    assert_eq!(receive(&zero, None).unwrap_err(), WalletError::InvalidSlate);
}

#[test]
fn sender_finalize_stores_transaction() {
    let mut w = wallet_with(&[900_000]);
    let slate = w.create_and_lock(100_000, false, 1000, None).unwrap();
    assert_eq!(w.finalize_tx(&slate).unwrap_err(), WalletError::IncompleteSlate);
    assert!(!w.txs[0].has_stored_tx);
    assert!(!w.repost_action(slate.tx_id));
    let back = receive(&slate, None).unwrap();
    let t = w.finalize_tx(&back).unwrap();
    assert_eq!(t.inputs, vec![1]);
    assert_eq!(t.outputs, vec![790_000, 100_000]);
    assert!(w.txs[0].has_stored_tx);
    assert!(w.repost_action(slate.tx_id));
    let mut stray = back.clone();
    stray.tx_id = 77;
    assert_eq!(w.finalize_tx(&stray).unwrap_err(), WalletError::NotFound);
}

#[test]
fn check_repair_twice_changes_nothing() {
    let mut w = wallet_with(&[10, 20, 30, 40]);
    w.store.reserve(&vec![4], 0).unwrap();
    let chain = vec![
        ChainOutput { id: 1, value: 10, spent: true },
        ChainOutput { id: 2, value: 20, spent: false },
        ChainOutput { id: 4, value: 40, spent: false },
        ChainOutput { id: 7, value: 70, spent: false },
    ];
    w.check_repair(&chain);
    assert_eq!(status_of(&w, 7), OutputStatus::Unspent);
    assert_eq!(status_of(&w, 1), OutputStatus::Spent);
    assert_eq!(status_of(&w, 2), OutputStatus::Unspent);
    assert_eq!(status_of(&w, 3), OutputStatus::Unconfirmed);
    assert_eq!(status_of(&w, 4), OutputStatus::Locked);
    assert_eq!(w.store.outputs.len(), 5);
    let outs = w.store.outputs.clone();
    let txs = w.txs.clone();
    w.check_repair(&chain);
    assert_eq!(w.store.outputs, outs);
    assert_eq!(w.txs, txs);
}

#[test]
fn restore_adds_found_outputs() {
    let mut w = wallet_with(&[10]);
    let chain = vec![
        ChainOutput { id: 1, value: 10, spent: false },
        ChainOutput { id: 5, value: 50, spent: false },
        ChainOutput { id: 6, value: 60, spent: true },
    ];
    w.restore(&chain);
    assert_eq!(w.store.outputs.len(), 3);
    assert_eq!(status_of(&w, 5), OutputStatus::Unspent);
    assert_eq!(status_of(&w, 6), OutputStatus::Spent);
    let outs = w.store.outputs.clone();
    w.restore(&chain);
    assert_eq!(w.store.outputs, outs);
}

#[test]
fn check_repair_fills_an_empty_store() {
    let mut w = Wallet::new();
    let chain = vec![ChainOutput { id: 3, value: 30, spent: false }];
    w.check_repair(&chain);
    assert_eq!(w.store.outputs.len(), 1);
    assert_eq!(status_of(&w, 3), OutputStatus::Unspent);
    assert_eq!(w.store.outputs[0].value, 30);
}

#[test]
fn reconcile_single_output() {
    let chain = vec![ChainOutput { id: 3, value: 1, spent: false }];
    assert!(chain_reports(&chain, 3, false));
    assert!(!chain_reports(&chain, 3, true));
    let o = OutputData { id: 3, value: 1, status: OutputStatus::Cancelled, tx_id: None };
    assert_eq!(reconcile_output(o, &chain).status, OutputStatus::Unspent);
    let gone = OutputData { id: 9, value: 1, status: OutputStatus::Unspent, tx_id: None };
    assert_eq!(reconcile_output(gone, &chain).status, OutputStatus::Unconfirmed);
    let spent_gone = OutputData { id: 9, value: 1, status: OutputStatus::Spent, tx_id: None };
    assert_eq!(reconcile_output(spent_gone, &chain).status, OutputStatus::Unconfirmed);
    let held = OutputData { id: 9, value: 1, status: OutputStatus::Locked, tx_id: Some(2) };
    assert_eq!(reconcile_output(held, &chain).status, OutputStatus::Locked);
}

#[test]
fn balance_summary() {
    let mut w = wallet_with(&[10, 20, 30]);
    w.store.reserve(&vec![2], 0).unwrap();
    w.store.outputs[2].status = OutputStatus::Unconfirmed;
    let s = w.store.summary();
    assert_eq!(s.spendable, 10);
    assert_eq!(s.locked, 20);
    assert_eq!(s.awaiting_confirmation, 30);
    assert_eq!(s.total, 60);
}

#[test]
fn account_lookup() {
    let accounts = vec![
        AccountPath { label: DEFAULT_ACCOUNT.to_string(), path_index: 0 },
        AccountPath { label: "savings".to_string(), path_index: 3 },
        AccountPath { label: "savings".to_string(), path_index: 9 },
    ];
    assert_eq!(derive_account(&accounts, "default"), Ok(0));
    assert_eq!(derive_account(&accounts, "savings"), Ok(3));
    assert_eq!(derive_account(&accounts, "missing"), Err(WalletError::InvalidInput));
    assert_eq!(derive_account(&[].to_vec(), "default"), Err(WalletError::InvalidInput));
}

#[test]
fn check_repair_confirms_spent_transactions() {
    let mut w = wallet_with(&[60_000, 900_000]);
    let slate = w.create_and_lock(100_000, false, 1000, None).unwrap();
    let chain = vec![
        ChainOutput { id: 1, value: 60_000, spent: false },
        ChainOutput { id: 2, value: 900_000, spent: true },
    ];
    w.check_repair(&chain);
    assert!(w.txs[0].confirmed);
    assert_eq!(status_of(&w, 2), OutputStatus::Spent);
    assert_eq!(status_of(&w, 1), OutputStatus::Unspent);
    assert_eq!(w.cancel(slate.tx_id).unwrap_err(), WalletError::AlreadyConfirmed);
    let outs = w.store.outputs.clone();
    let txs = w.txs.clone();
    w.check_repair(&chain);
    assert_eq!(w.store.outputs, outs);
    assert_eq!(w.txs, txs);
}

#[test]
fn finalize_rejects_inputs_not_locked_for_the_transaction() {
    let mut w = wallet_with(&[900_000]);
    let slate = w.create(100_000, false, 1000, None).unwrap();
    let back = receive(&slate, None).unwrap();
    assert_eq!(w.finalize_tx(&back).unwrap_err(), WalletError::InvalidSlate);
    assert!(!w.txs[0].has_stored_tx);
    w.lock(&slate).unwrap();
    let mut extra = back.clone();
    extra.receiver.as_mut().unwrap().inputs.push(1);
    assert_eq!(w.finalize_tx(&extra).unwrap_err(), WalletError::InvalidSlate);
    let mut foreign = back.clone();
    foreign.sender.inputs = vec![55];
    assert_eq!(w.finalize_tx(&foreign).unwrap_err(), WalletError::InvalidSlate);
    let mut dearer = back.clone();
    dearer.fee = 1;
    assert_eq!(w.finalize_tx(&dearer).unwrap_err(), WalletError::InvalidSlate);
    assert!(w.finalize_tx(&back).is_ok());
}

#[test]
fn receiver_records_output_and_entry() {
    let mut w = wallet_with(&[5]);
    let s = sender_slate();
    let answered = w.receive_tx(&s, Some("ok".to_string()), 9).unwrap();
    assert_eq!(answered.receiver.unwrap().outputs, vec![100]);
    assert_eq!(w.store.outputs.len(), 2);
    assert_eq!(status_of(&w, 9), OutputStatus::Unconfirmed);
    assert_eq!(w.store.outputs[1].value, 100);
    assert_eq!(w.txs.len(), 1);
    assert_eq!(w.txs[0].direction, TxDirection::Received);
    assert_eq!(w.txs[0].amount, 100);
    assert_eq!(w.next_tx_id, 1);
    assert_eq!(w.receive_tx(&s, None, 1).unwrap_err(), WalletError::InvalidInput);
    let mut bad = s.clone();
    bad.sender.signed = false;
    assert_eq!(w.receive_tx(&bad, None, 10).unwrap_err(), WalletError::InvalidSlate);
    assert_eq!(w.store.outputs.len(), 2);
    w.next_tx_id = u32::MAX;
    assert_eq!(w.receive_tx(&s, None, 11).unwrap_err(), WalletError::StorageError);
    assert_eq!(w.txs.len(), 1);
}
