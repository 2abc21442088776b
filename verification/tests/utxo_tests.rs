use blockchain::blockchain::Blockchain;
use blockchain::cli::{
    cmd_create_blockchain, cmd_create_wallet, cmd_get_balance, cmd_list_address, cmd_print_chain,
    cmd_reindex, cmd_send, Cli,
};
use blockchain::error::Error;
use blockchain::transaction::{TXInput, TXOutput, TXOutputs, Transaction};
use blockchain::utxoset::{
    apply_to, bytes_precede, clamped_sub, clamped_sum, is_spent, unspent_of, SpentRef, Spendable, UTXOSet,
    UtxoStore,
};
use blockchain::wallets::{hash_pub_key, Wallet, Wallets};

fn sorted(store: &UtxoStore) -> Vec<(String, TXOutputs)> {
    let mut v: Vec<(String, TXOutputs)> =
        store.entries().iter().map(|e| (e.txid.clone(), e.outs.clone())).collect();
    v.sort_by(|a, b| a.0.cmp(&b.0));
    v
}

fn key_hash(w: &Wallet) -> Vec<u8> {
    let mut h = w.public_key.clone();
    hash_pub_key(&mut h);
    h
}

#[test]
fn test_locally() {
    let _cli = Cli::new();
    let mut wallets = Wallets::new(&Vec::new()).unwrap();
    let addr1 = cmd_create_wallet(&mut wallets).unwrap();
    let addr2 = cmd_create_wallet(&mut wallets).unwrap();
    let mut utxo_set = cmd_create_blockchain(&addr1).unwrap();

    let b1 = cmd_get_balance(&addr1, &utxo_set).unwrap();
    let b2 = cmd_get_balance(&addr2, &utxo_set).unwrap();
    assert_eq!(b1, 10);
    assert_eq!(b2, 0);

    cmd_send(&addr1, &addr2, 5, true, &wallets, &mut utxo_set).unwrap();

    let b1 = cmd_get_balance(&addr1, &utxo_set).unwrap();
    let b2 = cmd_get_balance(&addr2, &utxo_set).unwrap();
    assert_eq!(b1, 15);
    assert_eq!(b2, 5);

    cmd_send(&addr2, &addr1, 15, true, &wallets, &mut utxo_set).unwrap_err();
    let b1 = cmd_get_balance(&addr1, &utxo_set).unwrap();
    let b2 = cmd_get_balance(&addr2, &utxo_set).unwrap();
    assert_eq!(b1, 15);
    assert_eq!(b2, 5);
}

#[test]
fn a_fresh_chain_pays_the_reward() {
    let mut wallets = Wallets::new(&Vec::new()).unwrap();
    let addr1 = wallets.create_wallet_from(&[1u8; 32]);
    let utxo_set = cmd_create_blockchain(&addr1).unwrap();
    assert_eq!(cmd_get_balance(&addr1, &utxo_set), Ok(10));
    assert_eq!(utxo_set.count_transactions(), 1);
    assert_eq!(cmd_list_address(&wallets), vec![addr1]);
    assert_eq!(cmd_print_chain(&utxo_set.blockchain).len(), 1);
}

#[test]
fn a_transfer_with_change_then_too_little_and_a_reindex() {
    let mut wallets = Wallets::new(&Vec::new()).unwrap();
    let addr1 = wallets.create_wallet_from(&[1u8; 32]);
    let addr2 = wallets.create_wallet_from(&[2u8; 32]);
    let w1 = wallets.get_wallet(&addr1).unwrap().clone();
    let w2 = wallets.get_wallet(&addr2).unwrap().clone();
    let mut utxo_set = cmd_create_blockchain(&addr1).unwrap();
    let genesis_cb = utxo_set.blockchain.transactions()[0].clone();

    let sent = cmd_send(&addr1, &addr2, 5, true, &wallets, &mut utxo_set).unwrap();
    assert!(sent.messages.is_empty());
    let block = sent.block.unwrap();
    assert_eq!(block.get_height(), 1);
    assert_eq!(utxo_set.blockchain.get_tip(), block.get_hash());
    let txs = block.get_transaction();
    assert_eq!(txs.len(), 2);
    assert!(txs[0].is_coinbase());
    assert_eq!(txs[0].vin[0].pub_key, b"reward!".to_vec());
    let tx = &txs[1];
    assert_eq!(tx.vin.len(), 1);
    assert_eq!(tx.vin[0].txid, genesis_cb.id);
    assert_eq!(tx.vin[0].vout, 0);
    assert_eq!(tx.vin[0].pub_key, w1.public_key);
    assert_eq!(
        tx.vout,
        vec![
            TXOutput { value: 5, pub_key_hash: key_hash(&w2) },
            TXOutput { value: 5, pub_key_hash: key_hash(&w1) },
        ]
    );
    assert_eq!(utxo_set.blockchain.verify_transacton(tx), Ok(true));
    let mut unsigned = tx.clone();
    unsigned.vin[0].signature.clear();
    assert_eq!(tx.id, unsigned.hash().unwrap());

    assert_eq!(cmd_get_balance(&addr1, &utxo_set), Ok(15));
    assert_eq!(cmd_get_balance(&addr2, &utxo_set), Ok(5));
    assert_eq!(utxo_set.count_transactions(), 2);

    let updated = sorted(utxo_set.store());
    assert_eq!(
        cmd_send(&addr2, &addr1, 15, true, &wallets, &mut utxo_set).err(),
        Some(Error::InsufficientFunds)
    );
    assert_eq!(sorted(utxo_set.store()), updated);
    assert_eq!(utxo_set.blockchain.get_best_height(), 1);

    assert_eq!(cmd_reindex(&mut utxo_set), 2);
    assert_eq!(sorted(utxo_set.store()), updated);
    assert_eq!(cmd_get_balance(&addr1, &utxo_set), Ok(15));
    assert_eq!(cmd_get_balance(&addr2, &utxo_set), Ok(5));
    assert_eq!(sorted(utxo_set.store()), sorted(&utxo_set.blockchain.find_UTXO()));

    let once: Vec<(String, TXOutputs)> =
        utxo_set.store().entries().iter().map(|e| (e.txid.clone(), e.outs.clone())).collect();
    utxo_set.reindex();
    let twice: Vec<(String, TXOutputs)> =
        utxo_set.store().entries().iter().map(|e| (e.txid.clone(), e.outs.clone())).collect();
    assert_eq!(once, twice);

    let all = utxo_set.find_UTXO(&key_hash(&w1));
    let values: Vec<i32> = all.outputs.iter().map(|o| o.value).collect();
    assert_eq!(values.iter().sum::<i32>(), 15);
    assert_eq!(utxo_set.get_balance(&key_hash(&w1)), 15);
    assert_eq!(utxo_set.get_balance(&[0u8; 20]), 0);
}

#[test]
fn a_payment_that_is_not_mined_goes_to_the_first_node() {
    let mut wallets = Wallets::new(&Vec::new()).unwrap();
    let addr1 = wallets.create_wallet_from(&[1u8; 32]);
    let addr2 = wallets.create_wallet_from(&[2u8; 32]);
    let mut utxo_set = cmd_create_blockchain(&addr1).unwrap();
    let before = sorted(utxo_set.store());
    let sent = cmd_send(&addr1, &addr2, 10, false, &wallets, &mut utxo_set).unwrap();
    assert!(sent.block.is_none());
    assert_eq!(sent.messages.len(), 1);
    assert_eq!(sent.messages[0].addr, "localhost:3000");
    match &sent.messages[0].message {
        blockchain::server::Message::Tx(m) => {
            assert_eq!(m.addr_from, "localhost:7000");
            assert_eq!(m.transaction.vout.len(), 1);
            assert_eq!(m.transaction.vout[0].value, 10);
            assert_eq!(utxo_set.blockchain.verify_transacton(&m.transaction), Ok(true));
        }
        _ => panic!("wrong!"),
    }
    assert_eq!(sorted(utxo_set.store()), before);
    assert_eq!(utxo_set.blockchain.get_best_height(), 0);
}

#[test]
fn payments_fail_with_their_errors() {
    let mut wallets = Wallets::new(&Vec::new()).unwrap();
    let addr1 = wallets.create_wallet_from(&[1u8; 32]);
    let mut utxo_set = cmd_create_blockchain(&addr1).unwrap();
    assert_eq!(
        cmd_send("nobody", &addr1, 1, true, &wallets, &mut utxo_set).err(),
        Some(Error::NotFound)
    );
    assert_eq!(
        cmd_send(&addr1, "nobody", 1, true, &wallets, &mut utxo_set).err(),
        Some(Error::AddressError)
    );
    assert_eq!(
        cmd_send(&addr1, &addr1, 11, true, &wallets, &mut utxo_set).err(),
        Some(Error::InsufficientFunds)
    );
    assert_eq!(cmd_get_balance("nobody", &utxo_set), Err(Error::AddressError));
    wallets.insert(String::from("short"), Wallet { secret_key: vec![1], public_key: vec![2] });
    assert_eq!(
        cmd_send("short", &addr1, 1, true, &wallets, &mut utxo_set).err(),
        Some(Error::StorageError)
    );
    assert_eq!(utxo_set.blockchain.get_best_height(), 0);
}

#[test]
fn new_utxo_builds_what_the_index_allows() {
    let w1 = Wallet::from_seed(&[1u8; 32]);
    let w2 = Wallet::from_seed(&[2u8; 32]);
    let utxo_set = cmd_create_blockchain(&w1.get_address()).unwrap();
    let exact = Transaction::new_UTXO(&w1, &w2.get_address(), 10, &utxo_set).unwrap();
    assert_eq!(exact.vout, vec![TXOutput { value: 10, pub_key_hash: key_hash(&w2) }]);
    assert_eq!(utxo_set.blockchain.verify_transacton(&exact), Ok(true));
    let mut tampered = exact.clone();
    tampered.vin[0].signature[0] ^= 1;
    assert_eq!(utxo_set.blockchain.verify_transacton(&tampered), Ok(false));
    assert_eq!(
        Transaction::new_UTXO(&w2, &w1.get_address(), 1, &utxo_set).err(),
        Some(Error::InsufficientFunds)
    );
    let nothing = Transaction::new_UTXO(&w2, &w1.get_address(), 0, &utxo_set).unwrap();
    assert!(nothing.vin.is_empty());
    assert_eq!(nothing.vout.len(), 1);
}

#[test]
fn spendable_outputs_are_picked_in_order_until_they_suffice() {
    let mut store = UtxoStore::new();
    let me = vec![1u8; 20];
    let other = vec![2u8; 20];
    store.replace(
        String::from("aa"),
        vec![
            TXOutput { value: 3, pub_key_hash: me.clone() },
            TXOutput { value: 100, pub_key_hash: other.clone() },
            TXOutput { value: 4, pub_key_hash: me.clone() },
        ],
    );
    store.replace(String::from("bb"), vec![TXOutput { value: 9, pub_key_hash: other.clone() }]);
    store.replace(
        String::from("cc"),
        vec![
            TXOutput { value: 5, pub_key_hash: me.clone() },
            TXOutput { value: 6, pub_key_hash: me.clone() },
        ],
    );
    let set = UTXOSet::with_store(Blockchain::empty(), store);
    assert_eq!(set.count_transactions(), 3);

    let (acc, picked) = set.find_spendable_outputs(&me, 8);
    assert_eq!(acc, 12);
    assert_eq!(
        picked,
        vec![
            Spendable { txid: String::from("aa"), outs: vec![0, 2] },
            Spendable { txid: String::from("cc"), outs: vec![0] },
        ]
    );
    let (acc, picked) = set.find_spendable_outputs(&me, 3);
    assert_eq!(acc, 3);
    assert_eq!(picked, vec![Spendable { txid: String::from("aa"), outs: vec![0] }]);
    let (acc, picked) = set.find_spendable_outputs(&me, 1000);
    assert_eq!(acc, 18);
    assert_eq!(picked.len(), 2);
    let (acc, picked) = set.find_spendable_outputs(&me, 0);
    assert_eq!(acc, 0);
    assert!(picked.is_empty());
    let (acc, picked) = set.find_spendable_outputs(&[9u8; 20], 5);
    assert_eq!(acc, 0);
    assert!(picked.is_empty());

    let mine = set.find_UTXO(&me);
    let values: Vec<i32> = mine.outputs.iter().map(|o| o.value).collect();
    assert_eq!(values, vec![3, 4, 5, 6]);
    assert_eq!(set.get_balance(&me), 18);
    assert_eq!(set.get_balance(&other), 109);
}

#[test]
fn sums_stay_within_an_i32() {
    assert_eq!(clamped_sum(1, 2), 3);
    assert_eq!(clamped_sum(i32::MAX, 1), i32::MAX);
    assert_eq!(clamped_sum(i32::MIN, -1), i32::MIN);
    assert_eq!(clamped_sum(i32::MAX, i32::MIN), -1);
    assert_eq!(clamped_sub(5, 7), -2);
    assert_eq!(clamped_sub(0, i32::MIN), i32::MAX);
    assert_eq!(clamped_sub(i32::MIN, 1), i32::MIN);
    let mut store = UtxoStore::new();
    store.replace(
        String::from("aa"),
        vec![
            TXOutput { value: i32::MAX, pub_key_hash: vec![1] },
            TXOutput { value: 5, pub_key_hash: vec![1] },
        ],
    );
    let set = UTXOSet::with_store(Blockchain::empty(), store);
    assert_eq!(set.get_balance(&[1]), i32::MAX);
}

#[test]
fn the_store_spends_and_replaces() {
    let mut store = UtxoStore::new();
    let o = |v: i32| TXOutput { value: v, pub_key_hash: vec![v as u8] };
    store.append(String::from("aa"), vec![o(1), o(2)]);
    store.append(String::from("bb"), vec![]);
    assert_eq!(store.len(), 1);
    store.append(String::from("aa"), vec![o(3)]);
    assert_eq!(store.get("aa").unwrap().outputs, vec![o(1), o(2), o(3)]);
    assert!(store.get("bb").is_none());

    assert!(!store.spend("zz", 0));
    assert!(store.spend("aa", 1));
    assert_eq!(store.get("aa").unwrap().outputs, vec![o(1), o(3)]);
    assert!(store.spend("aa", 7));
    assert!(store.spend("aa", -1));
    assert_eq!(store.get("aa").unwrap().outputs, vec![o(1), o(3)]);
    assert!(store.spend("aa", 0));
    assert!(store.spend("aa", 0));
    assert!(store.get("aa").is_none());
    assert_eq!(store.len(), 0);

    store.replace(String::from("cc"), vec![o(1)]);
    store.replace(String::from("cc"), vec![]);
    assert_eq!(store.get("cc").unwrap().outputs, vec![]);
    assert_eq!(store.clone().entries(), store.entries());
}

#[test]
fn applying_a_transaction_spends_its_inputs() {
    let o = |v: i32| TXOutput { value: v, pub_key_hash: vec![v as u8] };
    let mut store = UtxoStore::new();
    store.replace(String::from("aa"), vec![o(1), o(2)]);
    let tx = Transaction {
        id: String::from("bb"),
        vin: vec![TXInput {
            txid: String::from("aa"),
            vout: 0,
            signature: vec![],
            pub_key: vec![],
        }],
        vout: vec![o(9)],
    };
    assert!(apply_to(&mut store, &tx));
    assert_eq!(store.get("aa").unwrap().outputs, vec![o(2)]);
    assert_eq!(store.get("bb").unwrap().outputs, vec![o(9)]);
    let missing = Transaction {
        id: String::from("cc"),
        vin: vec![TXInput {
            txid: String::from("zz"),
            vout: 0,
            signature: vec![],
            pub_key: vec![],
        }],
        vout: vec![o(9)],
    };
    assert!(!apply_to(&mut store, &missing));
}

#[test]
fn update_needs_the_spent_transaction_in_the_index() {
    let w1 = Wallet::from_seed(&[1u8; 32]);
    let w2 = Wallet::from_seed(&[2u8; 32]);
    let mut utxo_set = cmd_create_blockchain(&w1.get_address()).unwrap();
    let tx = Transaction::new_UTXO(&w1, &w2.get_address(), 4, &utxo_set).unwrap();
    let block = utxo_set.blockchain.mine_block(vec![tx]).unwrap();
    let mut stale = UTXOSet::new(
        Blockchain::new(Some(utxo_set.blockchain.get_tip()), utxo_set.blockchain.blocks().clone())
            .unwrap(),
    );
    assert_eq!(stale.update(&block), Err(Error::NotFound));
    assert_eq!(stale.count_transactions(), 0);
    assert_eq!(utxo_set.update(&block), Ok(()));
    assert_eq!(utxo_set.get_balance(&key_hash(&w2)), 4);
    assert_eq!(utxo_set.get_balance(&key_hash(&w1)), 6);
    assert_eq!(sorted(utxo_set.store()), sorted(&utxo_set.blockchain.find_UTXO()));
}

#[test]
fn spent_outputs_are_left_out() {
    let spent = vec![
        SpentRef { txid: String::from("aa"), vout: 1 },
        SpentRef { txid: String::from("bb"), vout: -1 },
    ];
    assert!(is_spent(&spent, "aa", 1));
    assert!(!is_spent(&spent, "aa", 0));
    assert!(!is_spent(&spent, "bb", 0));
    assert!(!is_spent(&spent, "cc", 1));
    let o = |v: i32| TXOutput { value: v, pub_key_hash: vec![] };
    let tx = Transaction { id: String::from("aa"), vin: vec![], vout: vec![o(1), o(2), o(3)] };
    assert_eq!(unspent_of(&tx, &spent), vec![o(1), o(3)]);
}

#[test]
fn the_index_keeps_its_ids_in_order() {
    let o = |v: i32| TXOutput { value: v, pub_key_hash: vec![1] };
    let mut store = UtxoStore::new();
    store.replace(String::from("cc"), vec![o(3)]);
    store.append(String::from("aa"), vec![o(1)]);
    store.replace(String::from("b"), vec![o(2)]);
    store.append(String::from("aaa"), vec![o(4)]);
    store.replace(String::from(""), vec![o(0)]);
    let ids: Vec<String> = store.entries().iter().map(|e| e.txid.clone()).collect();
    assert_eq!(ids, vec!["", "aa", "aaa", "b", "cc"]);
    assert!(store.spend("aaa", 0));
    let ids: Vec<String> = store.entries().iter().map(|e| e.txid.clone()).collect();
    assert_eq!(ids, vec!["", "aa", "b", "cc"]);
    let set = UTXOSet::with_store(Blockchain::empty(), store);
    let values: Vec<i32> = set.find_UTXO(&[1]).outputs.iter().map(|x| x.value).collect();
    assert_eq!(values, vec![0, 1, 2, 3]);
    let (acc, picked) = set.find_spendable_outputs(&[1], 3);
    assert_eq!(acc, 3);
    assert_eq!(
        picked,
        vec![
            Spendable { txid: String::from(""), outs: vec![0] },
            Spendable { txid: String::from("aa"), outs: vec![0] },
            Spendable { txid: String::from("b"), outs: vec![0] },
        ]
    );
}

#[test]
fn byte_strings_are_ordered_byte_by_byte() {
    assert!(bytes_precede(b"", b"a"));
    assert!(!bytes_precede(b"", b""));
    assert!(!bytes_precede(b"a", b""));
    assert!(bytes_precede(b"a", b"ab"));
    assert!(bytes_precede(b"ab", b"b"));
    assert!(!bytes_precede(b"b", b"ab"));
    assert!(!bytes_precede(b"ab", b"ab"));
    assert!(bytes_precede(&[1, 255], &[2, 0]));
}

#[test]
fn the_chain_is_searched_for_what_a_key_can_spend() {
    let mut wallets = Wallets::new(&Vec::new()).unwrap();
    let addr1 = wallets.create_wallet_from(&[1u8; 32]);
    let addr2 = wallets.create_wallet_from(&[2u8; 32]);
    let w1 = wallets.get_wallet(&addr1).unwrap().clone();
    let w2 = wallets.get_wallet(&addr2).unwrap().clone();
    let mut utxo_set = cmd_create_blockchain(&addr1).unwrap();
    let genesis_cb = utxo_set.blockchain.transactions()[0].clone();
    let sent = cmd_send(&addr1, &addr2, 5, true, &wallets, &mut utxo_set).unwrap();
    let block = sent.block.unwrap();
    let reward = block.get_transaction()[0].clone();
    let payment = block.get_transaction()[1].clone();
    let bc = &utxo_set.blockchain;

    assert!(payment.vin[0].uses_key(&key_hash(&w1)));
    assert!(!payment.vin[0].uses_key(&key_hash(&w2)));
    assert!(!genesis_cb.vin[0].uses_key(&key_hash(&w1)));

    assert_eq!(
        bc.find_unspent_transactions(&key_hash(&w1)),
        vec![reward.clone(), payment.clone()]
    );
    assert_eq!(bc.find_unspent_transactions(&key_hash(&w2)), vec![payment.clone()]);
    assert!(bc.find_unspent_transactions(&[0u8; 20]).is_empty());

    let (acc, picked) = bc.find_spendable_outputs(&key_hash(&w1), 12);
    assert_eq!(acc, 15);
    assert_eq!(
        picked,
        vec![
            Spendable { txid: reward.id.clone(), outs: vec![0] },
            Spendable { txid: payment.id.clone(), outs: vec![1] },
        ]
    );
    let (acc, picked) = bc.find_spendable_outputs(&key_hash(&w1), 10);
    assert_eq!(acc, 10);
    assert_eq!(picked, vec![Spendable { txid: reward.id.clone(), outs: vec![0] }]);
    let (acc, picked) = bc.find_spendable_outputs(&key_hash(&w2), 100);
    assert_eq!(acc, 5);
    assert_eq!(picked, vec![Spendable { txid: payment.id.clone(), outs: vec![0] }]);
}

#[test]
fn picked_places_are_gathered_under_their_id() {
    use_merge();
}

fn use_merge() {
    let mut picked: Vec<Spendable> = Vec::new();
    blockchain::utxoset::merge_picked(&mut picked, "aa", vec![]);
    assert!(picked.is_empty());
    blockchain::utxoset::merge_picked(&mut picked, "aa", vec![1]);
    blockchain::utxoset::merge_picked(&mut picked, "bb", vec![0, 2]);
    blockchain::utxoset::merge_picked(&mut picked, "aa", vec![3]);
    assert_eq!(
        picked,
        vec![
            Spendable { txid: String::from("aa"), outs: vec![1, 3] },
            Spendable { txid: String::from("bb"), outs: vec![0, 2] },
        ]
    );
}
