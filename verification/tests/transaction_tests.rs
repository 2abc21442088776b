use blockchain::error::Error;
use blockchain::hashing::{sha256_hex, to_hex};
use blockchain::transaction::{
    find_index, TXInput, TXOutput, Transaction, SUBSIDY,
};
use blockchain::wallets::{hash_pub_key, Wallet, Wallets};

fn wallet(seed: u8) -> Wallet {
    Wallet::from_seed(&[seed; 32])
}

fn key_hash(w: &Wallet) -> Vec<u8> {
    let mut h = w.public_key.clone();
    hash_pub_key(&mut h);
    h
}

fn spend_from(prev: &Transaction, owner: &Wallet) -> Transaction {
    let mut tx = Transaction {
        id: String::new(),
        vin: vec![TXInput {
            txid: prev.id.clone(),
            vout: 0,
            signature: Vec::new(),
            pub_key: owner.public_key.clone(),
        }],
        vout: vec![TXOutput { value: 4, pub_key_hash: vec![1; 20] }],
    };
    tx.id = tx.hash().unwrap();
    tx
}

#[test]
fn transaction_test_signature() {
    let mut ws = Wallets::new(&Vec::new()).unwrap();
    let wa1 = ws.create_wallet().unwrap();
    let w = ws.get_wallet(&wa1).unwrap().clone();
    let _saved = ws.save_all();
    drop(ws);

    let data = String::from("test");
    let tx = Transaction::new_coinbase(wa1, data).unwrap();
    assert!(tx.is_coinbase());

    let signature = crypto::ed25519::signature(tx.id.as_bytes(), &w.secret_key);
    assert!(crypto::ed25519::verify(tx.id.as_bytes(), &w.public_key, &signature));
}

#[test]
fn a_coinbase_pays_the_subsidy_to_the_address() {
    let w = wallet(1);
    let tx = Transaction::new_coinbase(w.get_address(), String::from("hello")).unwrap();
    assert!(tx.is_coinbase());
    assert_eq!(tx.vin.len(), 1);
    assert_eq!(tx.vin[0].txid, "");
    assert_eq!(tx.vin[0].vout, -1);
    assert!(tx.vin[0].signature.is_empty());
    assert_eq!(tx.vin[0].pub_key, b"hello".to_vec());
    assert_eq!(tx.vout.len(), 1);
    assert_eq!(tx.vout[0].value, 10);
    assert_eq!(SUBSIDY, 10);
    assert_eq!(tx.vout[0].pub_key_hash, key_hash(&w));
    assert_eq!(tx.id, tx.hash().unwrap());
}

#[test]
fn a_coinbase_without_data_notes_the_reward() {
    let address = wallet(1).get_address();
    let tx = Transaction::new_coinbase(address.clone(), String::new()).unwrap();
    assert_eq!(tx.vin[0].pub_key, format!("Reward to '{}'", address).into_bytes());
}

#[test]
fn a_coinbase_to_a_malformed_address_is_refused() {
    assert_eq!(
        Transaction::new_coinbase(String::from("not an address"), String::new()).err(),
        Some(Error::AddressError)
    );
    assert_eq!(TXOutput::new(1, String::from("x")).err(), Some(Error::AddressError));
}

#[test]
fn the_hash_is_the_digest_of_the_transaction_without_its_id() {
    let w = wallet(1);
    let mut tx = Transaction::new_coinbase(w.get_address(), String::from("x")).unwrap();
    let first = tx.hash().unwrap();
    assert_eq!(first.len(), 64);
    tx.id = String::from("something else");
    assert_eq!(tx.hash().unwrap(), first);
    tx.id = String::new();
    let bytes = blockchain::codec::serialize(&tx);
    assert_eq!(sha256_hex(&bytes).unwrap(), first);
    assert_eq!(to_hex(&tx.digest().unwrap()), first);
    tx.vout[0].value = 11;
    assert_ne!(tx.hash().unwrap(), first);
}

#[test]
fn only_one_empty_input_with_minus_one_makes_a_coinbase() {
    let mut tx = Transaction {
        id: String::new(),
        vin: vec![TXInput {
            txid: String::new(),
            vout: -1,
            signature: vec![],
            pub_key: vec![],
        }],
        vout: vec![],
    };
    assert!(tx.is_coinbase());
    tx.vin[0].vout = 0;
    assert!(!tx.is_coinbase());
    tx.vin[0].vout = -1;
    tx.vin[0].txid = String::from("a");
    assert!(!tx.is_coinbase());
    tx.vin[0].txid = String::new();
    tx.vin.push(tx.vin[0].clone());
    assert!(!tx.is_coinbase());
    tx.vin.clear();
    assert!(!tx.is_coinbase());
}

#[test]
fn trim_copy_clears_signatures_and_keys() {
    let tx = Transaction {
        id: String::from("id"),
        vin: vec![
            TXInput { txid: String::from("a"), vout: 1, signature: vec![1], pub_key: vec![2] },
            TXInput { txid: String::from("b"), vout: 0, signature: vec![], pub_key: vec![3] },
        ],
        vout: vec![TXOutput { value: 5, pub_key_hash: vec![4] }],
    };
    let copy = tx.trim_copy();
    assert_eq!(copy.id, "id");
    assert_eq!(copy.vout, tx.vout);
    assert_eq!(copy.vin.len(), 2);
    for (c, o) in copy.vin.iter().zip(tx.vin.iter()) {
        assert_eq!(c.txid, o.txid);
        assert_eq!(c.vout, o.vout);
        assert!(c.signature.is_empty());
        assert!(c.pub_key.is_empty());
    }
}

#[test]
fn signing_form_carries_the_hash_of_the_spent_output() {
    let tx = Transaction {
        id: String::from("id"),
        vin: vec![
            TXInput { txid: String::from("a"), vout: 1, signature: vec![1], pub_key: vec![2] },
            TXInput { txid: String::from("b"), vout: 0, signature: vec![5], pub_key: vec![3] },
        ],
        vout: vec![],
    };
    let form = tx.signing_form(1, &[9, 9]);
    assert!(form.vin[0].pub_key.is_empty());
    assert_eq!(form.vin[1].pub_key, vec![9, 9]);
    assert!(form.vin[0].signature.is_empty());
    assert!(form.vin[1].signature.is_empty());
}

#[test]
fn outputs_are_locked_to_a_key_hash() {
    let out = TXOutput { value: 1, pub_key_hash: vec![1, 2, 3] };
    assert!(out.is_locked_with_key(&[1, 2, 3]));
    assert!(!out.is_locked_with_key(&[1, 2]));
    assert!(!out.is_locked_with_key(&[1, 2, 4]));
    let w = wallet(2);
    let out = TXOutput::new(7, w.get_address()).unwrap();
    assert_eq!(out.value, 7);
    assert!(out.is_locked_with_key(&key_hash(&w)));
}

#[test]
fn lock_leaves_the_output_alone_on_a_bad_address() {
    let mut out = TXOutput { value: 3, pub_key_hash: vec![1] };
    assert_eq!(out.lock("bad"), Err(Error::AddressError));
    assert_eq!(out, TXOutput { value: 3, pub_key_hash: vec![1] });
    let w = wallet(2);
    assert_eq!(out.lock(&w.get_address()), Ok(()));
    assert_eq!(out.pub_key_hash, key_hash(&w));
    assert_eq!(out.value, 3);
}

#[test]
fn a_signed_transaction_verifies() {
    let owner = wallet(1);
    let prev = Transaction::new_coinbase(owner.get_address(), String::from("p")).unwrap();
    let mut tx = spend_from(&prev, &owner);
    let prevs = vec![prev];
    assert_eq!(tx.verify(&prevs), Ok(false));
    assert_eq!(tx.sign(&owner.secret_key, &prevs), Ok(()));
    assert_eq!(tx.vin[0].signature.len(), 64);
    assert_eq!(tx.verify(&prevs), Ok(true));
}

#[test]
fn the_signature_is_made_over_the_hex_text_of_the_form_hash() {
    let owner = wallet(1);
    let prev = Transaction::new_coinbase(owner.get_address(), String::from("p")).unwrap();
    let mut tx = spend_from(&prev, &owner);
    let prevs = vec![prev.clone()];
    tx.sign(&owner.secret_key, &prevs).unwrap();
    let form = tx.signing_form(0, &prev.vout[0].pub_key_hash);
    let message = form.hash().unwrap();
    let expected = crypto::ed25519::signature(message.as_bytes(), &owner.secret_key);
    assert_eq!(tx.vin[0].signature, expected.to_vec());
    assert_eq!(tx.signing_hash(&prevs, 0).unwrap(), message);
}

#[test]
fn a_tampered_signature_does_not_verify() {
    let owner = wallet(1);
    let prev = Transaction::new_coinbase(owner.get_address(), String::from("p")).unwrap();
    let mut tx = spend_from(&prev, &owner);
    let prevs = vec![prev];
    tx.sign(&owner.secret_key, &prevs).unwrap();
    for at in [0usize, 31, 63] {
        let mut bad = tx.clone();
        bad.vin[0].signature[at] ^= 1;
        assert_eq!(bad.verify(&prevs), Ok(false));
    }
    let mut bad = tx.clone();
    bad.vout[0].value += 1;
    assert_eq!(bad.verify(&prevs), Ok(false));
    let mut bad = tx.clone();
    bad.vin[0].pub_key = wallet(2).public_key;
    assert_eq!(bad.verify(&prevs), Ok(false));
}

#[test]
fn a_signature_with_another_key_does_not_verify() {
    let owner = wallet(1);
    let thief = wallet(2);
    let prev = Transaction::new_coinbase(owner.get_address(), String::from("p")).unwrap();
    let mut tx = spend_from(&prev, &owner);
    let prevs = vec![prev];
    tx.sign(&thief.secret_key, &prevs).unwrap();
    assert_eq!(tx.verify(&prevs), Ok(false));
}

#[test]
fn a_coinbase_verifies_and_is_not_signed() {
    let owner = wallet(1);
    let mut cb = Transaction::new_coinbase(owner.get_address(), String::from("p")).unwrap();
    let before = cb.clone();
    assert_eq!(cb.verify(&Vec::new()), Ok(true));
    assert_eq!(cb.sign(&owner.secret_key, &Vec::new()), Ok(()));
    assert_eq!(cb, before);
}

#[test]
fn an_unknown_previous_transaction_is_an_invalid_reference() {
    let owner = wallet(1);
    let prev = Transaction::new_coinbase(owner.get_address(), String::from("p")).unwrap();
    let mut tx = spend_from(&prev, &owner);
    let before = tx.clone();
    assert_eq!(tx.verify(&Vec::new()), Err(Error::InvalidReference));
    assert_eq!(tx.sign(&owner.secret_key, &Vec::new()), Err(Error::InvalidReference));
    assert_eq!(tx, before);
    assert!(!tx.references_known(&Vec::new()));
    assert!(tx.references_known(&vec![prev]));
}

#[test]
fn an_output_that_is_not_there_is_an_invalid_reference() {
    let owner = wallet(1);
    let prev = Transaction::new_coinbase(owner.get_address(), String::from("p")).unwrap();
    let prevs = vec![prev.clone()];
    let mut tx = spend_from(&prev, &owner);
    tx.vin[0].vout = 1;
    assert_eq!(tx.verify(&prevs), Err(Error::InvalidReference));
    tx.vin[0].vout = -1;
    tx.vin.push(tx.vin[0].clone());
    assert_eq!(tx.verify(&prevs), Err(Error::InvalidReference));
}

#[test]
fn a_previous_transaction_without_id_is_an_invalid_reference() {
    let owner = wallet(1);
    let mut prev = Transaction::new_coinbase(owner.get_address(), String::from("p")).unwrap();
    prev.id = String::new();
    let tx = Transaction {
        id: String::new(),
        vin: vec![
            TXInput { txid: String::new(), vout: 0, signature: vec![], pub_key: vec![] },
            TXInput { txid: String::new(), vout: 0, signature: vec![], pub_key: vec![] },
        ],
        vout: vec![],
    };
    assert_eq!(tx.verify(&vec![prev]), Err(Error::InvalidReference));
}

#[test]
fn the_first_transaction_with_an_id_is_found() {
    let a = Transaction { id: String::from("a"), vin: vec![], vout: vec![] };
    let b = Transaction {
        id: String::from("b"),
        vin: vec![],
        vout: vec![TXOutput { value: 1, pub_key_hash: vec![] }],
    };
    let b2 = Transaction { id: String::from("b"), vin: vec![], vout: vec![] };
    let txs = vec![a, b, b2];
    assert_eq!(find_index(&txs, "a"), Some(0));
    assert_eq!(find_index(&txs, "b"), Some(1));
    assert_eq!(find_index(&txs, "c"), None);
}

#[test]
fn every_input_is_signed_with_its_own_message() {
    let owner = wallet(1);
    let p1 = Transaction::new_coinbase(owner.get_address(), String::from("one")).unwrap();
    let p2 = Transaction::new_coinbase(owner.get_address(), String::from("two")).unwrap();
    let mut tx = Transaction {
        id: String::new(),
        vin: vec![
            TXInput {
                txid: p1.id.clone(),
                vout: 0,
                signature: vec![],
                pub_key: owner.public_key.clone(),
            },
            TXInput {
                txid: p2.id.clone(),
                vout: 0,
                signature: vec![],
                pub_key: owner.public_key.clone(),
            },
        ],
        vout: vec![TXOutput { value: 20, pub_key_hash: vec![3; 20] }],
    };
    tx.id = tx.hash().unwrap();
    let prevs = vec![p1, p2];
    tx.sign(&owner.secret_key, &prevs).unwrap();
    assert_eq!(tx.verify(&prevs), Ok(true));
    let mut swapped = tx.clone();
    swapped.vin[0].signature = tx.vin[1].signature.clone();
    swapped.vin[1].signature = tx.vin[0].signature.clone();
    assert_eq!(swapped.verify(&prevs), Ok(false));
}
