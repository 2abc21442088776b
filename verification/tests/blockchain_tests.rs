use blockchain::block::Block;
use blockchain::blockchain::{Blockchain, GENESIS_COINBASE_DATA};
use blockchain::codec::{deserialize, serialize};
use blockchain::error::Error;
use blockchain::transaction::{TXInput, TXOutput, Transaction};
use blockchain::wallets::Wallet;

fn address(seed: u8) -> String {
    Wallet::from_seed(&[seed; 32]).get_address()
}

fn coinbase(seed: u8, data: &str) -> Transaction {
    Transaction::new_coinbase(address(seed), String::from(data)).unwrap()
}

fn same_chain(a: &Blockchain, b: &Blockchain) -> bool {
    a.get_tip() == b.get_tip() && a.blocks() == b.blocks()
}

#[test]
fn a_chain_without_blocks() {
    let mut bc = Blockchain::empty();
    assert_eq!(bc.get_best_height(), -1);
    assert_eq!(bc.get_tip(), "");
    assert!(bc.blocks_from_tip().is_empty());
    assert!(bc.get_block_hashs().is_empty());
    assert_eq!(bc.get_block("00").err(), Some(Error::NotFound));
    assert_eq!(bc.find_transacton("00").err(), Some(Error::NotFound));
    assert_eq!(bc.mine_block(Vec::new()).err(), Some(Error::NotFound));
    assert!(bc.find_UTXO().entries().is_empty());
}

#[test]
fn a_new_chain_has_one_block_that_pays_the_address() {
    let bc = Blockchain::create_blockchain(address(1)).unwrap();
    assert_eq!(bc.get_best_height(), 0);
    let blocks = bc.blocks_from_tip();
    assert_eq!(blocks.len(), 1);
    let genesis = &blocks[0];
    assert_eq!(genesis.get_hash(), bc.get_tip());
    assert_eq!(genesis.get_prev_hash(), "");
    assert_eq!(genesis.get_height(), 0);
    assert_eq!(genesis.get_transaction().len(), 1);
    let cb = &genesis.get_transaction()[0];
    assert!(cb.is_coinbase());
    assert_eq!(cb.vin[0].pub_key, GENESIS_COINBASE_DATA.as_bytes().to_vec());
    assert_eq!(cb.vout[0].value, 10);
    assert_eq!(bc.get_block_hashs(), vec![bc.get_tip()]);
    assert_eq!(bc.get_block(&bc.get_tip()).unwrap(), *genesis);
    assert_eq!(bc.find_transacton(&cb.id).unwrap(), *cb);
    assert_eq!(bc.transactions(), vec![cb.clone()]);
}

#[test]
fn a_chain_is_not_made_for_a_malformed_address() {
    assert_eq!(
        Blockchain::create_blockchain(String::from("nobody")).err(),
        Some(Error::AddressError)
    );
}

#[test]
fn adding_a_block_twice_is_adding_it_once() {
    let mut bc = Blockchain::create_blockchain(address(1)).unwrap();
    let next = Block::mine(vec![coinbase(2, "a")], bc.get_tip(), 1, 10).unwrap();
    assert!(bc.add_block(next.clone()));
    let once = (bc.get_tip(), bc.blocks().clone());
    assert!(!bc.add_block(next.clone()));
    assert_eq!((bc.get_tip(), bc.blocks().clone()), once);
    assert_eq!(bc.get_tip(), next.get_hash());
    assert_eq!(bc.get_best_height(), 1);
    assert_eq!(bc.blocks().len(), 2);
}

#[test]
fn a_block_that_may_not_join_is_dropped() {
    let mut bc = Blockchain::create_blockchain(address(1)).unwrap();
    let tip = bc.get_tip();

    let orphan = Block::mine(vec![coinbase(2, "a")], String::from("00ab"), 1, 10).unwrap();
    assert!(!bc.accepts(&orphan));
    assert!(!bc.add_block(orphan));

    let good = Block::mine(vec![coinbase(2, "a")], tip.clone(), 1, 10).unwrap();
    let mut bytes = serialize(&good);
    bytes[0] ^= 1;
    let forged: Block = deserialize(&bytes).unwrap();
    assert!(!bc.accepts(&forged));
    assert!(!bc.add_block(forged));

    let unsigned = Transaction {
        id: String::from("abcd"),
        vin: vec![TXInput {
            txid: bc.blocks_from_tip()[0].get_transaction()[0].id.clone(),
            vout: 0,
            signature: vec![0; 64],
            pub_key: Wallet::from_seed(&[1u8; 32]).public_key,
        }],
        vout: vec![TXOutput { value: 10, pub_key_hash: vec![0; 20] }],
    };
    let bad = Block::mine(vec![unsigned], tip.clone(), 1, 10).unwrap();
    assert_eq!(bad.validate(), Ok(true));
    assert!(!bc.accepts(&bad));
    assert!(!bc.add_block(bad));

    assert_eq!(bc.blocks().len(), 1);
    assert_eq!(bc.get_tip(), tip);
    assert!(bc.accepts(&good));
}

#[test]
fn the_newest_block_is_the_first_to_stand_highest() {
    let mut bc = Blockchain::create_blockchain(address(1)).unwrap();
    let genesis = bc.get_tip();
    let b1 = Block::mine(vec![coinbase(2, "a")], genesis.clone(), 1, 10).unwrap();
    let b1x = Block::mine(vec![coinbase(3, "b")], genesis.clone(), 1, 11).unwrap();
    let b2x = Block::mine(vec![coinbase(3, "c")], b1x.get_hash(), 2, 12).unwrap();
    assert!(bc.add_block(b1.clone()));
    assert!(bc.add_block(b1x.clone()));
    assert_eq!(bc.get_tip(), b1.get_hash());
    assert_eq!(bc.get_block_hashs(), vec![b1.get_hash(), genesis.clone()]);
    assert!(bc.add_block(b2x.clone()));
    assert_eq!(bc.get_tip(), b2x.get_hash());
    assert_eq!(bc.get_best_height(), 2);
    assert_eq!(
        bc.get_block_hashs(),
        vec![b2x.get_hash(), b1x.get_hash(), genesis.clone()]
    );
    assert_eq!(bc.blocks().len(), 4);
    assert_eq!(bc.get_block(&b1.get_hash()).unwrap(), b1);
    assert_eq!(bc.find_transacton(&b1.get_transaction()[0].id).err(), Some(Error::NotFound));
    let txs = bc.transactions();
    assert_eq!(txs.len(), 3);
    assert_eq!(txs[0], b2x.get_transaction()[0]);
    assert_eq!(txs[1], b1x.get_transaction()[0]);
}

#[test]
fn every_stored_block_is_valid_and_linked() {
    let mut bc = Blockchain::create_blockchain(address(1)).unwrap();
    bc.mine_block(vec![coinbase(1, "one")]).unwrap();
    bc.mine_block(vec![coinbase(2, "two")]).unwrap();
    assert_eq!(bc.blocks().len(), 3);
    for b in bc.blocks() {
        assert_eq!(b.validate(), Ok(true));
        assert!(b.get_hash().starts_with("0000"));
        let again = bc.get_block(&b.get_hash()).unwrap();
        assert_eq!(&again, b);
        if !b.get_prev_hash().is_empty() {
            assert!(bc.get_block(&b.get_prev_hash()).is_ok());
        }
    }
}

#[test]
fn mining_puts_a_block_on_top() {
    let mut bc = Blockchain::create_blockchain(address(1)).unwrap();
    let genesis = bc.get_tip();
    let cb = coinbase(2, "mined");
    let b = bc.mine_block(vec![cb.clone()]).unwrap();
    assert_eq!(b.get_prev_hash(), genesis);
    assert_eq!(b.get_height(), 1);
    assert_eq!(b.get_transaction(), &vec![cb]);
    assert_eq!(b.validate(), Ok(true));
    assert_eq!(bc.get_tip(), b.get_hash());
    assert_eq!(bc.get_best_height(), 1);
    assert_eq!(bc.blocks_from_tip(), vec![b.clone(), bc.get_block(&genesis).unwrap()]);
}

#[test]
fn a_transaction_that_does_not_verify_is_not_mined() {
    let mut bc = Blockchain::create_blockchain(address(1)).unwrap();
    let before = (bc.get_tip(), bc.blocks().clone());
    let unknown = Transaction {
        id: String::from("abcd"),
        vin: vec![TXInput {
            txid: String::from("ffff"),
            vout: 0,
            signature: vec![],
            pub_key: vec![],
        }],
        vout: vec![],
    };
    assert_eq!(bc.verify_transacton(&unknown), Err(Error::InvalidReference));
    assert_eq!(
        bc.mine_block(vec![coinbase(1, "x"), unknown]).err(),
        Some(Error::InvalidTransaction)
    );
    assert_eq!((bc.get_tip(), bc.blocks().clone()), before);
    assert!(!bc.verify_all(&vec![Transaction {
        id: String::new(),
        vin: vec![],
        vout: vec![]
    }
    .clone(), Transaction {
        id: String::new(),
        vin: vec![TXInput {
            txid: String::from("ffff"),
            vout: 0,
            signature: vec![],
            pub_key: vec![],
        }],
        vout: vec![],
    }]));
}

#[test]
fn a_chain_at_the_greatest_height_cannot_grow() {
    let mut bc = Blockchain::empty();
    let top = Block::mine(vec![coinbase(1, "top")], String::new(), i32::MAX, 1).unwrap();
    assert!(bc.add_block(top));
    assert_eq!(bc.get_best_height(), i32::MAX);
    assert_eq!(bc.mine_block(vec![coinbase(1, "x")]).err(), Some(Error::EncodingError));
}

#[test]
fn a_chain_is_opened_from_its_blocks() {
    let mut bc = Blockchain::create_blockchain(address(1)).unwrap();
    bc.mine_block(vec![coinbase(2, "one")]).unwrap();
    let reopened = Blockchain::new(Some(bc.get_tip()), bc.blocks().clone()).unwrap();
    assert!(same_chain(&bc, &reopened));

    assert_eq!(
        Blockchain::new(None, bc.blocks().clone()).err(),
        Some(Error::NotFound)
    );
    assert_eq!(
        Blockchain::new(Some(String::from("00ff")), bc.blocks().clone()).err(),
        Some(Error::StorageError)
    );
    let genesis = bc.blocks()[0].get_hash();
    assert_eq!(
        Blockchain::new(Some(genesis), bc.blocks().clone()).err(),
        Some(Error::StorageError)
    );
    let mut backwards = bc.blocks().clone();
    backwards.reverse();
    assert_eq!(
        Blockchain::new(Some(bc.get_tip()), backwards).err(),
        Some(Error::StorageError)
    );
}

#[test]
fn a_payment_signed_through_the_chain_verifies() {
    let owner = Wallet::from_seed(&[1u8; 32]);
    let bc = Blockchain::create_blockchain(owner.get_address()).unwrap();
    let cb = bc.transactions()[0].clone();
    let mut tx = Transaction {
        id: String::new(),
        vin: vec![TXInput {
            txid: cb.id.clone(),
            vout: 0,
            signature: vec![],
            pub_key: owner.public_key.clone(),
        }],
        vout: vec![TXOutput { value: 10, pub_key_hash: vec![8; 20] }],
    };
    tx.id = tx.hash().unwrap();
    assert_eq!(bc.verify_transacton(&tx), Ok(false));
    assert_eq!(bc.sign_transacton(&mut tx, &owner.secret_key), Ok(()));
    assert_eq!(bc.verify_transacton(&tx), Ok(true));
    assert!(bc.verify_all(&vec![tx.clone(), cb]));
    tx.vin[0].signature[5] ^= 0x10;
    assert_eq!(bc.verify_transacton(&tx), Ok(false));
}

#[test]
fn a_walk_goes_from_the_newest_block_to_the_first() {
    let mut bc = Blockchain::create_blockchain(address(1)).unwrap();
    let second = bc.mine_block(vec![coinbase(2, "one")]).unwrap();
    let mut walk = bc.iter();
    let a = walk.next().unwrap();
    let b = walk.next().unwrap();
    assert_eq!(a, second);
    assert_eq!(b.get_hash(), second.get_prev_hash());
    assert_eq!(b.get_prev_hash(), "");
    assert!(walk.next().is_none());
    assert!(walk.next().is_none());
    assert!(Blockchain::empty().iter().next().is_none());
}

#[test]
fn the_transactions_that_inputs_spend_from_are_collected() {
    let owner = Wallet::from_seed(&[1u8; 32]);
    let bc = Blockchain::create_blockchain(owner.get_address()).unwrap();
    let cb = bc.transactions()[0].clone();
    let input = |id: &str| TXInput {
        txid: String::from(id),
        vout: 0,
        signature: vec![],
        pub_key: vec![],
    };
    let tx = Transaction {
        id: String::new(),
        vin: vec![input(&cb.id), input(&cb.id)],
        vout: vec![],
    };
    assert_eq!(bc.get_prev_TXs(&tx), Ok(vec![cb.clone(), cb.clone()]));
    let missing = Transaction {
        id: String::new(),
        vin: vec![input(&cb.id), input("ffff")],
        vout: vec![],
    };
    assert_eq!(bc.get_prev_TXs(&missing), Err(Error::NotFound));
    assert_eq!(bc.get_prev_TXs(&cb), Err(Error::NotFound));
}
