use blockchain::block::Block;
use blockchain::blockchain::Blockchain;
use blockchain::cli::cmd_create_blockchain;
use blockchain::error::Error;
use blockchain::server::{
    bytes_to_cmd, cmd_to_bytes, Blockmsg, GetBlocksmsg, GetDatamsg, Invmsg, Message, Outgoing,
    Server, Txmsg, Versionmsg, CMD_LEN, KNOWN_NODE1, VERSION,
};
use blockchain::transaction::{TXOutput, Transaction};
use blockchain::utxoset::UTXOSet;
use blockchain::wallets::{Wallet, Wallets};

fn empty_node(port: &str, miner: &str) -> Server {
    Server::new(port, miner, UTXOSet::new(Blockchain::empty())).unwrap()
}

fn coinbase(seed: u8, data: &str) -> Transaction {
    let w = Wallet::from_seed(&[seed; 32]);
    Transaction::new_coinbase(w.get_address(), String::from(data)).unwrap()
}

#[test]
fn test_cmd() {
    let mut ws = Wallets::new(&Vec::new()).unwrap();
    let wa1 = ws.create_wallet().unwrap();
    let bc = Blockchain::create_blockchain(wa1).unwrap();
    let utxo_set = UTXOSet::new(bc);
    let server = Server::new("7878", "localhost:3001", utxo_set).unwrap();

    let vmsg = Versionmsg {
        addr_from: String::from(server.node_address()),
        best_height: server.get_best_height(),
        version: VERSION,
    };
    let data = bincode::serialize(&(
        cmd_to_bytes("version"),
        (vmsg.addr_from.clone(), vmsg.version, vmsg.best_height),
    ))
    .unwrap();
    if let Message::Version(v) = bytes_to_cmd(&data).unwrap() {
        assert_eq!(v, vmsg);
    } else {
        panic!("wrong!");
    }
}

#[test]
fn a_version_message_round_trip() {
    let m = Message::Version(Versionmsg {
        addr_from: String::from("a:1"),
        version: 1,
        best_height: 3,
    });
    let bytes = m.to_bytes();
    let mut expected = b"version\0\0\0\0\0".to_vec();
    expected.extend_from_slice(&[3, 0, 0, 0, 0, 0, 0, 0, b'a', b':', b'1']);
    expected.extend_from_slice(&[1, 0, 0, 0, 3, 0, 0, 0]);
    assert_eq!(bytes, expected);
    assert_eq!(
        bytes,
        bincode::serialize(&(cmd_to_bytes("version"), (String::from("a:1"), 1i32, 3i32)))
            .unwrap()
    );
    assert_eq!(bytes_to_cmd(&bytes), Ok(m));
}

#[test]
fn every_kind_of_message_round_trips() {
    let tx = coinbase(1, "x");
    let block = Block::mine(vec![tx.clone()], String::from("p"), 2, 9).unwrap();
    let messages = vec![
        Message::Addr(vec![String::from("a:1"), String::from("b:2")]),
        Message::Addr(vec![]),
        Message::Version(Versionmsg {
            addr_from: String::from("n"),
            version: -1,
            best_height: i32::MAX,
        }),
        Message::Tx(Txmsg { addr_from: String::from("n"), transaction: tx }),
        Message::GetData(GetDatamsg {
            addr_from: String::from("n"),
            kind: String::from("block"),
            id: String::from("00ab"),
        }),
        Message::GetBlock(GetBlocksmsg { addr_from: String::new() }),
        Message::Inv(Invmsg {
            addr_from: String::from("n"),
            kind: String::from("tx"),
            items: vec![String::from("1"), String::from("2")],
        }),
        Message::Block(Blockmsg { addr_from: String::from("n"), block }),
    ];
    for m in messages {
        let bytes = m.to_bytes();
        assert_eq!(&bytes[..CMD_LEN], &cmd_to_bytes(m.command())[..]);
        assert_eq!(bytes_to_cmd(&bytes), Ok(m));
    }
}

#[test]
fn the_command_field_is_padded_with_zeros() {
    assert_eq!(CMD_LEN, 12);
    assert_eq!(cmd_to_bytes("tx"), [b't', b'x', 0, 0, 0, 0, 0, 0, 0, 0, 0, 0]);
    assert_eq!(cmd_to_bytes(""), [0u8; 12]);
    assert_eq!(cmd_to_bytes("getblocks")[8], b's');
    assert_eq!(cmd_to_bytes("abcdefghijklmnop"), *b"abcdefghijkl");
}

#[test]
fn what_is_no_message_is_a_protocol_error() {
    assert_eq!(bytes_to_cmd(&[]), Err(Error::ProtocolError));
    assert_eq!(bytes_to_cmd(b"version"), Err(Error::ProtocolError));
    let mut unknown = cmd_to_bytes("hello").to_vec();
    unknown.extend_from_slice(&[0; 8]);
    assert_eq!(bytes_to_cmd(&unknown), Err(Error::ProtocolError));
    let cut = cmd_to_bytes("version").to_vec();
    assert_eq!(bytes_to_cmd(&cut), Err(Error::ProtocolError));
    let mut bad = cmd_to_bytes("getblocks").to_vec();
    bad.extend_from_slice(&[1, 0, 0, 0, 0, 0, 0, 0, 0xff]);
    assert_eq!(bytes_to_cmd(&bad), Err(Error::ProtocolError));
}

#[test]
fn zeros_inside_the_command_field_are_passed_over() {
    let mut bytes = vec![0, b't', 0, 0, b'x', 0, 0, 0, 0, 0, 0, 0];
    let tx = coinbase(1, "x");
    bytes.extend_from_slice(&[1, 0, 0, 0, 0, 0, 0, 0, b'n']);
    bytes.extend_from_slice(&blockchain::codec::serialize(&tx));
    assert_eq!(
        bytes_to_cmd(&bytes),
        Ok(Message::Tx(Txmsg { addr_from: String::from("n"), transaction: tx }))
    );
}

#[test]
fn a_new_node_knows_the_first_node() {
    let s = empty_node("3001", "");
    assert_eq!(s.node_address(), "localhost:3001");
    assert_eq!(KNOWN_NODE1, "localhost:3000");
    assert_eq!(s.get_known_nodes(), vec![String::from("localhost:3000")]);
    assert!(s.node_is_known("localhost:3000"));
    assert!(!s.node_is_known("localhost:3001"));
    assert!(s.get_in_transit().is_empty());
    assert!(s.get_mempool().is_empty());
    assert_eq!(s.get_best_height(), -1);
}

#[test]
fn a_node_without_chain_asks_everyone_for_blocks() {
    let mut s = empty_node("3001", "");
    s.add_nodes("localhost:3002");
    s.add_nodes("localhost:3001");
    let out = s.start_messages();
    let ask = |to: &str| Outgoing {
        addr: String::from(to),
        message: Message::GetBlock(GetBlocksmsg { addr_from: String::from("localhost:3001") }),
    };
    assert_eq!(out, vec![ask("localhost:3000"), ask("localhost:3002")]);
}

#[test]
fn a_node_with_a_chain_sends_its_version_to_the_first_node() {
    let w = Wallet::from_seed(&[1u8; 32]);
    let set = cmd_create_blockchain(&w.get_address()).unwrap();
    let s = Server::new("3001", "", set).unwrap();
    assert_eq!(
        s.start_messages(),
        vec![Outgoing {
            addr: String::from("localhost:3000"),
            message: Message::Version(Versionmsg {
                addr_from: String::from("localhost:3001"),
                version: 1,
                best_height: 0,
            }),
        }]
    );
    let seed = Server::new("3000", "", UTXOSet::new(Blockchain::empty())).unwrap();
    assert!(seed.start_messages().is_empty());
}

#[test]
fn a_version_is_answered_by_the_heights() {
    let w = Wallet::from_seed(&[1u8; 32]);
    let set = cmd_create_blockchain(&w.get_address()).unwrap();
    let mut s = Server::new("3001", "", set).unwrap();
    let version = |h: i32| Versionmsg {
        addr_from: String::from("localhost:3005"),
        version: 1,
        best_height: h,
    };
    let addr = Outgoing {
        addr: String::from("localhost:3005"),
        message: Message::Addr(vec![String::from("localhost:3000")]),
    };

    let out = s.handle_version(version(5));
    assert_eq!(
        out,
        vec![
            Outgoing {
                addr: String::from("localhost:3005"),
                message: Message::GetBlock(GetBlocksmsg {
                    addr_from: String::from("localhost:3001")
                }),
            },
            addr,
        ]
    );
    assert!(s.node_is_known("localhost:3005"));

    let out = s.handle_version(version(-1));
    assert_eq!(out.len(), 2);
    assert_eq!(
        out[0].message,
        Message::Version(Versionmsg {
            addr_from: String::from("localhost:3001"),
            version: 1,
            best_height: 0,
        })
    );
    assert_eq!(
        out[1].message,
        Message::Addr(vec![String::from("localhost:3000"), String::from("localhost:3005")])
    );

    let out = s.handle_version(version(0));
    assert_eq!(out.len(), 1);
    assert_eq!(s.get_known_nodes().len(), 2);

    let own = Versionmsg {
        addr_from: String::from("localhost:3001"),
        version: 1,
        best_height: 9,
    };
    assert!(s.handle_version(own).is_empty());
}

#[test]
fn addresses_are_taken_note_of_once() {
    let mut s = empty_node("3001", "");
    s.handle_addr(vec![
        String::from("a:1"),
        String::from("localhost:3000"),
        String::from("a:1"),
        String::from("b:2"),
    ]);
    assert_eq!(
        s.get_known_nodes(),
        vec![String::from("localhost:3000"), String::from("a:1"), String::from("b:2")]
    );
    s.remove_node("a:1");
    assert_eq!(
        s.get_known_nodes(),
        vec![String::from("localhost:3000"), String::from("b:2")]
    );
    s.remove_node("nobody");
    assert_eq!(s.get_known_nodes().len(), 2);
}

#[test]
fn an_inventory_of_blocks_is_asked_for_one_by_one() {
    let mut s = empty_node("3001", "");
    let inv = Invmsg {
        addr_from: String::from("p:1"),
        kind: String::from("block"),
        items: vec![String::from("h3"), String::from("h2"), String::from("h3"), String::from("h1")],
    };
    let out = s.handle_inv(inv).unwrap();
    assert_eq!(
        out,
        vec![Outgoing {
            addr: String::from("p:1"),
            message: Message::GetData(GetDatamsg {
                addr_from: String::from("localhost:3001"),
                kind: String::from("block"),
                id: String::from("h3"),
            }),
        }]
    );
    assert_eq!(s.get_in_transit(), vec![String::from("h2"), String::from("h1")]);

    let empty = Invmsg { addr_from: String::from("p:1"), kind: String::from("block"), items: vec![] };
    assert_eq!(s.handle_inv(empty).err(), Some(Error::ProtocolError));
    assert_eq!(s.get_in_transit().len(), 2);

    let other = Invmsg {
        addr_from: String::from("p:1"),
        kind: String::from("other"),
        items: vec![String::from("x")],
    };
    assert!(s.handle_inv(other).unwrap().is_empty());
}

#[test]
fn an_inventory_of_a_transaction_is_asked_for_unless_it_is_there() {
    let mut s = empty_node("3001", "");
    let tx = coinbase(1, "x");
    let inv = |id: &str| Invmsg {
        addr_from: String::from("p:1"),
        kind: String::from("tx"),
        items: vec![String::from(id)],
    };
    let out = s.handle_inv(inv(&tx.id)).unwrap();
    assert_eq!(out.len(), 1);
    assert_eq!(
        out[0].message,
        Message::GetData(GetDatamsg {
            addr_from: String::from("localhost:3001"),
            kind: String::from("tx"),
            id: tx.id.clone(),
        })
    );
    s.insert_mempool(tx.clone());
    assert!(s.handle_inv(inv(&tx.id)).unwrap().is_empty());
    assert_eq!(s.get_mempool_tx(&tx.id), Some(tx.clone()));
    assert_eq!(s.get_mempool_tx("zz"), None);
    let mut changed = tx.clone();
    changed.vout.push(TXOutput { value: 1, pub_key_hash: vec![] });
    s.insert_mempool(changed.clone());
    assert_eq!(s.get_mempool(), vec![changed]);
    s.clear_mempool();
    assert!(s.get_mempool().is_empty());
}

#[test]
fn data_is_handed_out_on_request() {
    let w = Wallet::from_seed(&[1u8; 32]);
    let set = cmd_create_blockchain(&w.get_address()).unwrap();
    let genesis = set.blockchain.blocks_from_tip()[0].clone();
    let mut s = Server::new("3001", "", set).unwrap();
    let tx = coinbase(2, "pending");
    s.insert_mempool(tx.clone());
    let ask = |kind: &str, id: &str| GetDatamsg {
        addr_from: String::from("p:1"),
        kind: String::from(kind),
        id: String::from(id),
    };
    assert_eq!(
        s.handle_get_data(ask("block", &genesis.get_hash())).unwrap(),
        vec![Outgoing {
            addr: String::from("p:1"),
            message: Message::Block(Blockmsg {
                addr_from: String::from("localhost:3001"),
                block: genesis.clone(),
            }),
        }]
    );
    assert_eq!(
        s.handle_get_data(ask("tx", &tx.id)).unwrap(),
        vec![Outgoing {
            addr: String::from("p:1"),
            message: Message::Tx(Txmsg {
                addr_from: String::from("localhost:3001"),
                transaction: tx.clone(),
            }),
        }]
    );
    assert_eq!(s.handle_get_data(ask("block", "00")).err(), Some(Error::NotFound));
    assert_eq!(s.handle_get_data(ask("tx", "00")).err(), Some(Error::NotFound));
    assert!(s.handle_get_data(ask("other", "00")).unwrap().is_empty());

    let out = s.handle_get_blocks(GetBlocksmsg { addr_from: String::from("p:1") });
    assert_eq!(
        out,
        vec![Outgoing {
            addr: String::from("p:1"),
            message: Message::Inv(Invmsg {
                addr_from: String::from("localhost:3001"),
                kind: String::from("block"),
                items: vec![genesis.get_hash()],
            }),
        }]
    );
}

#[test]
fn blocks_are_taken_up_and_the_index_is_built_at_the_end() {
    let w = Wallet::from_seed(&[1u8; 32]);
    let mut source = cmd_create_blockchain(&w.get_address()).unwrap();
    source.blockchain.mine_block(vec![coinbase(2, "second")]).unwrap();
    let blocks = source.blockchain.blocks_from_tip();

    let mut s = empty_node("3001", "");
    s.replace_in_transit(vec![String::from("next")]);
    let out = s.handle_block(Blockmsg {
        addr_from: String::from("p:1"),
        block: blocks[1].clone(),
    });
    assert_eq!(
        out,
        vec![Outgoing {
            addr: String::from("p:1"),
            message: Message::GetData(GetDatamsg {
                addr_from: String::from("localhost:3001"),
                kind: String::from("block"),
                id: String::from("next"),
            }),
        }]
    );
    assert!(s.get_in_transit().is_empty());
    assert_eq!(s.get_best_height(), 0);
    assert_eq!(s.utxo().count_transactions(), 0);

    let out = s.handle_block(Blockmsg {
        addr_from: String::from("p:1"),
        block: blocks[0].clone(),
    });
    assert!(out.is_empty());
    assert_eq!(s.get_best_height(), 1);
    assert_eq!(s.utxo().count_transactions(), 2);
}

#[test]
fn the_first_node_tells_the_others_of_a_transaction() {
    let mut s = empty_node("3000", "");
    s.add_nodes("a:1");
    s.add_nodes("b:2");
    let tx = coinbase(1, "x");
    let out = s
        .handle_tx(Txmsg { addr_from: String::from("a:1"), transaction: tx.clone() })
        .unwrap();
    assert_eq!(
        out,
        vec![Outgoing {
            addr: String::from("b:2"),
            message: Message::Inv(Invmsg {
                addr_from: String::from("localhost:3000"),
                kind: String::from("tx"),
                items: vec![tx.id.clone()],
            }),
        }]
    );
    assert_eq!(s.get_mempool(), vec![tx]);
}

#[test]
fn a_node_that_does_not_mine_keeps_the_transaction() {
    let mut s = empty_node("3001", "");
    let tx = coinbase(1, "x");
    let out = s
        .handle_tx(Txmsg { addr_from: String::from("a:1"), transaction: tx.clone() })
        .unwrap();
    assert!(out.is_empty());
    assert_eq!(s.get_mempool(), vec![tx]);
}

#[test]
fn a_miner_mines_what_waits() {
    let w1 = Wallet::from_seed(&[1u8; 32]);
    let w2 = Wallet::from_seed(&[2u8; 32]);
    let miner = Wallet::from_seed(&[3u8; 32]);
    let set = cmd_create_blockchain(&w1.get_address()).unwrap();
    let tx = Transaction::new_UTXO(&w1, &w2.get_address(), 4, &set).unwrap();
    let mut s = Server::new("3001", &miner.get_address(), set).unwrap();
    s.add_nodes("b:2");
    let out = s
        .handle_tx(Txmsg { addr_from: String::from("a:1"), transaction: tx.clone() })
        .unwrap();
    assert_eq!(s.get_best_height(), 1);
    assert!(s.get_mempool().is_empty());
    let newest = s.utxo().blockchain.blocks_from_tip()[0].clone();
    assert_eq!(newest.get_transaction().len(), 2);
    assert_eq!(newest.get_transaction()[0], tx);
    assert!(newest.get_transaction()[1].is_coinbase());
    let inv = |to: &str| Outgoing {
        addr: String::from(to),
        message: Message::Inv(Invmsg {
            addr_from: String::from("localhost:3001"),
            kind: String::from("block"),
            items: vec![newest.get_hash()],
        }),
    };
    assert_eq!(out, vec![inv("localhost:3000"), inv("b:2")]);
    let mut h1 = w1.public_key.clone();
    blockchain::wallets::hash_pub_key(&mut h1);
    assert_eq!(s.utxo().get_balance(&h1), 6);
}

#[test]
fn a_miner_leaves_alone_what_does_not_verify() {
    let w1 = Wallet::from_seed(&[1u8; 32]);
    let w2 = Wallet::from_seed(&[2u8; 32]);
    let miner = Wallet::from_seed(&[3u8; 32]);
    let set = cmd_create_blockchain(&w1.get_address()).unwrap();
    let mut tx = Transaction::new_UTXO(&w1, &w2.get_address(), 4, &set).unwrap();
    tx.vin[0].signature[1] ^= 1;
    let mut s = Server::new("3001", &miner.get_address(), set).unwrap();
    let out = s
        .handle_tx(Txmsg { addr_from: String::from("a:1"), transaction: tx.clone() })
        .unwrap();
    assert!(out.is_empty());
    assert_eq!(s.get_best_height(), 0);
    assert_eq!(s.get_mempool(), vec![tx]);
}

#[test]
fn bytes_from_a_peer_are_dispatched() {
    let mut s = empty_node("3001", "");
    let m = Message::Addr(vec![String::from("a:1")]);
    assert_eq!(s.handle_connection(&m.to_bytes()), Ok(vec![]));
    assert!(s.node_is_known("a:1"));
    assert_eq!(s.handle_connection(&[1, 2, 3]).err(), Some(Error::ProtocolError));
    let v = Message::Version(Versionmsg {
        addr_from: String::from("a:1"),
        version: 1,
        best_height: 4,
    });
    let out = s.handle_connection(&v.to_bytes()).unwrap();
    assert_eq!(out.len(), 2);
    assert_eq!(out[0].addr, "a:1");
}

#[test]
fn a_transaction_is_sent_to_the_first_node() {
    let tx = coinbase(1, "x");
    let out = Server::send_transaction(&tx, UTXOSet::new(Blockchain::empty())).unwrap();
    assert_eq!(
        out,
        vec![Outgoing {
            addr: String::from("localhost:3000"),
            message: Message::Tx(Txmsg {
                addr_from: String::from("localhost:7000"),
                transaction: tx.clone(),
            }),
        }]
    );
    let s = empty_node("3000", "");
    assert!(s.send_tx("localhost:3000", &tx).is_empty());
    assert_eq!(s.send_tx("a:1", &tx).len(), 1);
}

#[test]
fn a_miner_hands_out_the_blocks_it_mined() {
    let w1 = Wallet::from_seed(&[1u8; 32]);
    let w2 = Wallet::from_seed(&[2u8; 32]);
    let miner = Wallet::from_seed(&[3u8; 32]);
    let set = cmd_create_blockchain(&w1.get_address()).unwrap();
    let tx = Transaction::new_UTXO(&w1, &w2.get_address(), 10, &set).unwrap();
    let mut s = Server::new("3001", &miner.get_address(), set).unwrap();

    let (blocks, out) = s.mine_pending();
    assert!(blocks.is_empty());
    assert_eq!(out, Ok(vec![]));

    s.insert_mempool(tx.clone());
    let (rest, mined, out) = s.mine_round(&vec![tx.clone()]).unwrap();
    assert!(rest.is_empty());
    let first = mined.unwrap();
    assert_eq!(first.get_height(), 1);
    assert_eq!(out.len(), 1);
    assert_eq!(s.get_mempool(), vec![tx.clone()]);

    let (blocks, out) = s.mine_pending();
    assert_eq!(blocks.len(), 1);
    assert_eq!(blocks[0].get_height(), 2);
    assert_eq!(blocks[0].get_prev_hash(), first.get_hash());
    assert_eq!(blocks[0].get_transaction()[0], tx);
    assert_eq!(out.unwrap().len(), 1);
    assert!(s.get_mempool().is_empty());
    assert_eq!(s.get_best_height(), 2);

    let bad = Server::new(
        "3002",
        "nobody",
        cmd_create_blockchain(&w1.get_address()).unwrap(),
    );
    let mut bad = bad.unwrap();
    bad.insert_mempool(coinbase(1, "waits"));
    let (blocks, out) = bad.mine_pending();
    assert!(blocks.is_empty());
    assert_eq!(out, Err(Error::AddressError));
    assert_eq!(bad.get_mempool().len(), 1);
}
