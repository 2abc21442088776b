//! The commands of the node, on the chain, the index and the wallets that
//! the caller has opened.

use vstd::prelude::*;
use vstd::string::*;
use crate::address::{base58check_payload, decode_address};
use crate::block::{Block, BlockView};
use crate::blockchain::{genesis_chain, genesis_failure, mining_done, Blockchain, ChainView};
use crate::codec::{lemma_list_view_push, list_view};
use crate::error::Error;
use crate::server::{MessageView, Outgoing, Server, KNOWN_NODE1};
use crate::signing::{PUBLIC_KEY_LEN, SECRET_KEY_LEN};
use crate::transaction::{coinbase_outcome, Transaction, TransactionView};
use crate::utxoset::{
    apply_txs, balance_of, payment_draft, utxo_of, UTXOSet, UtxoView,
};
use crate::wallets::{address_of, entry_index, put_entry, WalletView, Wallets};

verus! {

/// The command line of the node.
pub struct Cli {}

impl Cli {
    /// A command line.
    pub fn new() -> Cli {
        Cli {  }
    }
}

/// Makes a wallet, keeps it among `wallets`, and gives its address.
pub fn cmd_create_wallet(wallets: &mut Wallets) -> (r: Result<String, Error>)
    requires
        old(wallets).wf(),
    ensures
        final(wallets).wf(),
        match r {
            Ok(address) => {
                let w = final(wallets)@[entry_index(final(wallets)@, address@).unwrap()].1;
                &&& entry_index(final(wallets)@, address@) is Some
                &&& address@ == address_of(w.public_key)
                &&& w.secret_key.len() == SECRET_KEY_LEN
                &&& w.public_key.len() == PUBLIC_KEY_LEN
                &&& final(wallets)@ == put_entry(old(wallets)@, address@, w)
            },
            Err(e) => e == Error::StorageError && final(wallets)@ == old(wallets)@,
        },
{
    wallets.create_wallet()
}

/// Builds the index of `utxo_set` anew, and counts the transactions in it.
pub fn cmd_reindex(utxo_set: &mut UTXOSet) -> (count: i32)
    requires
        old(utxo_set).wf(),
    ensures
        final(utxo_set).wf(),
        final(utxo_set).chain() == old(utxo_set).chain(),
        final(utxo_set).index() == utxo_of(old(utxo_set).chain().transactions()),
        count == if final(utxo_set).index().len() > i32::MAX {
            i32::MAX as int
        } else {
            final(utxo_set).index().len() as int
        },
{
    utxo_set.reindex();
    utxo_set.count_transactions()
}

/// Makes a chain whose first block pays `address`, with its index.
pub fn cmd_create_blockchain(address: &str) -> (r: Result<UTXOSet, Error>)
    ensures
        match r {
            Ok(set) => set.wf() && genesis_chain(address@, set.chain()) && set.index() == utxo_of(
                set.chain().transactions(),
            ),
            Err(e) => genesis_failure(address@, e),
        },
{
    let bc = match Blockchain::create_blockchain(String::from_str(address)) {
        Ok(bc) => bc,
        Err(e) => { return Err(e); },
    };
    let mut utxo_set = UTXOSet::new(bc);
    utxo_set.reindex();
    Ok(utxo_set)
}

/// What is locked to `address` in the index; `AddressError` where
/// `address` is not well formed.
pub fn cmd_get_balance(address: &str, utxo_set: &UTXOSet) -> (r: Result<i32, Error>)
    requires
        utxo_set.wf(),
    ensures
        match r {
            Ok(balance) => base58check_payload(address@) is Some && balance == balance_of(
                utxo_set.index(),
                base58check_payload(address@).unwrap(),
            ),
            Err(e) => e == Error::AddressError && base58check_payload(address@) is None,
        },
{
    match decode_address(address) {
        Ok(pub_key_hash) => Ok(utxo_set.get_balance(pub_key_hash.as_slice())),
        Err(e) => Err(e),
    }
}

/// The blocks of the chain, from the newest back to the first.
pub fn cmd_print_chain(bc: &Blockchain) -> (r: Vec<Block>)
    requires
        bc.wf(),
    ensures
        list_view(r@) == bc@.path(),
{
    bc.blocks_from_tip()
}

/// The addresses of the wallets.
pub fn cmd_list_address(wallets: &Wallets) -> (r: Vec<String>)
    ensures
        r@.len() == wallets@.len(),
        forall|i: int| 0 <= i < r@.len() ==> (#[trigger] r@[i])@ == wallets@[i].0,
{
    wallets.get_all_addresses()
}

/// What a payment that was made has led to: the block that was mined for
/// it, if one was, and the messages to send.
#[derive(Debug)]
pub struct Sent {
    pub block: Option<Block>,
    pub messages: Vec<Outgoing>,
}

/// The text that the coinbase of a block mined for a payment carries.
pub const REWARD_DATA: &'static str = "reward!";

/// Whether `sent` and the chain and index `after` are what paying with
/// the signed transaction `tx` from the address `from` leads to. With
/// `mine_now` a block that holds a coinbase for `from` and `tx` is mined on
/// top of the chain, and the index is brought up to date with it.
/// Otherwise the transaction is handed to the first node, and nothing changes.
pub open spec fn payment_sent(
    from: Seq<char>,
    tx: TransactionView,
    mine_now: bool,
    before: (ChainView, UtxoView),
    sent: (Option<BlockView>, Seq<(Seq<char>, MessageView)>),
    after: (ChainView, UtxoView),
) -> bool {
    if mine_now {
        &&& sent.0 is Some
        &&& sent.1.len() == 0
        &&& coinbase_outcome(from, REWARD_DATA@) is Ok
        &&& mining_done(
            before.0,
            seq![coinbase_outcome(from, REWARD_DATA@).unwrap(), tx],
            Ok(sent.0.unwrap()),
            after.0,
        )
        &&& apply_txs(before.1, sent.0.unwrap().transactions) == Some(after.1)
    } else {
        &&& sent.0 is None
        &&& after == before
        &&& sent.1 == seq![
            (
                KNOWN_NODE1@,
                MessageView::Tx { addr_from: "localhost:"@ + "7000"@, transaction: tx },
            ),
        ]
    }
}

/// Whether `e`, and the chain and index `after`, are what a payment that
/// failed leads to. `NotFound` where there is no wallet at `from`;
/// `StorageError` where its keys do not have their lengths; then the error
/// of the draft, of signing it, of the coinbase or of mining: in all these
/// the chain and the index stay as they were. `NotFound` too where the
/// block was mined but the index does not hold a transaction that the
/// block spends from: the block is on the chain then, and the index is as
/// it was.
pub open spec fn payment_failed(
    from: Seq<char>,
    to: Seq<char>,
    amount: i32,
    mine_now: bool,
    wallets: Seq<(Seq<char>, WalletView)>,
    before: (ChainView, UtxoView),
    e: Error,
    after: (ChainView, UtxoView),
) -> bool {
    match entry_index(wallets, from) {
        None => e == Error::NotFound && after == before,
        Some(i) => {
            let w = wallets[i].1;
            if w.secret_key.len() != SECRET_KEY_LEN || w.public_key.len() != PUBLIC_KEY_LEN {
                e == Error::StorageError && after == before
            } else {
                match payment_draft(w.public_key, to, amount, before.1) {
                    Err(d) => e == d && after == before,
                    Ok(draft) => match draft.obstacle(before.0.transactions()) {
                        Some(o) => e == o && after == before,
                        None => mine_now && match coinbase_outcome(from, REWARD_DATA@) {
                            Err(c) => e == c && after == before,
                            Ok(cb) => {
                                let txs = seq![
                                    cb,
                                    draft.signed(w.secret_key, before.0.transactions()),
                                ];
                                &&& after.1 == before.1
                                &&& mining_done(before.0, txs, Err(e), after.0) || (e
                                    == Error::NotFound && exists|b: BlockView|
                                    #[trigger] mining_done(before.0, txs, Ok(b), after.0)
                                        && apply_txs(before.1, b.transactions) is None)
                            },
                        },
                    },
                }
            }
        },
    }
}

/// Pays `amount` from the wallet at the address `from` to the address `to`.
/// With `mine_now` a block that holds a coinbase for `from` and the payment
/// is mined at once, and the index is brought up to date with it;
/// otherwise the payment is handed to the first node.
pub fn cmd_send(
    from: &str,
    to: &str,
    amount: i32,
    mine_now: bool,
    wallets: &Wallets,
    utxo_set: &mut UTXOSet,
) -> (r: Result<Sent, Error>)
    requires
        wallets.wf(),
        old(utxo_set).wf(),
    ensures
        final(utxo_set).wf(),
        match r {
            Ok(sent) => {
                &&& entry_index(wallets@, from@) is Some
                &&& match payment_draft(
                    wallets@[entry_index(wallets@, from@).unwrap()].1.public_key,
                    to@,
                    amount,
                    old(utxo_set).index(),
                ) {
                    Ok(draft) => payment_sent(
                        from@,
                        draft.signed(
                            wallets@[entry_index(wallets@, from@).unwrap()].1.secret_key,
                            old(utxo_set).chain().transactions(),
                        ),
                        mine_now,
                        (old(utxo_set).chain(), old(utxo_set).index()),
                        (
                            match sent.block {
                                Some(b) => Some(b@),
                                None => None,
                            },
                            list_view(sent.messages@),
                        ),
                        (final(utxo_set).chain(), final(utxo_set).index()),
                    ),
                    Err(_) => false,
                }
            },
            Err(e) => payment_failed(
                from@,
                to@,
                amount,
                mine_now,
                wallets@,
                (old(utxo_set).chain(), old(utxo_set).index()),
                e,
                (final(utxo_set).chain(), final(utxo_set).index()),
            ),
        },
{
    let wallet = match wallets.get_wallet(from) {
        Some(w) => w,
        None => { return Err(Error::NotFound); },
    };
    if wallet.secret_key.len() != SECRET_KEY_LEN || wallet.public_key.len() != PUBLIC_KEY_LEN {
        return Err(Error::StorageError);
    }
    let tx = match Transaction::new_UTXO(wallet, to, amount, utxo_set) {
        Ok(tx) => tx,
        Err(e) => { return Err(e); },
    };
    if mine_now {
        let cbtx = match Transaction::new_coinbase(
            String::from_str(from),
            String::from_str(REWARD_DATA),
        ) {
            Ok(tx) => tx,
            Err(e) => { return Err(e); },
        };
        let mut txs: Vec<Transaction> = Vec::new();
        proof {
            lemma_list_view_push(txs@, cbtx);
            lemma_list_view_push(txs@.push(cbtx), tx);
            assert(list_view(txs@).push(cbtx@).push(tx@) =~= seq![cbtx@, tx@]);
        }
        txs.push(cbtx);
        txs.push(tx);
        let new_block = match utxo_set.mine_block(txs) {
            Ok(b) => b,
            Err(e) => { return Err(e); },
        };
        match utxo_set.update(&new_block) {
            Ok(_) => {},
            Err(e) => {
                assert(mining_done(
                    old(utxo_set).chain(),
                    seq![cbtx@, tx@],
                    Ok(new_block@),
                    utxo_set.chain(),
                ) && apply_txs(old(utxo_set).index(), new_block@.transactions) is None);
                return Err(e);
            },
        }
        Ok(Sent { block: Some(new_block), messages: Vec::new() })
    } else {
        let messages = match Server::send_transaction(
            &tx,
            UTXOSet::new(Blockchain::empty()),
        ) {
            Ok(m) => m,
            Err(e) => { return Err(e); },
        };
        Ok(Sent { block: None, messages })
    }
}

} // verus!
