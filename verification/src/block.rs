//! Blocks: a list of transactions under a header that carries a proof of work.

use vstd::prelude::*;
use vstd::string::*;
use crate::codec::{
    dec_i32, dec_list, dec_str, dec_u128, enc_bytes, enc_i32, enc_list, enc_str, enc_u128,
    enc_u64, get_i32, get_list, get_str, get_u128, lemma_i32_roundtrip, lemma_list_roundtrip,
    lemma_list_view_push, lemma_str_roundtrip, lemma_u128_roundtrip, list_bounded, list_view,
    put_bytes, put_i32, put_list, put_str, put_u128, put_u64, Wire,
};
use crate::error::Error;
use crate::hashing::{hashable, hex, sha256_digest, sha256_hex};
use crate::merkle::{build_root, tree_root};
use crate::transaction::{Transaction, TransactionView};

verus! {

/// The number of leading hexadecimal zeros that the hash of a block has.
pub const TARGET_HEXS: usize = 4;

/// A block.
#[derive(Debug, PartialEq, Eq)]
pub struct Block {
    timestamp: u128,
    transactions: Vec<Transaction>,
    prev_block_hash: String,
    hash: String,
    nonce: i32,
    height: i32,
}

/// What a `Block` holds.
pub struct BlockView {
    pub timestamp: u128,
    pub transactions: Seq<TransactionView>,
    pub prev_block_hash: Seq<char>,
    pub hash: Seq<char>,
    pub nonce: i32,
    pub height: i32,
}

impl View for Block {
    type V = BlockView;

    closed spec fn view(&self) -> BlockView {
        BlockView {
            timestamp: self.timestamp,
            transactions: list_view(self.transactions@),
            prev_block_hash: self.prev_block_hash@,
            hash: self.hash@,
            nonce: self.nonce,
            height: self.height,
        }
    }
}

/// Whether a hash starts with as many zeros as the target asks for.
pub open spec fn meets_target(hash: Seq<char>) -> bool {
    &&& hash.len() >= TARGET_HEXS
    &&& forall|i: int| 0 <= i < TARGET_HEXS ==> hash[i] == '0'
}

impl BlockView {
    /// The leaves of the Merkle tree: the digest of each transaction.
    pub open spec fn leaves(self) -> Seq<Seq<u8>> {
        Seq::new(self.transactions.len(), |i: int| self.transactions[i].digest())
    }

    /// The Merkle root of the transactions.
    pub open spec fn merkle_root(self) -> Seq<u8> {
        tree_root(self.leaves())
    }

    /// The header with `nonce` in the place of the nonce: the hash of the
    /// block before, the Merkle root, the time, the target and the nonce.
    pub open spec fn header(self, nonce: i32) -> Seq<u8> {
        enc_str(self.prev_block_hash) + enc_bytes(self.merkle_root()) + enc_u128(self.timestamp)
            + enc_u64(TARGET_HEXS as u64) + enc_i32(nonce)
    }

    /// The hash that the block has with `nonce`: the SHA-256 digest of the
    /// header, in hexadecimal.
    pub open spec fn hash_at(self, nonce: i32) -> Seq<char> {
        hex(sha256_digest(self.header(nonce)))
    }

    /// Whether every transaction and the header are short enough to be hashed.
    pub open spec fn hashable(self) -> bool {
        &&& forall|i: int|
            0 <= i < self.transactions.len() ==> hashable(
                (#[trigger] self.transactions[i]).hash_payload(),
            )
        &&& hashable(self.header(0))
    }

    /// Whether the block carries its proof of work: its hash is the hash of
    /// its header and meets the target.
    pub open spec fn is_valid(self) -> bool {
        &&& self.hashable()
        &&& self.hash == self.hash_at(self.nonce)
        &&& meets_target(self.hash)
    }

    /// The block with `hash` and `nonce` in the place of its own.
    pub open spec fn sealed(self, hash: Seq<char>, nonce: i32) -> BlockView {
        BlockView {
            timestamp: self.timestamp,
            transactions: self.transactions,
            prev_block_hash: self.prev_block_hash,
            hash,
            nonce,
            height: self.height,
        }
    }
}

/// A block that is not mined yet: it has no hash, and nonce 0.
pub open spec fn blank_block(
    timestamp: u128,
    transactions: Seq<TransactionView>,
    prev_block_hash: Seq<char>,
    height: i32,
) -> BlockView {
    BlockView {
        timestamp,
        transactions,
        prev_block_hash,
        hash: Seq::empty(),
        nonce: 0i32,
        height,
    }
}

/// What mining a block gives: the least nonce from 0 up with which the
/// hash meets the target. `EncodingError` where a transaction or the header
/// is too long to be hashed, `NotFound` where no nonce meets the target.
pub open spec fn mined(blank: BlockView, r: Result<BlockView, Error>) -> bool {
    match r {
        Ok(b) => {
            &&& b == blank.sealed(b.hash, b.nonce)
            &&& b.is_valid()
            &&& b.nonce >= 0
            &&& forall|k: i32| 0 <= k < b.nonce ==> !meets_target(#[trigger] blank.hash_at(k))
        },
        Err(e) => if blank.hashable() {
            &&& e == Error::NotFound
            &&& forall|k: i32| 0 <= k ==> !meets_target(#[trigger] blank.hash_at(k))
        } else {
            e == Error::EncodingError
        },
    }
}

/// Whether `e` is what keeps a block from being made now: a clock that
/// cannot be read, or the error of mining at some time.
pub open spec fn making_fails(
    transactions: Seq<TransactionView>,
    prev_block_hash: Seq<char>,
    height: i32,
    e: Error,
) -> bool {
    e == Error::StorageError || exists|timestamp: u128|
        mined(#[trigger] blank_block(timestamp, transactions, prev_block_hash, height), Err(e))
}

/// `SystemTime::now` of std, as milliseconds since the Unix epoch; nothing
/// where the clock stands before the epoch.
#[verifier::external_body]
fn now_millis() -> (r: Option<u128>) {
    match std::time::SystemTime::now().duration_since(std::time::UNIX_EPOCH) {
        Ok(d) => Some(d.as_millis()),
        Err(_) => None,
    }
}

/// Whether `hash` starts with as many zeros as the target asks for.
pub fn check_target(hash: &str) -> (r: bool)
    ensures
        r == meets_target(hash@),
{
    if hash.unicode_len() < TARGET_HEXS {
        return false;
    }
    let mut i: usize = 0;
    while i < TARGET_HEXS
        invariant
            i <= TARGET_HEXS,
            hash@.len() >= TARGET_HEXS,
            forall|j: int| 0 <= j < i ==> hash@[j] == '0',
        decreases TARGET_HEXS - i,
    {
        if hash.get_char(i) != '0' {
            return false;
        }
        i = i + 1;
    }
    true
}

impl Clone for Block {
    fn clone(&self) -> (r: Self)
        ensures
            r@ == self@,
    {
        Block {
            timestamp: self.timestamp,
            transactions: copy_transactions(&self.transactions),
            prev_block_hash: self.prev_block_hash.clone(),
            hash: self.hash.clone(),
            nonce: self.nonce,
            height: self.height,
        }
    }
}

/// A copy of a list of transactions.
pub fn copy_transactions(v: &Vec<Transaction>) -> (r: Vec<Transaction>)
    ensures
        list_view(r@) == list_view(v@),
{
    let mut r: Vec<Transaction> = Vec::new();
    let mut i: usize = 0;
    while i < v.len()
        invariant
            i <= v@.len(),
            list_view(r@) == list_view(v@.subrange(0, i as int)),
        decreases v@.len() - i,
    {
        let ghost before = r@;
        let item = v[i].clone();
        proof {
            lemma_list_view_push(before, item);
            lemma_list_view_push(v@.subrange(0, i as int), v@[i as int]);
            assert(v@.subrange(0, i + 1) =~= v@.subrange(0, i as int).push(v@[i as int]));
        }
        r.push(item);
        i = i + 1;
    }
    assert(v@.subrange(0, i as int) =~= v@);
    r
}

impl Block {
    /// The hash of the block.
    pub fn get_hash(&self) -> (r: String)
        ensures
            r@ == self@.hash,
    {
        self.hash.clone()
    }

    /// The hash of the block before this one; empty for a first block.
    pub fn get_prev_hash(&self) -> (r: String)
        ensures
            r@ == self@.prev_block_hash,
    {
        self.prev_block_hash.clone()
    }

    /// The transactions of the block.
    pub fn get_transaction(&self) -> (r: &Vec<Transaction>)
        ensures
            list_view(r@) == self@.transactions,
    {
        &self.transactions
    }

    /// The height of the block in its chain.
    pub fn get_height(&self) -> (r: i32)
        ensures
            r == self@.height,
    {
        self.height
    }

    /// The nonce of the block.
    pub fn get_nonce(&self) -> (r: i32)
        ensures
            r == self@.nonce,
    {
        self.nonce
    }

    /// The time at which the block was made, in milliseconds since the
    /// Unix epoch.
    pub fn get_timestamp(&self) -> (r: u128)
        ensures
            r == self@.timestamp,
    {
        self.timestamp
    }

    /// The Merkle root of the transactions; `EncodingError` where one of
    /// them is too long to be hashed.
    pub fn hash_transactions(&self) -> (r: Result<Vec<u8>, Error>)
        ensures
            match r {
                Ok(root) => root@ == self@.merkle_root() && forall|i: int|
                    0 <= i < self@.transactions.len() ==> hashable(
                        (#[trigger] self@.transactions[i]).hash_payload(),
                    ),
                Err(e) => e == Error::EncodingError && exists|i: int|
                    0 <= i < self@.transactions.len() && !hashable(
                        (#[trigger] self@.transactions[i]).hash_payload(),
                    ),
            },
    {
        let mut leaves: Vec<Vec<u8>> = Vec::new();
        let mut i: usize = 0;
        while i < self.transactions.len()
            invariant
                i <= self.transactions@.len(),
                leaves@.len() == i,
                forall|j: int|
                    0 <= j < i ==> hashable((#[trigger] self@.transactions[j]).hash_payload()),
                forall|j: int|
                    0 <= j < i ==> (#[trigger] leaves@[j])@ == self@.transactions[j].digest()
                        && leaves@[j]@.len() == 32,
            decreases self.transactions@.len() - i,
        {
            match self.transactions[i].digest() {
                Ok(d) => {
                    leaves.push(d);
                },
                Err(e) => {
                    assert(!hashable(self@.transactions[i as int].hash_payload()));
                    return Err(e);
                },
            }
            i = i + 1;
        }
        assert(list_view(leaves@) =~= self@.leaves());
        Ok(build_root(&leaves))
    }

    /// The header of the block over the Merkle root `root`, with `nonce` in
    /// the place of the nonce.
    pub fn header_with(&self, root: &Vec<u8>, nonce: i32) -> (data: Vec<u8>)
        requires
            root@ == self@.merkle_root(),
        ensures
            data@ == self@.header(nonce),
    {
        let mut data: Vec<u8> = Vec::new();
        put_str(&mut data, self.prev_block_hash.as_str());
        put_bytes(&mut data, root.as_slice());
        put_u128(&mut data, self.timestamp);
        put_u64(&mut data, TARGET_HEXS as u64);
        put_i32(&mut data, nonce);
        assert(data@ =~= self@.header(nonce));
        data
    }

    /// The header of the block, as it is hashed; `EncodingError` where a
    /// transaction is too long to be hashed.
    pub fn prepare_hash_data(&self) -> (r: Result<Vec<u8>, Error>)
        ensures
            match r {
                Ok(data) => data@ == self@.header(self@.nonce) && forall|i: int|
                    0 <= i < self@.transactions.len() ==> hashable(
                        (#[trigger] self@.transactions[i]).hash_payload(),
                    ),
                Err(e) => e == Error::EncodingError && exists|i: int|
                    0 <= i < self@.transactions.len() && !hashable(
                        (#[trigger] self@.transactions[i]).hash_payload(),
                    ),
            },
    {
        match self.hash_transactions() {
            Ok(root) => Ok(self.header_with(&root, self.nonce)),
            Err(e) => Err(e),
        }
    }

    /// Whether the block carries its proof of work: its hash is the hash of
    /// its header and starts with as many zeros as the target asks for.
    /// `EncodingError` where a transaction or the header is too long to be
    /// hashed.
    pub fn validate(&self) -> (r: Result<bool, Error>)
        ensures
            match r {
                Ok(ok) => self@.hashable() && ok == self@.is_valid(),
                Err(e) => e == Error::EncodingError && !self@.hashable(),
            },
    {
        let data = match self.prepare_hash_data() {
            Ok(d) => d,
            Err(e) => { return Err(e); },
        };
        proof {
            lemma_header_len(self@, self@.nonce);
        }
        match sha256_hex(data.as_slice()) {
            Ok(h) => Ok(h == self.hash && check_target(h.as_str())),
            Err(e) => Err(e),
        }
    }

    /// Looks for the least nonce, from the nonce of the block up, with which
    /// the hash meets the target, and gives the block that nonce and that
    /// hash. Where there is none, or something is too long to be hashed,
    /// the block is left as it was.
    pub fn run_proof_of_work(&mut self) -> (r: Result<(), Error>)
        ensures
            match r {
                Ok(_) => {
                    &&& final(self)@ == old(self)@.sealed(final(self)@.hash, final(self)@.nonce)
                    &&& final(self)@.is_valid()
                    &&& final(self)@.nonce >= old(self)@.nonce
                    &&& forall|k: i32|
                        old(self)@.nonce <= k < final(self)@.nonce ==> !meets_target(
                            #[trigger] old(self)@.hash_at(k),
                        )
                },
                Err(e) => {
                    &&& final(self)@ == old(self)@
                    &&& if old(self)@.hashable() {
                        &&& e == Error::NotFound
                        &&& forall|k: i32|
                            old(self)@.nonce <= k ==> !meets_target(
                                #[trigger] old(self)@.hash_at(k),
                            )
                    } else {
                        e == Error::EncodingError
                    }
                },
            },
    {
        let root = match self.hash_transactions() {
            Ok(root) => root,
            Err(e) => { return Err(e); },
        };
        let ghost blank = self@;
        let mut nonce: i32 = self.nonce;
        loop
            invariant
                self@ == blank,
                blank == old(self)@,
                root@ == blank.merkle_root(),
                blank.nonce <= nonce,
                forall|i: int|
                    0 <= i < blank.transactions.len() ==> hashable(
                        (#[trigger] blank.transactions[i]).hash_payload(),
                    ),
                forall|k: i32| blank.nonce <= k < nonce ==> !meets_target(#[trigger] blank.hash_at(k)),
            decreases i32::MAX - nonce,
        {
            let data = self.header_with(&root, nonce);
            proof {
                lemma_header_len(blank, nonce);
            }
            match sha256_hex(data.as_slice()) {
                Ok(h) => {
                    if check_target(h.as_str()) {
                        self.hash = h;
                        self.nonce = nonce;
                        proof {
                            let done = self@;
                            assert(done.leaves() =~= blank.leaves());
                            assert(done.header(nonce) == blank.header(nonce));
                            lemma_header_len(done, nonce);
                        }
                        return Ok(());
                    }
                },
                Err(e) => {
                    return Err(e);
                },
            }
            if nonce == i32::MAX {
                return Err(Error::NotFound);
            }
            nonce = nonce + 1;
        }
    }

    /// Mines a block over `transactions` that follows the block with the hash
    /// `prev_block_hash`, made at the time `timestamp`.
    pub fn mine(
        transactions: Vec<Transaction>,
        prev_block_hash: String,
        height: i32,
        timestamp: u128,
    ) -> (r: Result<Block, Error>)
        ensures
            match r {
                Ok(b) => mined(
                    blank_block(timestamp, list_view(transactions@), prev_block_hash@, height),
                    Ok(b@),
                ),
                Err(e) => mined(
                    blank_block(timestamp, list_view(transactions@), prev_block_hash@, height),
                    Err(e),
                ),
            },
    {
        let mut block = Block {
            timestamp,
            transactions,
            prev_block_hash,
            hash: String::new(),
            nonce: 0,
            height,
        };
        match block.run_proof_of_work() {
            Ok(_) => Ok(block),
            Err(e) => Err(e),
        }
    }

    /// Mines a block made now. `StorageError` where the clock cannot be read.
    pub fn new_block(transactions: Vec<Transaction>, prev_block_hash: String, height: i32) -> (r:
        Result<Block, Error>)
        ensures
            match r {
                Ok(b) => mined(
                    blank_block(
                        b@.timestamp,
                        list_view(transactions@),
                        prev_block_hash@,
                        height,
                    ),
                    Ok(b@),
                ),
                Err(e) => making_fails(list_view(transactions@), prev_block_hash@, height, e),
            },
    {
        match now_millis() {
            Some(timestamp) => Block::mine(transactions, prev_block_hash, height, timestamp),
            None => Err(Error::StorageError),
        }
    }

    /// Mines the first block of a chain, which holds `coinbase` alone.
    pub fn new_genesis_block(coinbase: Transaction) -> (r: Result<Block, Error>)
        ensures
            match r {
                Ok(b) => mined(
                    blank_block(b@.timestamp, seq![coinbase@], Seq::empty(), 0),
                    Ok(b@),
                ),
                Err(e) => making_fails(seq![coinbase@], Seq::empty(), 0, e),
            },
    {
        let mut transactions: Vec<Transaction> = Vec::new();
        proof {
            lemma_list_view_push(transactions@, coinbase);
            assert(list_view(transactions@).push(coinbase@) =~= seq![coinbase@]);
        }
        transactions.push(coinbase);
        Block::new_block(transactions, String::new(), 0)
    }
}

/// The length of the header does not depend on the nonce.
pub proof fn lemma_header_len(b: BlockView, nonce: i32)
    ensures
        b.header(nonce).len() == b.header(0).len(),
        hashable(b.header(nonce)) == hashable(b.header(0)),
{
    lemma_i32_roundtrip(nonce, Seq::empty());
    lemma_i32_roundtrip(0, Seq::empty());
}

impl Wire for Block {
    open spec fn bounded(v: BlockView) -> bool {
        &&& list_bounded::<Transaction>(v.transactions)
        &&& String::bounded(v.prev_block_hash)
        &&& String::bounded(v.hash)
    }

    open spec fn enc(v: BlockView) -> Seq<u8> {
        enc_u128(v.timestamp) + enc_list::<Transaction>(v.transactions) + enc_str(
            v.prev_block_hash,
        ) + enc_str(v.hash) + enc_i32(v.nonce) + enc_i32(v.height)
    }

    open spec fn dec(s: Seq<u8>) -> Option<(BlockView, Seq<u8>)> {
        match dec_u128(s) {
            Some((timestamp, s1)) => match dec_list::<Transaction>(s1) {
                Some((transactions, s2)) => match dec_str(s2) {
                    Some((prev_block_hash, s3)) => match dec_str(s3) {
                        Some((hash, s4)) => match dec_i32(s4) {
                            Some((nonce, s5)) => match dec_i32(s5) {
                                Some((height, s6)) => Some(
                                    (
                                        BlockView {
                                            timestamp,
                                            transactions,
                                            prev_block_hash,
                                            hash,
                                            nonce,
                                            height,
                                        },
                                        s6,
                                    ),
                                ),
                                None => None,
                            },
                            None => None,
                        },
                        None => None,
                    },
                    None => None,
                },
                None => None,
            },
            None => None,
        }
    }

    proof fn lemma_roundtrip(v: BlockView, rest: Seq<u8>) {
        let r5 = enc_i32(v.height) + rest;
        let r4 = enc_i32(v.nonce) + r5;
        let r3 = enc_str(v.hash) + r4;
        let r2 = enc_str(v.prev_block_hash) + r3;
        let r1 = enc_list::<Transaction>(v.transactions) + r2;
        assert(dec_u128(Self::enc(v) + rest) == Some((v.timestamp, r1))) by {
            lemma_u128_roundtrip(v.timestamp, r1);
            assert(Self::enc(v) + rest =~= enc_u128(v.timestamp) + r1);
        }
        assert(dec_list::<Transaction>(r1) == Some((v.transactions, r2))) by {
            lemma_list_roundtrip::<Transaction>(v.transactions, r2);
        }
        assert(dec_str(r2) == Some((v.prev_block_hash, r3))) by {
            lemma_str_roundtrip(v.prev_block_hash, r3);
        }
        assert(dec_str(r3) == Some((v.hash, r4))) by {
            lemma_str_roundtrip(v.hash, r4);
        }
        assert(dec_i32(r4) == Some((v.nonce, r5))) by {
            lemma_i32_roundtrip(v.nonce, r5);
        }
        assert(dec_i32(r5) == Some((v.height, rest))) by {
            lemma_i32_roundtrip(v.height, rest);
        }
    }

    fn put(&self, out: &mut Vec<u8>) {
        put_u128(out, self.timestamp);
        put_list(out, &self.transactions);
        self.prev_block_hash.put(out);
        self.hash.put(out);
        put_i32(out, self.nonce);
        put_i32(out, self.height);
        assert(out@ =~= old(out)@ + Self::enc(self@));
    }

    fn get(data: &[u8], pos: usize) -> (r: Option<(Self, usize)>) {
        let (timestamp, p1) = match get_u128(data, pos) {
            Some(x) => x,
            None => { return None; },
        };
        let (transactions, p2) = match get_list::<Transaction>(data, p1) {
            Some(x) => x,
            None => { return None; },
        };
        let (prev_block_hash, p3) = match get_str(data, p2) {
            Some(x) => x,
            None => { return None; },
        };
        let (hash, p4) = match get_str(data, p3) {
            Some(x) => x,
            None => { return None; },
        };
        let (nonce, p5) = match get_i32(data, p4) {
            Some(x) => x,
            None => { return None; },
        };
        let (height, p6) = match get_i32(data, p5) {
            Some(x) => x,
            None => { return None; },
        };
        Some((Block { timestamp, transactions, prev_block_hash, hash, nonce, height }, p6))
    }
}

} // verus!
