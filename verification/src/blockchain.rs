//! The chain: the blocks that a node has accepted, and the newest of them.

use vstd::prelude::*;
use vstd::string::*;
use vstd::utf8::*;
use crate::block::{
    blank_block, copy_transactions, making_fails, meets_target, mined, Block, BlockView,
};
use crate::codec::{lemma_list_view_push, list_view, str_eq};
use crate::error::Error;
use crate::signing::SECRET_KEY_LEN;
use crate::transaction::{
    coinbase_outcome, find_index, find_tx, Transaction, TransactionView,
};

verus! {

/// What a `Blockchain` holds: the stored blocks in the order in which they
/// were accepted, and the hash of the newest.
pub struct ChainView {
    pub tip: Seq<char>,
    pub blocks: Seq<BlockView>,
}

/// The place among `blocks` of the block with the hash `hash`.
pub open spec fn index_of(blocks: Seq<BlockView>, hash: Seq<char>) -> Option<int> {
    if exists|i: int| 0 <= i < blocks.len() && blocks[i].hash == hash {
        Some(choose|i: int| 0 <= i < blocks.len() && blocks[i].hash == hash)
    } else {
        None
    }
}

/// The blocks from the one at place `i` back to the first of its chain,
/// each followed by the block that it names as the one before it.
pub open spec fn path_from(blocks: Seq<BlockView>, i: int) -> Seq<BlockView>
    decreases i,
{
    if 0 <= i < blocks.len() {
        match index_of(blocks, blocks[i].prev_block_hash) {
            Some(j) => if j < i {
                seq![blocks[i]] + path_from(blocks, j)
            } else {
                seq![blocks[i]]
            },
            None => seq![blocks[i]],
        }
    } else {
        Seq::empty()
    }
}

/// The transactions of `blocks`, block after block.
pub open spec fn block_txs(blocks: Seq<BlockView>) -> Seq<TransactionView>
    decreases blocks.len(),
{
    if blocks.len() == 0 {
        Seq::empty()
    } else {
        block_txs(blocks.drop_last()) + blocks.last().transactions
    }
}

impl ChainView {
    /// Whether a block with the hash `hash` is stored.
    pub open spec fn contains(self, hash: Seq<char>) -> bool {
        index_of(self.blocks, hash) is Some
    }

    /// The stored block with the hash `hash`.
    pub open spec fn block(self, hash: Seq<char>) -> BlockView {
        self.blocks[index_of(self.blocks, hash).unwrap()]
    }

    /// The height of the newest block; -1 where no block is stored.
    pub open spec fn best_height(self) -> int {
        if self.blocks.len() == 0 {
            -1
        } else {
            self.block(self.tip).height as int
        }
    }

    /// The blocks from the newest back to the first.
    pub open spec fn path(self) -> Seq<BlockView> {
        match index_of(self.blocks, self.tip) {
            Some(i) => path_from(self.blocks, i),
            None => Seq::empty(),
        }
    }

    /// The transactions of the chain, from the newest block back to the first.
    pub open spec fn transactions(self) -> Seq<TransactionView> {
        block_txs(self.path())
    }

    /// Whether `tx` passes the check of its signatures against the chain.
    pub open spec fn tx_verifies(self, tx: TransactionView) -> bool {
        tx.obstacle(self.transactions()) is None && tx.verifies(self.transactions())
    }

    /// Whether a block may join the chain: it carries its proof of work, the
    /// block that it names as the one before it is stored, unless it names
    /// none, and each of its transactions verifies against the chain.
    pub open spec fn acceptable(self, b: BlockView) -> bool {
        &&& b.is_valid()
        &&& (b.prev_block_hash.len() == 0 || self.contains(b.prev_block_hash))
        &&& forall|i: int|
            0 <= i < b.transactions.len() ==> self.tx_verifies(#[trigger] b.transactions[i])
    }

    /// The chain with `b` stored behind the other blocks. `b` is the newest
    /// block from then on if it stands higher than the newest did, or is
    /// the first to be stored.
    pub open spec fn extended(self, b: BlockView) -> ChainView {
        ChainView {
            tip: if self.blocks.len() == 0 || b.height > self.best_height() {
                b.hash
            } else {
                self.tip
            },
            blocks: self.blocks.push(b),
        }
    }

    /// The chain after `b` was offered to it: as it was where `b` is stored
    /// already or may not join, extended by `b` otherwise.
    pub open spec fn with_block(self, b: BlockView) -> ChainView {
        if self.contains(b.hash) || !self.acceptable(b) {
            self
        } else {
            self.extended(b)
        }
    }

    /// What holds of every chain: no hash stands twice; every block carries
    /// its proof of work; every block names as the one before it a block
    /// that was stored earlier, or none; every block could join the chain
    /// of the blocks stored before it; the newest block is stored, and no
    /// block stands higher.
    pub open spec fn wf(self) -> bool {
        &&& forall|i: int, j: int|
            0 <= i < j < self.blocks.len() ==> (#[trigger] self.blocks[i]).hash
                != (#[trigger] self.blocks[j]).hash
        &&& forall|i: int| 0 <= i < self.blocks.len() ==> (#[trigger] self.blocks[i]).is_valid()
        &&& forall|i: int|
            0 <= i < self.blocks.len() && (#[trigger] self.blocks[i]).prev_block_hash.len() > 0
                ==> exists|j: int| 0 <= j < i && self.blocks[j].hash == self.blocks[i].prev_block_hash
        &&& forall|i: int| 0 <= i < self.blocks.len() ==> #[trigger] was_acceptable(self.blocks, i)
        &&& if self.blocks.len() == 0 {
            self.tip.len() == 0
        } else {
            &&& self.contains(self.tip)
            &&& forall|i: int|
                0 <= i < self.blocks.len() ==> (#[trigger] self.blocks[i]).height
                    <= self.best_height()
        }
    }
}

/// Whether the block at the place `i` may join the chain of the blocks
/// before it, with `tip` as the newest of them.
pub open spec fn acceptable_at(blocks: Seq<BlockView>, i: int, tip: Seq<char>) -> bool {
    (ChainView { tip, blocks: blocks.subrange(0, i) }).acceptable(blocks[i])
}

/// Whether the block at the place `i` could join the chain of the blocks
/// before it, as that chain stood with one of them as the newest.
pub open spec fn was_acceptable(blocks: Seq<BlockView>, i: int) -> bool {
    exists|tip: Seq<char>| acceptable_at(blocks, i, tip)
}

/// Every transaction of a stored block verified against the chain as it
/// stood when the block was stored: the blocks stored before it, with one
/// of them as the newest.
pub proof fn lemma_stored_transactions_verified(c: ChainView, i: int, k: int)
    requires
        c.wf(),
        0 <= i < c.blocks.len(),
        0 <= k < c.blocks[i].transactions.len(),
    ensures
        exists|tip: Seq<char>|
            #[trigger] acceptable_at(c.blocks, i, tip) && (ChainView {
                tip,
                blocks: c.blocks.subrange(0, i),
            }).tx_verifies(c.blocks[i].transactions[k]),
{
    assert(was_acceptable(c.blocks, i));
    let tip = choose|tip: Seq<char>| acceptable_at(c.blocks, i, tip);
    let then = ChainView { tip, blocks: c.blocks.subrange(0, i) };
    assert(then.tx_verifies(c.blocks[i].transactions[k]));
}

/// In a chain, the place of a stored hash is the one place where it stands.
pub proof fn lemma_index_unique(c: ChainView, i: int)
    requires
        c.wf(),
        0 <= i < c.blocks.len(),
    ensures
        index_of(c.blocks, c.blocks[i].hash) == Some(i),
{
    let k = index_of(c.blocks, c.blocks[i].hash).unwrap();
    if k < i {
        assert(c.blocks[k].hash != c.blocks[i].hash);
    } else if i < k {
        assert(c.blocks[i].hash != c.blocks[k].hash);
    }
}

/// Every stored block carries its proof of work, and the block that it
/// names as the one before it is stored too, unless it names none.
pub proof fn lemma_stored_block(c: ChainView, hash: Seq<char>)
    requires
        c.wf(),
        c.contains(hash),
    ensures
        c.block(hash).hash == hash,
        c.block(hash).is_valid(),
        c.block(hash).hash == c.block(hash).hash_at(c.block(hash).nonce),
        meets_target(c.block(hash).hash),
        c.block(hash).prev_block_hash.len() == 0 || c.contains(c.block(hash).prev_block_hash),
{
    let i = index_of(c.blocks, hash).unwrap();
    assert(c.blocks[i].is_valid());
    if c.blocks[i].prev_block_hash.len() > 0 {
        let j = choose|j: int| 0 <= j < i && c.blocks[j].hash == c.blocks[i].prev_block_hash;
        assert(c.blocks[j].hash == c.blocks[i].prev_block_hash);
    }
}

/// Extending a chain by a block that may join it, and that is not stored
/// yet, gives a chain.
pub proof fn lemma_extended_wf(c: ChainView, b: BlockView)
    requires
        c.wf(),
        !c.contains(b.hash),
        c.acceptable(b),
    ensures
        c.extended(b).wf(),
        c.extended(b).contains(b.hash),
{
    let e = c.extended(b);
    let n = c.blocks.len() as int;
    assert(e.blocks[n] == b);
    assert forall|i: int| 0 <= i < e.blocks.len() implies #[trigger] was_acceptable(
        e.blocks,
        i,
    ) by {
        if i < n {
            assert(was_acceptable(c.blocks, i));
            let tip = choose|tip: Seq<char>| acceptable_at(c.blocks, i, tip);
            assert(e.blocks.subrange(0, i) =~= c.blocks.subrange(0, i));
            assert(acceptable_at(e.blocks, i, tip));
        } else {
            assert(e.blocks.subrange(0, n) =~= c.blocks);
            assert((ChainView { tip: c.tip, blocks: e.blocks.subrange(0, n) }) == c);
            assert(acceptable_at(e.blocks, n, c.tip));
        }
    }
    assert forall|i: int, j: int| 0 <= i < j < e.blocks.len() implies (#[trigger] e.blocks[i]).hash
        != (#[trigger] e.blocks[j]).hash by {
        if j == n {
            assert(c.blocks[i].hash != b.hash);
        } else {
            assert(c.blocks[i].hash != c.blocks[j].hash);
        }
    }
    assert forall|i: int| 0 <= i < e.blocks.len() implies (#[trigger] e.blocks[i]).is_valid() by {
        if i < n {
            assert(c.blocks[i].is_valid());
        }
    }
    assert forall|i: int|
        0 <= i < e.blocks.len() && (#[trigger] e.blocks[i]).prev_block_hash.len()
            > 0 implies exists|j: int|
        0 <= j < i && e.blocks[j].hash == e.blocks[i].prev_block_hash by {
        if i < n {
            assert(c.blocks[i].prev_block_hash.len() > 0);
            let j = choose|j: int| 0 <= j < i && c.blocks[j].hash == c.blocks[i].prev_block_hash;
            assert(e.blocks[j].hash == e.blocks[i].prev_block_hash);
        } else {
            let j = index_of(c.blocks, b.prev_block_hash).unwrap();
            assert(e.blocks[j].hash == e.blocks[i].prev_block_hash);
        }
    }
    lemma_extended_index(c, b);
}

/// In a chain extended by a block that was not stored, the stored hashes
/// stand where they stood, and the hash of the block stands last.
pub proof fn lemma_extended_index(c: ChainView, b: BlockView)
    requires
        c.wf(),
        !c.contains(b.hash),
    ensures
        index_of(c.extended(b).blocks, b.hash) == Some(c.blocks.len() as int),
        forall|h: Seq<char>|
            c.contains(h) ==> #[trigger] index_of(c.extended(b).blocks, h) == index_of(c.blocks, h),
        forall|h: Seq<char>|
            h != b.hash && !c.contains(h) ==> #[trigger] index_of(c.extended(b).blocks, h) is None,
        c.extended(b).contains(c.extended(b).tip),
        forall|i: int|
            0 <= i < c.extended(b).blocks.len() ==> (#[trigger] c.extended(b).blocks[i]).height
                <= c.extended(b).best_height(),
{
    let e = c.extended(b);
    let n = c.blocks.len() as int;
    assert(e.blocks[n] == b);
    assert(index_of(e.blocks, b.hash) == Some(n)) by {
        let k = index_of(e.blocks, b.hash).unwrap();
        if k < n {
            assert(c.blocks[k].hash == b.hash);
        }
    }
    assert forall|h: Seq<char>| c.contains(h) implies #[trigger] index_of(e.blocks, h) == index_of(
        c.blocks,
        h,
    ) by {
        let i = index_of(c.blocks, h).unwrap();
        assert(e.blocks[i].hash == h);
        let k = index_of(e.blocks, h).unwrap();
        if k != i {
            if k < n {
                if k < i {
                    assert(c.blocks[k].hash != c.blocks[i].hash);
                } else {
                    assert(c.blocks[i].hash != c.blocks[k].hash);
                }
            }
        }
    }
    assert forall|h: Seq<char>| h != b.hash && !c.contains(h) implies #[trigger] index_of(
        e.blocks,
        h,
    ) is None by {
        if index_of(e.blocks, h) is Some {
            let k = index_of(e.blocks, h).unwrap();
            if k < n {
                assert(c.blocks[k].hash == h);
            }
        }
    }
    if n > 0 {
        assert(c.contains(c.tip));
        let t = index_of(c.blocks, c.tip).unwrap();
        assert forall|i: int| 0 <= i < e.blocks.len() implies (#[trigger] e.blocks[i]).height
            <= e.best_height() by {
            if i < n {
                assert(c.blocks[i].height <= c.best_height());
            }
        }
    }
}


/// The chain after the blocks of `bs` were offered to it one after the other.
pub open spec fn offered(c: ChainView, bs: Seq<BlockView>) -> ChainView
    decreases bs.len(),
{
    if bs.len() == 0 {
        c
    } else {
        offered(c, bs.drop_last()).with_block(bs.last())
    }
}

/// What keeps a node from mining `txs` on top of the chain `c`, if
/// anything does: a transaction that does not verify, a chain without a
/// block, or a newest block at the greatest height that there is.
pub open spec fn mining_obstacle(c: ChainView, txs: Seq<TransactionView>) -> Option<Error> {
    if !(forall|i: int| 0 <= i < txs.len() ==> c.tx_verifies(#[trigger] txs[i])) {
        Some(Error::InvalidTransaction)
    } else if c.blocks.len() == 0 {
        Some(Error::NotFound)
    } else if c.best_height() == i32::MAX {
        Some(Error::EncodingError)
    } else {
        None
    }
}

/// Whether `r` and the chain `after` are what mining `txs` on top of the
/// chain `c` may give. A block that is handed out carries its proof of
/// work, follows the newest block of `c` one higher, and was offered to
/// the chain. An error leaves the chain as it was: it is what kept the node
/// from mining, or, where nothing did, what kept the block from being made.
pub open spec fn mining_done(
    c: ChainView,
    txs: Seq<TransactionView>,
    r: Result<BlockView, Error>,
    after: ChainView,
) -> bool {
    match r {
        Ok(b) => {
            &&& mining_obstacle(c, txs) is None
            &&& b.prev_block_hash == c.tip
            &&& b.height == c.best_height() + 1
            &&& mined(blank_block(b.timestamp, txs, c.tip, b.height), Ok(b))
            &&& c.acceptable(b)
            &&& after == c.with_block(b)
        },
        Err(e) => {
            &&& after == c
            &&& match mining_obstacle(c, txs) {
                Some(o) => e == o,
                None => making_fails(txs, c.tip, (c.best_height() + 1) as i32, e),
            }
        },
    }
}

/// What opening a chain from a store gives: the blocks of the store as
/// they were accepted one after the other, with `last` as the newest where
/// it is stored and no block stands higher. `StorageError` otherwise.
pub open spec fn opened(last: Seq<char>, bs: Seq<BlockView>) -> Result<ChainView, Error> {
    let c = offered(empty_chain(), bs);
    if c.contains(last) && c.block(last).height == c.best_height() {
        Ok(ChainView { tip: last, blocks: c.blocks })
    } else {
        Err(Error::StorageError)
    }
}

/// Whether `c` is a chain of one block, mined at some time, whose only
/// transaction is the coinbase that pays `address`.
pub open spec fn genesis_chain(address: Seq<char>, c: ChainView) -> bool {
    &&& c.blocks.len() == 1
    &&& c.tip == c.blocks[0].hash
    &&& c.blocks[0].transactions.len() == 1
    &&& coinbase_outcome(address, GENESIS_COINBASE_DATA@) == Ok::<TransactionView, Error>(
        c.blocks[0].transactions[0],
    )
    &&& mined(
        blank_block(c.blocks[0].timestamp, c.blocks[0].transactions, Seq::empty(), 0),
        Ok(c.blocks[0]),
    )
}

/// Whether `e` is what keeps a first block from being made for `address`:
/// the error of the coinbase transaction, or, where that can be made, a
/// clock that cannot be read or the error of mining at some time.
pub open spec fn genesis_failure(address: Seq<char>, e: Error) -> bool {
    match coinbase_outcome(address, GENESIS_COINBASE_DATA@) {
        Err(c) => e == c,
        Ok(cb) => making_fails(seq![cb], Seq::empty(), 0, e),
    }
}

/// The chain with no block.
pub open spec fn empty_chain() -> ChainView {
    ChainView { tip: Seq::empty(), blocks: Seq::empty() }
}

/// The transactions of some blocks and one more are those of the blocks,
/// then those of the one.
pub proof fn lemma_block_txs_push(blocks: Seq<BlockView>, b: BlockView)
    ensures
        block_txs(blocks.push(b)) == block_txs(blocks) + b.transactions,
{
    assert(blocks.push(b).drop_last() =~= blocks);
}

/// No block of a chain has the empty hash.
pub proof fn lemma_no_empty_hash(c: ChainView)
    requires
        c.wf(),
    ensures
        !c.contains(Seq::empty()),
{
    if c.contains(Seq::empty()) {
        let k = index_of(c.blocks, Seq::empty()).unwrap();
        assert(c.blocks[k].is_valid());
    }
}

/// Offering a block to a chain gives a chain.
pub proof fn lemma_with_block_wf(c: ChainView, b: BlockView)
    requires
        c.wf(),
    ensures
        c.with_block(b).wf(),
{
    if !(c.contains(b.hash) || !c.acceptable(b)) {
        lemma_extended_wf(c, b);
    }
}

/// The blocks from the one at the place `cur` back, or none.
pub open spec fn path_tail(blocks: Seq<BlockView>, cur: Option<usize>) -> Seq<BlockView> {
    match cur {
        Some(i) => path_from(blocks, i as int),
        None => Seq::empty(),
    }
}

/// In a chain, the block before a stored block stands at an earlier
/// place, and the path from a block is the block, then the path from the
/// block before it.
pub proof fn lemma_path_step(c: ChainView, i: int)
    requires
        c.wf(),
        0 <= i < c.blocks.len(),
    ensures
        match index_of(c.blocks, c.blocks[i].prev_block_hash) {
            Some(j) => 0 <= j < i && path_from(c.blocks, i) == seq![c.blocks[i]] + path_from(
                c.blocks,
                j,
            ),
            None => path_from(c.blocks, i) == seq![c.blocks[i]],
        },
{
    lemma_no_empty_hash(c);
    if index_of(c.blocks, c.blocks[i].prev_block_hash) is Some {
        let j = index_of(c.blocks, c.blocks[i].prev_block_hash).unwrap();
        assert(c.blocks[i].prev_block_hash.len() > 0);
        let w = choose|w: int| 0 <= w < i && c.blocks[w].hash == c.blocks[i].prev_block_hash;
        lemma_index_unique(c, w);
    }
}

/// The text that the coinbase of a first block carries.
pub const GENESIS_COINBASE_DATA: &'static str =
    "The Times 03/Jan/2009 Chancellor on brink of second bailout for banks";

/// The chain of a node.
#[derive(Debug)]
pub struct Blockchain {
    tip: String,
    blocks: Vec<Block>,
}

impl View for Blockchain {
    type V = ChainView;

    closed spec fn view(&self) -> ChainView {
        ChainView { tip: self.tip@, blocks: list_view(self.blocks@) }
    }
}

impl Blockchain {
    /// Whether the chain is well formed, as every chain that this module
    /// hands out is.
    pub open spec fn wf(&self) -> bool {
        self@.wf()
    }

    /// The chain with no block, as a node has it before it has heard of any.
    pub fn empty() -> (bc: Blockchain)
        ensures
            bc.wf(),
            bc@ == empty_chain(),
    {
        let bc = Blockchain { tip: String::new(), blocks: Vec::new() };
        assert(bc@.blocks =~= Seq::empty());
        bc
    }

    /// The place of the block with the hash `hash`.
    fn position(&self, hash: &str) -> (r: Option<usize>)
        requires
            self.wf(),
        ensures
            match r {
                Some(i) => i < self.blocks@.len() && index_of(self@.blocks, hash@) == Some(
                    i as int,
                ) && self.blocks@[i as int]@ == self@.block(hash@),
                None => !self@.contains(hash@),
            },
    {
        let mut i: usize = 0;
        while i < self.blocks.len()
            invariant
                i <= self.blocks@.len(),
                self.wf(),
                forall|j: int| 0 <= j < i ==> self@.blocks[j].hash != hash@,
            decreases self.blocks@.len() - i,
        {
            let h = self.blocks[i].get_hash();
            if str_eq(h.as_str(), hash) {
                proof {
                    assert(self@.blocks[i as int].hash == hash@);
                    lemma_index_unique(self@, i as int);
                }
                return Some(i);
            }
            i = i + 1;
        }
        None
    }

    /// The places of the blocks from the newest back to the first.
    fn path_places(&self) -> (r: Vec<usize>)
        requires
            self.wf(),
        ensures
            r@.len() == self@.path().len(),
            forall|k: int|
                0 <= k < r@.len() ==> (#[trigger] r@[k]) < self.blocks@.len()
                    && self.blocks@[r@[k] as int]@ == self@.path()[k],
    {
        let mut places: Vec<usize> = Vec::new();
        let mut cur: Option<usize> = self.position(self.tip.as_str());
        let ghost blocks = self@.blocks;
        let ghost mut listed: Seq<BlockView> = Seq::empty();
        proof {
            assert(listed + self@.path() =~= self@.path());
        }
        while cur.is_some()
            invariant
                self.wf(),
                blocks == self@.blocks,
                cur is Some ==> cur.unwrap() < blocks.len(),
                listed.len() == places@.len(),
                forall|k: int|
                    0 <= k < places@.len() ==> (#[trigger] places@[k]) < blocks.len()
                        && self.blocks@[places@[k] as int]@ == listed[k],
                self@.path() == listed + path_tail(blocks, cur),
            decreases
                    (match cur {
                        Some(i) => i + 1,
                        None => 0,
                    }),
        {
            let i = cur.unwrap();
            let prev = self.blocks[i].get_prev_hash();
            let next = self.position(prev.as_str());
            proof {
                lemma_path_step(self@, i as int);
                assert(listed.push(blocks[i as int]) + path_tail(blocks, next) =~= listed
                    + path_tail(blocks, cur));
                listed = listed.push(blocks[i as int]);
            }
            places.push(i);
            cur = next;
        }
        proof {
            assert(listed + Seq::<BlockView>::empty() =~= listed);
        }
        places
    }

    /// A walk over the blocks that starts at the newest.
    pub fn iter(&self) -> (r: BlockchainIterator<'_>)
        ensures
            r.current() == self@.tip,
            r.chain() == self@,
    {
        BlockchainIterator { current_hash: self.tip.clone(), bc: self }
    }

    /// The blocks from the newest back to the first.
    pub fn blocks_from_tip(&self) -> (r: Vec<Block>)
        requires
            self.wf(),
        ensures
            list_view(r@) == self@.path(),
    {
        let places = self.path_places();
        let mut blocks: Vec<Block> = Vec::new();
        let mut k: usize = 0;
        while k < places.len()
            invariant
                k <= places@.len(),
                places@.len() == self@.path().len(),
                forall|n: int|
                    0 <= n < places@.len() ==> (#[trigger] places@[n]) < self.blocks@.len()
                        && self.blocks@[places@[n] as int]@ == self@.path()[n],
                list_view(blocks@) == self@.path().subrange(0, k as int),
            decreases places@.len() - k,
        {
            let ghost before = blocks@;
            let b = self.blocks[places[k]].clone();
            proof {
                lemma_list_view_push(before, b);
                assert(list_view(before).push(b@) =~= self@.path().subrange(0, k + 1));
            }
            blocks.push(b);
            k = k + 1;
        }
        assert(self@.path().subrange(0, k as int) =~= self@.path());
        blocks
    }

    /// The transactions of the chain, from the newest block back to the first.
    pub fn transactions(&self) -> (r: Vec<Transaction>)
        requires
            self.wf(),
        ensures
            list_view(r@) == self@.transactions(),
    {
        let places = self.path_places();
        let mut txs: Vec<Transaction> = Vec::new();
        let mut k: usize = 0;
        while k < places.len()
            invariant
                k <= places@.len(),
                places@.len() == self@.path().len(),
                forall|n: int|
                    0 <= n < places@.len() ==> (#[trigger] places@[n]) < self.blocks@.len()
                        && self.blocks@[places@[n] as int]@ == self@.path()[n],
                list_view(txs@) == block_txs(self@.path().subrange(0, k as int)),
            decreases places@.len() - k,
        {
            let ghost before = txs@;
            let mut more = copy_transactions(self.blocks[places[k]].get_transaction());
            proof {
                let done = self@.path().subrange(0, k as int);
                lemma_block_txs_push(done, self@.path()[k as int]);
                assert(done.push(self@.path()[k as int]) =~= self@.path().subrange(0, k + 1));
                assert(list_view(before + more@) =~= list_view(before) + list_view(more@));
            }
            txs.append(&mut more);
            k = k + 1;
        }
        assert(self@.path().subrange(0, k as int) =~= self@.path());
        txs
    }

    /// Every stored block, in the order in which the blocks were accepted.
    pub fn blocks(&self) -> (r: &Vec<Block>)
        ensures
            list_view(r@) == self@.blocks,
    {
        &self.blocks
    }

    /// The hash of the newest block; empty where no block is stored.
    pub fn get_tip(&self) -> (r: String)
        ensures
            r@ == self@.tip,
    {
        self.tip.clone()
    }

    /// The height of the newest block; -1 where no block is stored.
    pub fn get_best_height(&self) -> (r: i32)
        requires
            self.wf(),
        ensures
            r == self@.best_height(),
    {
        match self.position(self.tip.as_str()) {
            Some(i) => self.blocks[i].get_height(),
            None => {
                proof {
                    if self@.blocks.len() > 0 {
                        assert(self@.contains(self@.tip));
                    }
                }
                -1
            },
        }
    }

    /// The hashes of the blocks from the newest back to the first.
    pub fn get_block_hashs(&self) -> (r: Vec<String>)
        requires
            self.wf(),
        ensures
            r@.len() == self@.path().len(),
            forall|k: int| 0 <= k < r@.len() ==> (#[trigger] r@[k])@ == self@.path()[k].hash,
    {
        let places = self.path_places();
        let mut hashes: Vec<String> = Vec::new();
        let mut k: usize = 0;
        while k < places.len()
            invariant
                k <= places@.len(),
                places@.len() == self@.path().len(),
                forall|n: int|
                    0 <= n < places@.len() ==> (#[trigger] places@[n]) < self.blocks@.len()
                        && self.blocks@[places@[n] as int]@ == self@.path()[n],
                hashes@.len() == k,
                forall|n: int| 0 <= n < k ==> (#[trigger] hashes@[n])@ == self@.path()[n].hash,
            decreases places@.len() - k,
        {
            hashes.push(self.blocks[places[k]].get_hash());
            k = k + 1;
        }
        hashes
    }

    /// The stored block with the hash `hash`; `NotFound` where there is none.
    /// A stored block carries its proof of work, and the block that it
    /// names as the one before it is stored too, unless it names none.
    pub fn get_block(&self, hash: &str) -> (r: Result<Block, Error>)
        requires
            self.wf(),
        ensures
            match r {
                Ok(b) => {
                    &&& self@.contains(hash@)
                    &&& b@ == self@.block(hash@)
                    &&& b@.hash == hash@
                    &&& b@.is_valid()
                    &&& (b@.prev_block_hash.len() == 0 || self@.contains(b@.prev_block_hash))
                },
                Err(e) => e == Error::NotFound && !self@.contains(hash@),
            },
    {
        match self.position(hash) {
            Some(i) => {
                proof {
                    lemma_stored_block(self@, hash@);
                }
                Ok(self.blocks[i].clone())
            },
            None => Err(Error::NotFound),
        }
    }

    /// The first transaction with the id `id`, looking from the newest
    /// block back to the first; `NotFound` where there is none.
    pub fn find_transacton(&self, id: &str) -> (r: Result<Transaction, Error>)
        requires
            self.wf(),
        ensures
            match r {
                Ok(tx) => find_tx(self@.transactions(), id@) == Some(tx@),
                Err(e) => e == Error::NotFound && find_tx(self@.transactions(), id@) is None,
            },
    {
        let all = self.transactions();
        match find_index(&all, id) {
            Some(k) => Ok(all[k].clone()),
            None => Err(Error::NotFound),
        }
    }

    /// Signs the inputs of `tx` with `private_key`, a secret key of 64
    /// bytes; each input spends from the first transaction of the chain
    /// that has the id it names.
    pub fn sign_transacton(&self, tx: &mut Transaction, private_key: &[u8]) -> (r: Result<
        (),
        Error,
    >)
        requires
            self.wf(),
            private_key@.len() == SECRET_KEY_LEN,
        ensures
            match r {
                Ok(_) => old(tx)@.obstacle(self@.transactions()) is None && final(tx)@ == old(
                    tx,
                )@.signed(private_key@, self@.transactions()),
                Err(e) => old(tx)@.obstacle(self@.transactions()) == Some(e) && final(tx)@ == old(
                    tx,
                )@,
            },
    {
        let all = self.transactions();
        tx.sign(private_key, &all)
    }

    /// Checks the signatures of `tx`; each input spends from the first
    /// transaction of the chain that has the id it names.
    pub fn verify_transacton(&self, tx: &Transaction) -> (r: Result<bool, Error>)
        requires
            self.wf(),
        ensures
            match r {
                Ok(ok) => tx@.obstacle(self@.transactions()) is None && ok == tx@.verifies(
                    self@.transactions(),
                ),
                Err(e) => tx@.obstacle(self@.transactions()) == Some(e),
            },
    {
        let all = self.transactions();
        tx.verify(&all)
    }

    /// Whether every transaction of `txs` passes the check of its signatures.
    pub fn verify_all(&self, txs: &Vec<Transaction>) -> (r: bool)
        requires
            self.wf(),
        ensures
            r == forall|i: int|
                0 <= i < txs@.len() ==> self@.tx_verifies(#[trigger] list_view(txs@)[i]),
    {
        let all = self.transactions();
        let mut i: usize = 0;
        while i < txs.len()
            invariant
                i <= txs@.len(),
                list_view(all@) == self@.transactions(),
                forall|j: int| 0 <= j < i ==> self@.tx_verifies(#[trigger] list_view(txs@)[j]),
            decreases txs@.len() - i,
        {
            let ok = match txs[i].verify(&all) {
                Ok(ok) => ok,
                Err(_) => false,
            };
            if !ok {
                assert(!self@.tx_verifies(list_view(txs@)[i as int]));
                return false;
            }
            i = i + 1;
        }
        true
    }

    /// Whether `block` may join the chain.
    pub fn accepts(&self, block: &Block) -> (r: bool)
        requires
            self.wf(),
        ensures
            r == self@.acceptable(block@),
    {
        let valid = match block.validate() {
            Ok(ok) => ok,
            Err(_) => false,
        };
        if !valid {
            return false;
        }
        let prev = block.get_prev_hash();
        if !prev.as_str().is_empty() && self.position(prev.as_str()).is_none() {
            return false;
        }
        self.verify_all(block.get_transaction())
    }

    /// Offers `block` to the chain, and says whether it was stored. A block
    /// that is stored already, or that may not join the chain, is dropped.
    pub fn add_block(&mut self, block: Block) -> (stored: bool)
        requires
            old(self).wf(),
        ensures
            final(self).wf(),
            final(self)@ == old(self)@.with_block(block@),
            stored == (!old(self)@.contains(block@.hash) && old(self)@.acceptable(block@)),
    {
        let hash = block.get_hash();
        if self.position(hash.as_str()).is_some() {
            return false;
        }
        if !self.accepts(&block) {
            return false;
        }
        let newest = self.blocks.len() == 0 || block.get_height() > self.get_best_height();
        proof {
            lemma_extended_wf(self@, block@);
            lemma_list_view_push(self.blocks@, block);
        }
        self.blocks.push(block);
        if newest {
            self.tip = hash;
        }
        true
    }
}


impl Blockchain {
    /// Opens the chain that a store holds: `last` is the hash that the store
    /// names as the newest, `blocks` are its blocks, each behind the block
    /// that it follows. `NotFound` where the store names no newest block,
    /// `StorageError` where the block it names is not among those that the
    /// chain accepts, or is not the highest of them.
    pub fn new(last: Option<String>, blocks: Vec<Block>) -> (r: Result<Blockchain, Error>)
        ensures
            match r {
                Ok(bc) => bc.wf() && last is Some && opened(last.unwrap()@, list_view(blocks@))
                    == Ok::<ChainView, Error>(bc@),
                Err(e) => match last {
                    None => e == Error::NotFound,
                    Some(l) => opened(l@, list_view(blocks@)) == Err::<ChainView, Error>(e),
                },
            },
    {
        let tip = match last {
            Some(tip) => tip,
            None => { return Err(Error::NotFound); },
        };
        let mut bc = Blockchain::empty();
        let ghost all = list_view(blocks@);
        let mut i: usize = 0;
        while i < blocks.len()
            invariant
                i <= blocks@.len(),
                all == list_view(blocks@),
                bc.wf(),
                bc@ == offered(empty_chain(), all.subrange(0, i as int)),
            decreases blocks@.len() - i,
        {
            proof {
                assert(all.subrange(0, i + 1).drop_last() =~= all.subrange(0, i as int));
                lemma_with_block_wf(bc@, all[i as int]);
            }
            bc.add_block(blocks[i].clone());
            i = i + 1;
        }
        assert(all.subrange(0, i as int) =~= all);
        match bc.position(tip.as_str()) {
            Some(k) => {
                if bc.blocks[k].get_height() == bc.get_best_height() {
                    proof {
                        let c = bc@;
                        let n = ChainView { tip: tip@, blocks: c.blocks };
                        assert(n.best_height() == c.best_height());
                        assert forall|i: int| 0 <= i < n.blocks.len() implies #[trigger] was_acceptable(
                            n.blocks,
                            i,
                        ) by {
                            assert(was_acceptable(c.blocks, i));
                        }
                        assert forall|i: int| 0 <= i < n.blocks.len() implies (
                        #[trigger] n.blocks[i]).height <= n.best_height() by {
                            assert(c.blocks[i].height <= c.best_height());
                        }
                        assert(n.wf());
                    }
                    bc.tip = tip;
                    Ok(bc)
                } else {
                    Err(Error::StorageError)
                }
            },
            None => Err(Error::StorageError),
        }
    }

    /// Makes a chain of one block, whose coinbase pays the address `address`.
    pub fn create_blockchain(address: String) -> (r: Result<Blockchain, Error>)
        ensures
            match r {
                Ok(bc) => bc.wf() && genesis_chain(address@, bc@),
                Err(e) => genesis_failure(address@, e),
            },
    {
        let cbtx = match Transaction::new_coinbase(address, String::from_str(GENESIS_COINBASE_DATA)) {
            Ok(tx) => tx,
            Err(e) => { return Err(e); },
        };
        let ghost cb = cbtx@;
        assert(coinbase_outcome(address@, GENESIS_COINBASE_DATA@) == Ok::<TransactionView, Error>(cb));
        let genesis = match Block::new_genesis_block(cbtx) {
            Ok(b) => b,
            Err(e) => {
                return Err(e);
            },
        };
        let tip = genesis.get_hash();
        let mut blocks: Vec<Block> = Vec::new();
        proof {
            lemma_list_view_push(blocks@, genesis);
            assert(Seq::<BlockView>::empty().push(genesis@) =~= seq![genesis@]);
        }
        blocks.push(genesis);
        let bc = Blockchain { tip, blocks };
        proof {
            let c = bc@;
            assert(c.blocks.len() == 1);
            assert(c.blocks[0].hash == c.tip);
            assert(index_of(c.blocks, c.tip) is Some);
            assert(c.blocks[0].transactions =~= seq![cbtx@]);
            let first = ChainView { tip: Seq::empty(), blocks: c.blocks.subrange(0, 0) };
            assert(cb.is_coinbase());
            assert(first.tx_verifies(cb));
            assert(acceptable_at(c.blocks, 0, Seq::empty()));
            assert(was_acceptable(c.blocks, 0));
        }
        Ok(bc)
    }

    /// Mines a block that holds `transactions` on top of the newest block,
    /// stores it, and hands it out. Where a transaction does not verify the
    /// result is `InvalidTransaction`, and where the chain has no block it is
    /// `NotFound`; the chain is then as it was.
    pub fn mine_block(&mut self, transactions: Vec<Transaction>) -> (r: Result<Block, Error>)
        requires
            old(self).wf(),
        ensures
            final(self).wf(),
            match r {
                Ok(b) => mining_done(old(self)@, list_view(transactions@), Ok(b@), final(self)@),
                Err(e) => mining_done(old(self)@, list_view(transactions@), Err(e), final(self)@),
            },
    {
        if !self.verify_all(&transactions) {
            return Err(Error::InvalidTransaction);
        }
        if self.blocks.len() == 0 {
            return Err(Error::NotFound);
        }
        let best = self.get_best_height();
        if best == i32::MAX {
            return Err(Error::EncodingError);
        }
        let ghost txs = list_view(transactions@);
        let block = match Block::new_block(transactions, self.tip.clone(), best + 1) {
            Ok(b) => b,
            Err(e) => { return Err(e); },
        };
        proof {
            assert(self@.contains(self@.tip));
            assert(block@.transactions == txs);
        }
        self.add_block(block.clone());
        Ok(block)
    }
}

/// Offering a block to a chain twice leaves the chain as offering it once does.
pub proof fn lemma_add_block_idempotent(c: ChainView, b: BlockView)
    requires
        c.wf(),
    ensures
        c.with_block(b).with_block(b) == c.with_block(b),
{
    if !(c.contains(b.hash) || !c.acceptable(b)) {
        lemma_extended_wf(c, b);
    }
}


/// The transactions that the first `n` inputs of `tx` spend from, each the
/// first of `all` with the id that the input names; nothing where an input
/// names an id that no transaction of `all` has.
pub open spec fn prev_txs(all: Seq<TransactionView>, tx: TransactionView, n: int) -> Option<
    Seq<TransactionView>,
>
    decreases n,
{
    if n <= 0 {
        Some(Seq::empty())
    } else {
        match prev_txs(all, tx, n - 1) {
            Some(found) => match find_tx(all, tx.vin[n - 1].txid) {
                Some(t) => Some(found.push(t)),
                None => None,
            },
            None => None,
        }
    }
}

/// Where the transactions of the first `n` inputs are not all found,
/// those of all inputs are not.
pub proof fn lemma_prev_txs_missing(all: Seq<TransactionView>, tx: TransactionView, n: int)
    requires
        0 <= n <= tx.vin.len(),
        prev_txs(all, tx, n) is None,
    ensures
        prev_txs(all, tx, tx.vin.len() as int) is None,
    decreases tx.vin.len() - n,
{
    if n < tx.vin.len() {
        lemma_prev_txs_missing(all, tx, n + 1);
    }
}

impl Blockchain {
    /// The transactions that the inputs of `tx` spend from, one for each
    /// input; `NotFound` where the chain has no transaction with an id that
    /// an input names.
    pub fn get_prev_TXs(&self, tx: &Transaction) -> (r: Result<Vec<Transaction>, Error>)
        requires
            self.wf(),
        ensures
            match r {
                Ok(found) => prev_txs(self@.transactions(), tx@, tx@.vin.len() as int) == Some(
                    list_view(found@),
                ),
                Err(e) => e == Error::NotFound && prev_txs(
                    self@.transactions(),
                    tx@,
                    tx@.vin.len() as int,
                ) is None,
            },
    {
        let all = self.transactions();
        let mut found: Vec<Transaction> = Vec::new();
        let mut i: usize = 0;
        assert(list_view(found@) =~= Seq::<TransactionView>::empty());
        while i < tx.vin.len()
            invariant
                i <= tx.vin@.len(),
                list_view(all@) == self@.transactions(),
                prev_txs(self@.transactions(), tx@, i as int) == Some(list_view(found@)),
            decreases tx.vin@.len() - i,
        {
            match find_index(&all, tx.vin[i].txid.as_str()) {
                Some(k) => {
                    let item = all[k].clone();
                    proof {
                        lemma_list_view_push(found@, item);
                    }
                    found.push(item);
                },
                None => {
                    proof {
                        assert(prev_txs(self@.transactions(), tx@, i + 1) is None);
                        lemma_prev_txs_missing(self@.transactions(), tx@, i + 1);
                    }
                    return Err(Error::NotFound);
                },
            }
            i = i + 1;
        }
        Ok(found)
    }
}


/// A walk over the blocks of a chain, from a block back to the first.
pub struct BlockchainIterator<'a> {
    current_hash: String,
    bc: &'a Blockchain,
}

impl<'a> BlockchainIterator<'a> {
    /// The hash of the block that comes next.
    pub closed spec fn current(&self) -> Seq<char> {
        self.current_hash@
    }

    /// The chain that is walked over.
    pub closed spec fn chain(&self) -> ChainView {
        self.bc@
    }

    /// The block that comes next, after which the walk stands at the block
    /// before it; nothing where the chain has no block with the hash at
    /// which the walk stands, as it has none with the empty hash.
    pub fn next(&mut self) -> (r: Option<Block>)
        requires
            old(self).chain().wf(),
        ensures
            final(self).chain() == old(self).chain(),
            match r {
                Some(b) => old(self).chain().contains(old(self).current()) && b@ == old(
                    self,
                ).chain().block(old(self).current()) && final(self).current()
                    == b@.prev_block_hash,
                None => !old(self).chain().contains(old(self).current()) && final(self).current()
                    == old(self).current(),
            },
    {
        match self.bc.position(self.current_hash.as_str()) {
            Some(i) => {
                let block = self.bc.blocks[i].clone();
                self.current_hash = block.get_prev_hash();
                Some(block)
            },
            None => None,
        }
    }
}

} // verus!
