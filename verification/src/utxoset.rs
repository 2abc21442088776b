//! The index of unspent outputs: for each transaction of the chain, those
//! of its outputs that no input has spent yet.

use vstd::prelude::*;
use vstd::string::*;
use vstd::utf8::*;
use crate::address::base58check_payload;
use crate::block::Block;
use crate::blockchain::{mining_done, Blockchain, ChainView};
use crate::codec::{bytes_eq, copy_bytes, lemma_list_view_push, list_view, str_eq};
use crate::error::Error;
use crate::hashing::{hashable, DIGEST_INPUT_LIMIT};
use crate::signing::{PUBLIC_KEY_LEN, SECRET_KEY_LEN};
use crate::transaction::{
    copy_outputs, TXInput, TXInputView, TXOutput, TXOutputView, TXOutputs,
    Transaction, TransactionView,
};
use crate::wallets::{address_of, hash_pub_key, pub_key_hash, Wallet};

verus! {

/// An output that an input spends: the id of a transaction, and a place
/// among its outputs.
pub struct SpentRef {
    pub txid: String,
    pub vout: i32,
}

impl View for SpentRef {
    type V = (Seq<char>, int);

    open spec fn view(&self) -> (Seq<char>, int) {
        (self.txid@, self.vout as int)
    }
}

/// The unspent outputs of one transaction, under its id.
#[derive(Debug, PartialEq, Eq)]
pub struct UtxoEntry {
    pub txid: String,
    pub outs: TXOutputs,
}

impl View for UtxoEntry {
    type V = (Seq<char>, Seq<TXOutputView>);

    open spec fn view(&self) -> (Seq<char>, Seq<TXOutputView>) {
        (self.txid@, self.outs@.outputs)
    }
}

/// What an index of unspent outputs holds: ids with their outputs, in the
/// order of the ids.
pub type UtxoView = Seq<(Seq<char>, Seq<TXOutputView>)>;

/// The outputs that the inputs of `tx` spend; a coinbase spends none.
pub open spec fn tx_refs(tx: TransactionView) -> Seq<(Seq<char>, int)> {
    if tx.is_coinbase() {
        Seq::empty()
    } else {
        Seq::new(tx.vin.len(), |i: int| (tx.vin[i].txid, tx.vin[i].vout as int))
    }
}

/// The outputs that the inputs of `txs` spend.
pub open spec fn spent_refs(txs: Seq<TransactionView>) -> Seq<(Seq<char>, int)>
    decreases txs.len(),
{
    if txs.len() == 0 {
        Seq::empty()
    } else {
        spent_refs(txs.drop_last()) + tx_refs(txs.last())
    }
}

/// Those of the first `n` outputs of `tx` that are not among `spent`.
pub open spec fn unspent_outputs(
    tx: TransactionView,
    spent: Seq<(Seq<char>, int)>,
    n: int,
) -> Seq<TXOutputView>
    decreases n,
{
    if n <= 0 {
        Seq::empty()
    } else if spent.contains((tx.id, n - 1)) {
        unspent_outputs(tx, spent, n - 1)
    } else {
        unspent_outputs(tx, spent, n - 1).push(tx.vout[n - 1])
    }
}

/// The place of the id `id` among `entries`.
pub open spec fn key_index(entries: UtxoView, id: Seq<char>) -> Option<int> {
    if exists|i: int| 0 <= i < entries.len() && entries[i].0 == id {
        Some(choose|i: int| 0 <= i < entries.len() && entries[i].0 == id)
    } else {
        None
    }
}

/// Whether the byte string `a` stands before `b`, byte by byte, a byte
/// string standing before those that it starts.
pub open spec fn bytes_before(a: Seq<u8>, b: Seq<u8>) -> bool
    decreases a.len(),
{
    if b.len() == 0 {
        false
    } else if a.len() == 0 {
        true
    } else if a[0] != b[0] {
        a[0] < b[0]
    } else {
        bytes_before(a.drop_first(), b.drop_first())
    }
}

/// Whether the id `a` stands before the id `b`: by their bytes in UTF-8.
pub open spec fn key_before(a: Seq<char>, b: Seq<char>) -> bool {
    bytes_before(encode_utf8(a), encode_utf8(b))
}

/// Whether the ids of `entries` stand in their order, none twice.
pub open spec fn sorted_keys(entries: UtxoView) -> bool {
    forall|i: int, j: int|
        0 <= i < j < entries.len() ==> key_before(
            (#[trigger] entries[i]).0,
            (#[trigger] entries[j]).0,
        )
}

/// Whether `p` is the place at which the id `id` belongs among `entries`:
/// behind the ids that stand before it, and before the others.
pub open spec fn place_ok(entries: UtxoView, id: Seq<char>, p: int) -> bool {
    &&& 0 <= p <= entries.len()
    &&& forall|i: int| 0 <= i < p ==> key_before((#[trigger] entries[i]).0, id)
    &&& forall|i: int| p <= i < entries.len() ==> !key_before((#[trigger] entries[i]).0, id)
}

/// The place at which the id `id` belongs among `entries`.
pub open spec fn place_of(entries: UtxoView, id: Seq<char>) -> int {
    choose|p: int| place_ok(entries, id, p)
}

/// `entries` with `outs` under the new id `id`, at the place at which the
/// id belongs.
pub open spec fn put_in(entries: UtxoView, id: Seq<char>, outs: Seq<TXOutputView>) -> UtxoView {
    entries.insert(place_of(entries, id), (id, outs))
}

/// `entries` with `outs` added to the outputs under `id`; as they are
/// where `outs` is empty.
pub open spec fn appended(entries: UtxoView, id: Seq<char>, outs: Seq<TXOutputView>) -> UtxoView {
    if outs.len() == 0 {
        entries
    } else {
        match key_index(entries, id) {
            Some(i) => entries.update(i, (id, entries[i].1 + outs)),
            None => put_in(entries, id, outs),
        }
    }
}

/// `entries` with `outs` as the outputs under `id`, whatever was there.
pub open spec fn replaced(entries: UtxoView, id: Seq<char>, outs: Seq<TXOutputView>) -> UtxoView {
    match key_index(entries, id) {
        Some(i) => entries.update(i, (id, outs)),
        None => put_in(entries, id, outs),
    }
}

/// The unspent outputs of the transactions `txs`, which stand from the
/// newest back to the oldest: each transaction adds, under its id, those of
/// its outputs that no transaction before it in `txs` spends.
pub open spec fn utxo_of(txs: Seq<TransactionView>) -> UtxoView
    decreases txs.len(),
{
    if txs.len() == 0 {
        Seq::empty()
    } else {
        let tx = txs.last();
        appended(
            utxo_of(txs.drop_last()),
            tx.id,
            unspent_outputs(tx, spent_refs(txs.drop_last()), tx.vout.len() as int),
        )
    }
}

/// `outs` without the output at the place `vout`.
pub open spec fn without(outs: Seq<TXOutputView>, vout: int) -> Seq<TXOutputView> {
    if 0 <= vout < outs.len() {
        outs.remove(vout)
    } else {
        outs
    }
}

/// `entries` after the output `vout` of the transaction `id` was spent: the
/// id goes where that was its last output. Nothing where the id is not there.
pub open spec fn spend(entries: UtxoView, id: Seq<char>, vout: int) -> Option<UtxoView> {
    match key_index(entries, id) {
        Some(i) => {
            let left = without(entries[i].1, vout);
            if left.len() == 0 {
                Some(entries.remove(i))
            } else {
                Some(entries.update(i, (id, left)))
            }
        },
        None => None,
    }
}

/// `entries` after the first `n` inputs of `tx` spent their outputs.
pub open spec fn spend_inputs(entries: UtxoView, tx: TransactionView, n: int) -> Option<UtxoView>
    decreases n,
{
    if n <= 0 {
        Some(entries)
    } else {
        match spend_inputs(entries, tx, n - 1) {
            Some(e) => spend(e, tx.vin[n - 1].txid, tx.vin[n - 1].vout as int),
            None => None,
        }
    }
}

/// `entries` after `tx` was applied: its inputs spend their outputs, unless
/// it is a coinbase, and its own outputs come in under its id.
pub open spec fn apply_tx(entries: UtxoView, tx: TransactionView) -> Option<UtxoView> {
    let spent = if tx.is_coinbase() {
        Some(entries)
    } else {
        spend_inputs(entries, tx, tx.vin.len() as int)
    };
    match spent {
        Some(e) => Some(replaced(e, tx.id, tx.vout)),
        None => None,
    }
}

/// `entries` after the transactions `txs` were applied one after the other.
pub open spec fn apply_txs(entries: UtxoView, txs: Seq<TransactionView>) -> Option<UtxoView>
    decreases txs.len(),
{
    if txs.len() == 0 {
        Some(entries)
    } else {
        match apply_txs(entries, txs.drop_last()) {
            Some(e) => apply_tx(e, txs.last()),
            None => None,
        }
    }
}

/// An index of unspent outputs.
#[derive(Debug)]
pub struct UtxoStore {
    entries: Vec<UtxoEntry>,
}

impl View for UtxoStore {
    type V = UtxoView;

    closed spec fn view(&self) -> UtxoView {
        list_view(self.entries@)
    }
}

/// No byte string stands before itself.
pub proof fn lemma_before_irreflexive(a: Seq<u8>)
    ensures
        !bytes_before(a, a),
    decreases a.len(),
{
    if a.len() > 0 {
        lemma_before_irreflexive(a.drop_first());
    }
}

/// What stands before a byte string stands before what that stands before.
pub proof fn lemma_before_transitive(a: Seq<u8>, b: Seq<u8>, c: Seq<u8>)
    requires
        bytes_before(a, b),
        bytes_before(b, c),
    ensures
        bytes_before(a, c),
    decreases a.len(),
{
    if a.len() > 0 && b.len() > 0 && c.len() > 0 {
        if a[0] == b[0] && b[0] == c[0] {
            lemma_before_transitive(a.drop_first(), b.drop_first(), c.drop_first());
        }
    }
}

/// Of two byte strings that differ, one stands before the other.
pub proof fn lemma_before_total(a: Seq<u8>, b: Seq<u8>)
    ensures
        a == b || bytes_before(a, b) || bytes_before(b, a),
    decreases a.len(),
{
    if a.len() > 0 && b.len() > 0 {
        if a[0] == b[0] {
            lemma_before_total(a.drop_first(), b.drop_first());
            if a.drop_first() == b.drop_first() {
                assert(a =~= seq![a[0]] + a.drop_first());
                assert(b =~= seq![b[0]] + b.drop_first());
            }
        }
    } else if a.len() == 0 && b.len() == 0 {
        assert(a =~= b);
    }
}

/// Of two ids that differ, one stands before the other, and no id stands
/// before itself.
pub proof fn lemma_keys_ordered(a: Seq<char>, b: Seq<char>)
    ensures
        a == b || key_before(a, b) || key_before(b, a),
        !key_before(a, a),
{
    lemma_before_total(encode_utf8(a), encode_utf8(b));
    lemma_before_irreflexive(encode_utf8(a));
    encode_utf8_decode_utf8(a);
    encode_utf8_decode_utf8(b);
}

/// Among ids in their order, each id has one place.
pub proof fn lemma_sorted_distinct(entries: UtxoView, i: int, j: int)
    requires
        sorted_keys(entries),
        0 <= i < entries.len(),
        0 <= j < entries.len(),
        entries[i].0 == entries[j].0,
    ensures
        i == j,
{
    lemma_keys_ordered(entries[i].0, entries[j].0);
    if i < j {
        assert(key_before(entries[i].0, entries[j].0));
    } else if j < i {
        assert(key_before(entries[j].0, entries[i].0));
    }
}

/// An id has one place at which it belongs.
pub proof fn lemma_place_unique(entries: UtxoView, id: Seq<char>, p: int)
    requires
        place_ok(entries, id, p),
    ensures
        place_of(entries, id) == p,
{
    let q = place_of(entries, id);
    if q < p {
        assert(key_before(entries[q].0, id));
    } else if p < q {
        assert(key_before(entries[p].0, id));
    }
}

/// Putting a new id in at its place keeps the ids in their order.
pub proof fn lemma_put_in_sorted(
    entries: UtxoView,
    id: Seq<char>,
    outs: Seq<TXOutputView>,
    p: int,
)
    requires
        sorted_keys(entries),
        key_index(entries, id) is None,
        place_ok(entries, id, p),
    ensures
        put_in(entries, id, outs) == entries.insert(p, (id, outs)),
        sorted_keys(put_in(entries, id, outs)),
{
    lemma_place_unique(entries, id, p);
    let after = entries.insert(p, (id, outs));
    assert forall|i: int, j: int| 0 <= i < j < after.len() implies key_before(
        (#[trigger] after[i]).0,
        (#[trigger] after[j]).0,
    ) by {
        if j < p {
            assert(after[i] == entries[i] && after[j] == entries[j]);
        } else if j == p {
            assert(after[i] == entries[i]);
        } else if i == p {
            assert(after[j] == entries[j - 1]);
            lemma_keys_ordered(id, entries[j - 1].0);
            assert(!key_before(entries[j - 1].0, id));
            assert(entries[j - 1].0 != id);
        } else if i < p {
            assert(after[i] == entries[i] && after[j] == entries[j - 1]);
        } else {
            assert(after[i] == entries[i - 1] && after[j] == entries[j - 1]);
        }
    }
}

/// Giving an id other outputs keeps the ids in their order.
pub proof fn lemma_update_sorted(entries: UtxoView, i: int, outs: Seq<TXOutputView>)
    requires
        sorted_keys(entries),
        0 <= i < entries.len(),
    ensures
        sorted_keys(entries.update(i, (entries[i].0, outs))),
{
    let after = entries.update(i, (entries[i].0, outs));
    assert forall|a: int, b: int| 0 <= a < b < after.len() implies key_before(
        (#[trigger] after[a]).0,
        (#[trigger] after[b]).0,
    ) by {
        assert(after[a].0 == entries[a].0 && after[b].0 == entries[b].0);
    }
}

/// Taking an id out keeps the ids in their order.
pub proof fn lemma_remove_sorted(entries: UtxoView, i: int)
    requires
        sorted_keys(entries),
        0 <= i < entries.len(),
    ensures
        sorted_keys(entries.remove(i)),
{
    let after = entries.remove(i);
    assert forall|a: int, b: int| 0 <= a < b < after.len() implies key_before(
        (#[trigger] after[a]).0,
        (#[trigger] after[b]).0,
    ) by {
        let a0 = if a < i { a } else { a + 1 };
        let b0 = if b < i { b } else { b + 1 };
        assert(after[a] == entries[a0]);
        assert(after[b] == entries[b0]);
    }
}

/// Spending an output keeps the ids in their order.
pub proof fn lemma_spend_sorted(entries: UtxoView, id: Seq<char>, vout: int)
    requires
        sorted_keys(entries),
        spend(entries, id, vout) is Some,
    ensures
        sorted_keys(spend(entries, id, vout).unwrap()),
{
    let i = key_index(entries, id).unwrap();
    if without(entries[i].1, vout).len() == 0 {
        lemma_remove_sorted(entries, i);
    } else {
        lemma_update_sorted(entries, i, without(entries[i].1, vout));
    }
}

/// Whether the byte string `a` stands before `b`.
pub fn bytes_precede(a: &[u8], b: &[u8]) -> (r: bool)
    ensures
        r == bytes_before(a@, b@),
{
    let mut k: usize = 0;
    assert(a@.skip(0) =~= a@ && b@.skip(0) =~= b@);
    while k < a.len() && k < b.len()
        invariant
            k <= a@.len(),
            k <= b@.len(),
            bytes_before(a@, b@) == bytes_before(a@.skip(k as int), b@.skip(k as int)),
        decreases a@.len() - k,
    {
        proof {
            assert(a@.skip(k as int)[0] == a@[k as int]);
            assert(b@.skip(k as int)[0] == b@[k as int]);
            assert(a@.skip(k as int).drop_first() =~= a@.skip(k + 1));
            assert(b@.skip(k as int).drop_first() =~= b@.skip(k + 1));
        }
        if a[k] != b[k] {
            return a[k] < b[k];
        }
        k = k + 1;
    }
    k < b.len()
}

impl UtxoStore {
    /// Whether the ids stand in their order, none twice.
    pub open spec fn wf(&self) -> bool {
        sorted_keys(self@)
    }

    /// An index that holds nothing.
    pub fn new() -> (s: UtxoStore)
        ensures
            s.wf(),
            s@ == Seq::<(Seq<char>, Seq<TXOutputView>)>::empty(),
    {
        let s = UtxoStore { entries: Vec::new() };
        assert(s@ =~= Seq::empty());
        s
    }

    /// The number of ids.
    pub fn len(&self) -> (n: usize)
        ensures
            n == self@.len(),
    {
        self.entries.len()
    }

    /// The ids with their outputs, in their order.
    pub fn entries(&self) -> (r: &Vec<UtxoEntry>)
        ensures
            list_view(r@) == self@,
    {
        &self.entries
    }

    /// The place of the id `id`.
    fn find(&self, id: &str) -> (r: Option<usize>)
        requires
            self.wf(),
        ensures
            match r {
                Some(i) => i < self@.len() && key_index(self@, id@) == Some(i as int)
                    && self.entries@[i as int].txid@ == id@,
                None => key_index(self@, id@) is None,
            },
    {
        let mut i: usize = 0;
        while i < self.entries.len()
            invariant
                i <= self.entries@.len(),
                self.wf(),
                forall|j: int| 0 <= j < i ==> self@[j].0 != id@,
            decreases self.entries@.len() - i,
        {
            if str_eq(self.entries[i].txid.as_str(), id) {
                proof {
                    assert(self@[i as int].0 == id@);
                    let k = key_index(self@, id@).unwrap();
                    lemma_sorted_distinct(self@, k, i as int);
                }
                return Some(i);
            }
            i = i + 1;
        }
        None
    }

    /// The place at which the id `id` belongs.
    fn place(&self, id: &str) -> (p: usize)
        requires
            self.wf(),
        ensures
            place_ok(self@, id@, p as int),
    {
        let key = id.as_bytes();
        let mut p: usize = 0;
        while p < self.entries.len() && bytes_precede(self.entries[p].txid.as_str().as_bytes(), key)
            invariant
                p <= self.entries@.len(),
                self.wf(),
                key@ == encode_utf8(id@),
                forall|i: int| 0 <= i < p ==> key_before((#[trigger] self@[i]).0, id@),
            decreases self.entries@.len() - p,
        {
            p = p + 1;
        }
        proof {
            assert forall|i: int| p <= i < self@.len() implies !key_before(
                (#[trigger] self@[i]).0,
                id@,
            ) by {
                if i > p {
                    assert(key_before(self@[p as int].0, self@[i].0));
                    if key_before(self@[i].0, id@) {
                        lemma_before_transitive(
                            encode_utf8(self@[p as int].0),
                            encode_utf8(self@[i].0),
                            encode_utf8(id@),
                        );
                    }
                }
            }
        }
        p
    }

    /// The unspent outputs under the id `id`.
    pub fn get(&self, id: &str) -> (r: Option<&TXOutputs>)
        requires
            self.wf(),
        ensures
            match r {
                Some(outs) => key_index(self@, id@) is Some && outs@.outputs == self@[key_index(
                    self@,
                    id@,
                ).unwrap()].1,
                None => key_index(self@, id@) is None,
            },
    {
        match self.find(id) {
            Some(i) => Some(&self.entries[i].outs),
            None => None,
        }
    }

    /// Adds `outs` to the outputs under `id`; nothing where `outs` is empty.
    pub fn append(&mut self, id: String, outs: Vec<TXOutput>)
        requires
            old(self).wf(),
        ensures
            final(self).wf(),
            final(self)@ == appended(old(self)@, id@, list_view(outs@)),
    {
        if outs.len() == 0 {
            return ;
        }
        match self.find(id.as_str()) {
            Some(i) => {
                let ghost before = self.entries@;
                let mut all = copy_outputs(&self.entries[i].outs.outputs);
                let mut more = outs;
                proof {
                    assert(list_view(all@ + more@) =~= list_view(all@) + list_view(more@));
                }
                all.append(&mut more);
                let entry = UtxoEntry { txid: id, outs: TXOutputs { outputs: all } };
                proof {
                    lemma_update_sorted(list_view(before), i as int, entry@.1);
                }
                self.entries.set(i, entry);
                assert(list_view(self.entries@) =~= list_view(before).update(i as int, entry@));
            },
            None => {
                let p = self.place(id.as_str());
                let ghost before = self.entries@;
                let entry = UtxoEntry { txid: id, outs: TXOutputs { outputs: outs } };
                proof {
                    lemma_put_in_sorted(list_view(before), entry@.0, entry@.1, p as int);
                }
                self.entries.insert(p, entry);
                assert(list_view(self.entries@) =~= list_view(before).insert(p as int, entry@));
            },
        }
    }

    /// Puts `outs` under `id`, in the place of what was there.
    pub fn replace(&mut self, id: String, outs: Vec<TXOutput>)
        requires
            old(self).wf(),
        ensures
            final(self).wf(),
            final(self)@ == replaced(old(self)@, id@, list_view(outs@)),
    {
        match self.find(id.as_str()) {
            Some(i) => {
                let ghost before = self.entries@;
                let entry = UtxoEntry { txid: id, outs: TXOutputs { outputs: outs } };
                proof {
                    lemma_update_sorted(list_view(before), i as int, entry@.1);
                }
                self.entries.set(i, entry);
                assert(list_view(self.entries@) =~= list_view(before).update(i as int, entry@));
            },
            None => {
                let p = self.place(id.as_str());
                let ghost before = self.entries@;
                let entry = UtxoEntry { txid: id, outs: TXOutputs { outputs: outs } };
                proof {
                    lemma_put_in_sorted(list_view(before), entry@.0, entry@.1, p as int);
                }
                self.entries.insert(p, entry);
                assert(list_view(self.entries@) =~= list_view(before).insert(p as int, entry@));
            },
        }
    }

    /// Spends the output `vout` of the transaction `id`, and says whether
    /// the id was there; where it was not, nothing changes.
    pub fn spend(&mut self, id: &str, vout: i32) -> (found: bool)
        requires
            old(self).wf(),
        ensures
            final(self).wf(),
            match spend(old(self)@, id@, vout as int) {
                Some(after) => found && final(self)@ == after,
                None => !found && final(self)@ == old(self)@,
            },
    {
        let i = match self.find(id) {
            Some(i) => i,
            None => { return false; },
        };
        proof {
            lemma_spend_sorted(self@, id@, vout as int);
        }
        let ghost before = self.entries@;
        let ghost outs = self@[i as int].1;
        let mut left: Vec<TXOutput> = Vec::new();
        let mut j: usize = 0;
        while j < self.entries[i].outs.outputs.len()
            invariant
                i < self.entries@.len(),
                self.entries@ == before,
                outs == list_view(self.entries@[i as int].outs.outputs@),
                j <= outs.len(),
                list_view(left@) == without(outs.subrange(0, j as int), vout as int),
            decreases outs.len() - j,
        {
            let ghost so_far = left@;
            if vout < 0 || j != vout as usize {
                let item = self.entries[i].outs.outputs[j].clone();
                proof {
                    lemma_list_view_push(so_far, item);
                    assert(without(outs.subrange(0, j + 1), vout as int) =~= without(
                        outs.subrange(0, j as int),
                        vout as int,
                    ).push(outs[j as int]));
                }
                left.push(item);
            } else {
                proof {
                    assert(without(outs.subrange(0, j + 1), vout as int) =~= without(
                        outs.subrange(0, j as int),
                        vout as int,
                    ));
                }
            }
            j = j + 1;
        }
        assert(outs.subrange(0, j as int) =~= outs);
        if left.len() == 0 {
            self.entries.remove(i);
            assert(list_view(self.entries@) =~= list_view(before).remove(i as int));
        } else {
            let entry = UtxoEntry {
                txid: self.entries[i].txid.clone(),
                outs: TXOutputs { outputs: left },
            };
            self.entries.set(i, entry);
            assert(list_view(self.entries@) =~= list_view(before).update(i as int, entry@));
        }
        true
    }
}

impl Clone for UtxoStore {
    fn clone(&self) -> (r: Self)
        ensures
            r@ == self@,
    {
        let mut entries: Vec<UtxoEntry> = Vec::new();
        let mut i: usize = 0;
        while i < self.entries.len()
            invariant
                i <= self.entries@.len(),
                list_view(entries@) == list_view(self.entries@.subrange(0, i as int)),
            decreases self.entries@.len() - i,
        {
            let ghost before = entries@;
            let item = UtxoEntry {
                txid: self.entries[i].txid.clone(),
                outs: self.entries[i].outs.clone(),
            };
            proof {
                lemma_list_view_push(before, item);
                lemma_list_view_push(
                    self.entries@.subrange(0, i as int),
                    self.entries@[i as int],
                );
                assert(self.entries@.subrange(0, i + 1) =~= self.entries@.subrange(
                    0,
                    i as int,
                ).push(self.entries@[i as int]));
            }
            entries.push(item);
            i = i + 1;
        }
        assert(self.entries@.subrange(0, i as int) =~= self.entries@);
        UtxoStore { entries }
    }
}


/// Whether the output at the place `idx` of the transaction `id` is among `spent`.
pub fn is_spent(spent: &Vec<SpentRef>, id: &str, idx: usize) -> (r: bool)
    ensures
        r == list_view(spent@).contains((id@, idx as int)),
{
    let mut k: usize = 0;
    while k < spent.len()
        invariant
            k <= spent@.len(),
            forall|j: int| 0 <= j < k ==> list_view(spent@)[j] != (id@, idx as int),
        decreases spent@.len() - k,
    {
        if spent[k].vout >= 0 && spent[k].vout as usize == idx && str_eq(
            spent[k].txid.as_str(),
            id,
        ) {
            assert(list_view(spent@)[k as int] == (id@, idx as int));
            return true;
        }
        k = k + 1;
    }
    false
}

/// Those of the outputs of `tx` that are not among `spent`.
pub fn unspent_of(tx: &Transaction, spent: &Vec<SpentRef>) -> (r: Vec<TXOutput>)
    ensures
        list_view(r@) == unspent_outputs(tx@, list_view(spent@), tx@.vout.len() as int),
{
    let mut outs: Vec<TXOutput> = Vec::new();
    let mut n: usize = 0;
    while n < tx.vout.len()
        invariant
            n <= tx.vout@.len(),
            list_view(outs@) == unspent_outputs(tx@, list_view(spent@), n as int),
        decreases tx.vout@.len() - n,
    {
        if !is_spent(spent, tx.id.as_str(), n) {
            let ghost before = outs@;
            let item = tx.vout[n].clone();
            proof {
                lemma_list_view_push(before, item);
            }
            outs.push(item);
        }
        n = n + 1;
    }
    outs
}

/// Adds the outputs that the inputs of `tx` spend to `spent`.
pub fn note_spent(spent: &mut Vec<SpentRef>, tx: &Transaction)
    ensures
        list_view(final(spent)@) == list_view(old(spent)@) + tx_refs(tx@),
{
    if tx.is_coinbase() {
        assert(list_view(spent@) + tx_refs(tx@) =~= list_view(spent@));
        return ;
    }
    let ghost start = list_view(spent@);
    let mut i: usize = 0;
    while i < tx.vin.len()
        invariant
            i <= tx.vin@.len(),
            !tx@.is_coinbase(),
            list_view(spent@) == start + tx_refs(tx@).subrange(0, i as int),
        decreases tx.vin@.len() - i,
    {
        let ghost before = spent@;
        let item = SpentRef { txid: tx.vin[i].txid.clone(), vout: tx.vin[i].vout };
        proof {
            lemma_list_view_push(before, item);
            assert(start + tx_refs(tx@).subrange(0, i + 1) =~= (start + tx_refs(tx@).subrange(
                0,
                i as int,
            )).push(item@));
        }
        spent.push(item);
        i = i + 1;
    }
    assert(tx_refs(tx@).subrange(0, i as int) =~= tx_refs(tx@));
}

impl Blockchain {
    /// The unspent outputs of the chain: one pass over its transactions
    /// from the newest block back to the first, which keeps, under the id of
    /// each transaction, those of its outputs that no transaction met
    /// before it spends.
    pub fn find_UTXO(&self) -> (r: UtxoStore)
        requires
            self.wf(),
        ensures
            r.wf(),
            r@ == utxo_of(self@.transactions()),
    {
        let txs = self.transactions();
        let ghost all = list_view(txs@);
        let mut store = UtxoStore::new();
        let mut spent: Vec<SpentRef> = Vec::new();
        let mut k: usize = 0;
        assert(list_view(spent@) =~= spent_refs(all.subrange(0, 0)));
        while k < txs.len()
            invariant
                k <= txs@.len(),
                all == list_view(txs@),
                store.wf(),
                store@ == utxo_of(all.subrange(0, k as int)),
                list_view(spent@) == spent_refs(all.subrange(0, k as int)),
            decreases txs@.len() - k,
        {
            proof {
                assert(all.subrange(0, k + 1).drop_last() =~= all.subrange(0, k as int));
                assert(all.subrange(0, k + 1).last() == all[k as int]);
            }
            let outs = unspent_of(&txs[k], &spent);
            store.append(txs[k].id.clone(), outs);
            note_spent(&mut spent, &txs[k]);
            k = k + 1;
        }
        assert(all.subrange(0, k as int) =~= all);
        store
    }
}


/// The sum of two amounts, held to the range of an `i32`.
pub open spec fn add_clamped(a: int, b: int) -> int {
    if a + b > i32::MAX {
        i32::MAX as int
    } else if a + b < i32::MIN {
        i32::MIN as int
    } else {
        a + b
    }
}

/// The sum of two amounts, held to the range of an `i32`.
pub fn clamped_sum(a: i32, b: i32) -> (r: i32)
    ensures
        r == add_clamped(a as int, b as int),
{
    let sum: i64 = a as i64 + b as i64;
    if sum > i32::MAX as i64 {
        i32::MAX
    } else if sum < i32::MIN as i64 {
        i32::MIN
    } else {
        sum as i32
    }
}

/// The outputs of one transaction that were picked to be spent.
#[derive(Debug, PartialEq, Eq)]
pub struct Spendable {
    pub txid: String,
    pub outs: Vec<i32>,
}

impl View for Spendable {
    type V = (Seq<char>, Seq<i32>);

    open spec fn view(&self) -> (Seq<char>, Seq<i32>) {
        (self.txid@, self.outs@)
    }
}

/// Picks among the first `n` of `outs`: an output is picked where it is
/// locked to `pub_key_hash` and what was gathered before it is less than
/// `amount`. Gives what is gathered, from `acc` on, and the places picked.
pub open spec fn pick_outputs(
    outs: Seq<TXOutputView>,
    pub_key_hash: Seq<u8>,
    amount: int,
    acc: int,
    n: int,
) -> (int, Seq<i32>)
    decreases n,
{
    if n <= 0 {
        (acc, Seq::empty())
    } else {
        let before = pick_outputs(outs, pub_key_hash, amount, acc, n - 1);
        if outs[n - 1].pub_key_hash == pub_key_hash && before.0 < amount && n - 1 <= i32::MAX {
            (add_clamped(before.0, outs[n - 1].value as int), before.1.push((n - 1) as i32))
        } else {
            before
        }
    }
}

/// Picks among the outputs of the first `k` of `entries`, in their order.
/// Gives what is gathered, and for each id with a picked output the places
/// picked.
pub open spec fn pick_entries(
    entries: UtxoView,
    pub_key_hash: Seq<u8>,
    amount: int,
    k: int,
) -> (int, Seq<(Seq<char>, Seq<i32>)>)
    decreases k,
{
    if k <= 0 {
        (0, Seq::empty())
    } else {
        let before = pick_entries(entries, pub_key_hash, amount, k - 1);
        let here = pick_outputs(
            entries[k - 1].1,
            pub_key_hash,
            amount,
            before.0,
            entries[k - 1].1.len() as int,
        );
        (
            here.0,
            if here.1.len() > 0 {
                before.1.push((entries[k - 1].0, here.1))
            } else {
                before.1
            },
        )
    }
}

/// Those of the first `n` of `outs` that are locked to `pub_key_hash`.
pub open spec fn locked_among(outs: Seq<TXOutputView>, pub_key_hash: Seq<u8>, n: int) -> Seq<
    TXOutputView,
>
    decreases n,
{
    if n <= 0 {
        Seq::empty()
    } else if outs[n - 1].pub_key_hash == pub_key_hash {
        locked_among(outs, pub_key_hash, n - 1).push(outs[n - 1])
    } else {
        locked_among(outs, pub_key_hash, n - 1)
    }
}

/// The outputs of the first `k` of `entries` that are locked to `pub_key_hash`.
pub open spec fn locked_outputs(entries: UtxoView, pub_key_hash: Seq<u8>, k: int) -> Seq<
    TXOutputView,
>
    decreases k,
{
    if k <= 0 {
        Seq::empty()
    } else {
        locked_outputs(entries, pub_key_hash, k - 1) + locked_among(
            entries[k - 1].1,
            pub_key_hash,
            entries[k - 1].1.len() as int,
        )
    }
}

/// The values of the first `n` of `outs`, summed up one after the other,
/// each sum held to the range of an `i32`.
pub open spec fn sum_values(outs: Seq<TXOutputView>, n: int) -> int
    decreases n,
{
    if n <= 0 {
        0
    } else {
        add_clamped(sum_values(outs, n - 1), outs[n - 1].value as int)
    }
}

/// What is locked to `pub_key_hash` among `entries`.
pub open spec fn balance_of(entries: UtxoView, pub_key_hash: Seq<u8>) -> int {
    let outs = locked_outputs(entries, pub_key_hash, entries.len() as int);
    sum_values(outs, outs.len() as int)
}

/// A chain and an index after the index was built anew from the chain.
pub open spec fn reindexed(s: (ChainView, UtxoView)) -> (ChainView, UtxoView) {
    (s.0, utxo_of(s.0.transactions()))
}

/// Building the index anew twice gives what building it anew once gives.
pub proof fn lemma_reindex_idempotent(s: (ChainView, UtxoView))
    ensures
        reindexed(reindexed(s)) == reindexed(s),
{
}

/// A chain with its index of unspent outputs.
#[derive(Debug)]
pub struct UTXOSet {
    pub blockchain: Blockchain,
    store: UtxoStore,
}

impl UTXOSet {
    /// What the index holds.
    pub closed spec fn index(&self) -> UtxoView {
        self.store@
    }

    /// What the chain holds.
    pub closed spec fn chain(&self) -> ChainView {
        self.blockchain@
    }

    /// Whether the chain and the index are well formed.
    pub open spec fn wf(&self) -> bool {
        self.chain().wf() && sorted_keys(self.index())
    }

    /// The chain `blockchain` with an index that holds nothing yet.
    pub fn new(blockchain: Blockchain) -> (r: UTXOSet)
        requires
            blockchain.wf(),
        ensures
            r.wf(),
            r.chain() == blockchain@,
            r.index() == Seq::<(Seq<char>, Seq<TXOutputView>)>::empty(),
    {
        UTXOSet { blockchain, store: UtxoStore::new() }
    }

    /// The chain `blockchain` with the index `store`.
    pub fn with_store(blockchain: Blockchain, store: UtxoStore) -> (r: UTXOSet)
        requires
            blockchain.wf(),
            store.wf(),
        ensures
            r.wf(),
            r.chain() == blockchain@,
            r.index() == store@,
    {
        UTXOSet { blockchain, store }
    }

    /// The chain.
    pub fn chain_ref(&self) -> (r: &Blockchain)
        ensures
            r@ == self.chain(),
    {
        &self.blockchain
    }

    /// Offers `block` to the chain, and says whether it was stored; the
    /// index stays as it is.
    pub fn add_block(&mut self, block: Block) -> (stored: bool)
        requires
            old(self).wf(),
        ensures
            final(self).wf(),
            final(self).index() == old(self).index(),
            final(self).chain() == old(self).chain().with_block(block@),
            stored == (!old(self).chain().contains(block@.hash) && old(self).chain().acceptable(
                block@,
            )),
    {
        self.blockchain.add_block(block)
    }

    /// Mines a block that holds `transactions` on top of the chain; the
    /// index stays as it is.
    pub fn mine_block(&mut self, transactions: Vec<Transaction>) -> (r: Result<Block, Error>)
        requires
            old(self).wf(),
        ensures
            final(self).wf(),
            final(self).index() == old(self).index(),
            match r {
                Ok(b) => mining_done(
                    old(self).chain(),
                    list_view(transactions@),
                    Ok(b@),
                    final(self).chain(),
                ),
                Err(e) => mining_done(
                    old(self).chain(),
                    list_view(transactions@),
                    Err(e),
                    final(self).chain(),
                ),
            },
    {
        self.blockchain.mine_block(transactions)
    }

    /// The index.
    pub fn store(&self) -> (r: &UtxoStore)
        ensures
            r@ == self.index(),
    {
        &self.store
    }

    /// Picks unspent outputs locked to `pub_key_hash` until they hold
    /// `amount`, going through the index in its order. Gives what they hold
    /// together, and which they are.
    pub fn find_spendable_outputs(&self, pub_key_hash: &[u8], amount: i32) -> (r: (
        i32,
        Vec<Spendable>,
    ))
        requires
            self.wf(),
        ensures
            r.0 == pick_entries(
                self.index(),
                pub_key_hash@,
                amount as int,
                self.index().len() as int,
            ).0,
            list_view(r.1@) == pick_entries(
                self.index(),
                pub_key_hash@,
                amount as int,
                self.index().len() as int,
            ).1,
    {
        let mut unspent: Vec<Spendable> = Vec::new();
        let mut accumulated: i32 = 0;
        let entries = self.store.entries();
        let ghost index = self.index();
        let mut k: usize = 0;
        while k < entries.len()
            invariant
                k <= entries@.len(),
                index == list_view(entries@),
                accumulated == pick_entries(index, pub_key_hash@, amount as int, k as int).0,
                list_view(unspent@) == pick_entries(index, pub_key_hash@, amount as int, k as int).1,
            decreases entries@.len() - k,
        {
            let outs = &entries[k].outs.outputs;
            let ghost start = accumulated as int;
            let ghost views = index[k as int].1;
            let mut picked: Vec<i32> = Vec::new();
            let mut n: usize = 0;
            while n < outs.len()
                invariant
                    n <= outs@.len(),
                    views == list_view(outs@),
                    accumulated == pick_outputs(views, pub_key_hash@, amount as int, start, n as int).0,
                    picked@ == pick_outputs(views, pub_key_hash@, amount as int, start, n as int).1,
                decreases outs@.len() - n,
            {
                if outs[n].is_locked_with_key(pub_key_hash) && accumulated < amount && n
                    <= i32::MAX as usize {
                    accumulated = clamped_sum(accumulated, outs[n].value);
                    picked.push(n as i32);
                }
                n = n + 1;
            }
            if picked.len() > 0 {
                let ghost before = unspent@;
                let item = Spendable { txid: entries[k].txid.clone(), outs: picked };
                proof {
                    lemma_list_view_push(before, item);
                }
                unspent.push(item);
            }
            k = k + 1;
        }
        (accumulated, unspent)
    }

    /// The unspent outputs locked to `pub_key_hash`, in the order of the index.
    pub fn find_UTXO(&self, pub_key_hash: &[u8]) -> (r: TXOutputs)
        requires
            self.wf(),
        ensures
            r@.outputs == locked_outputs(self.index(), pub_key_hash@, self.index().len() as int),
    {
        let mut utxos: Vec<TXOutput> = Vec::new();
        let entries = self.store.entries();
        let ghost index = self.index();
        let mut k: usize = 0;
        while k < entries.len()
            invariant
                k <= entries@.len(),
                index == list_view(entries@),
                list_view(utxos@) == locked_outputs(index, pub_key_hash@, k as int),
            decreases entries@.len() - k,
        {
            let outs = &entries[k].outs.outputs;
            let ghost start = list_view(utxos@);
            let ghost views = index[k as int].1;
            let mut n: usize = 0;
            while n < outs.len()
                invariant
                    n <= outs@.len(),
                    views == list_view(outs@),
                    list_view(utxos@) == start + locked_among(views, pub_key_hash@, n as int),
                decreases outs@.len() - n,
            {
                if outs[n].is_locked_with_key(pub_key_hash) {
                    let ghost before = utxos@;
                    let item = outs[n].clone();
                    proof {
                        lemma_list_view_push(before, item);
                        assert(start + locked_among(views, pub_key_hash@, n + 1) =~= (start
                            + locked_among(views, pub_key_hash@, n as int)).push(item@));
                    }
                    utxos.push(item);
                }
                n = n + 1;
            }
            k = k + 1;
        }
        TXOutputs { outputs: utxos }
    }

    /// What is locked to `pub_key_hash` in the index: the values of its
    /// unspent outputs, summed up within the range of an `i32`.
    pub fn get_balance(&self, pub_key_hash: &[u8]) -> (r: i32)
        requires
            self.wf(),
        ensures
            r == balance_of(self.index(), pub_key_hash@),
    {
        let utxos = self.find_UTXO(pub_key_hash);
        let mut balance: i32 = 0;
        let mut n: usize = 0;
        while n < utxos.outputs.len()
            invariant
                n <= utxos.outputs@.len(),
                balance == sum_values(utxos@.outputs, n as int),
            decreases utxos.outputs@.len() - n,
        {
            balance = clamped_sum(balance, utxos.outputs[n].value);
            n = n + 1;
        }
        balance
    }

    /// The number of transactions with an unspent output; `i32::MAX` where
    /// there are more than that.
    pub fn count_transactions(&self) -> (r: i32)
        ensures
            r == if self.index().len() > i32::MAX {
                i32::MAX as int
            } else {
                self.index().len() as int
            },
    {
        let n = self.store.len();
        if n > i32::MAX as usize {
            i32::MAX
        } else {
            n as i32
        }
    }

    /// Builds the index anew from the chain.
    pub fn reindex(&mut self)
        requires
            old(self).wf(),
        ensures
            final(self).wf(),
            final(self).chain() == old(self).chain(),
            final(self).index() == utxo_of(old(self).chain().transactions()),
            (final(self).chain(), final(self).index()) == reindexed(
                (old(self).chain(), old(self).index()),
            ),
    {
        self.store = self.blockchain.find_UTXO();
    }

    /// Brings the index up to date with `block`, the newest of the chain:
    /// the inputs of each of its transactions spend their outputs, and its
    /// outputs come in. `NotFound`, and no change, where an input spends
    /// from a transaction that the index does not hold.
    pub fn update(&mut self, block: &Block) -> (r: Result<(), Error>)
        requires
            old(self).wf(),
        ensures
            final(self).wf(),
            final(self).chain() == old(self).chain(),
            match r {
                Ok(_) => apply_txs(old(self).index(), block@.transactions) == Some(
                    final(self).index(),
                ),
                Err(e) => e == Error::NotFound && apply_txs(
                    old(self).index(),
                    block@.transactions,
                ) is None && final(self).index() == old(self).index(),
            },
    {
        let mut work = self.store.clone();
        let txs = block.get_transaction();
        let ghost all = list_view(txs@);
        let ghost start = self.index();
        let mut k: usize = 0;
        while k < txs.len()
            invariant
                k <= txs@.len(),
                all == list_view(txs@),
                all == block@.transactions,
                work.wf(),
                self.wf(),
                self.chain() == old(self).chain(),
                start == self.index(),
                start == old(self).index(),
                apply_txs(start, all.subrange(0, k as int)) == Some(work@),
            decreases txs@.len() - k,
        {
            proof {
                assert(all.subrange(0, k + 1).drop_last() =~= all.subrange(0, k as int));
                assert(all.subrange(0, k + 1).last() == all[k as int]);
            }
            if !apply_to(&mut work, &txs[k]) {
                proof {
                    assert(apply_txs(start, all.subrange(0, k + 1)) is None);
                    lemma_apply_txs_fails(start, all, k + 1);
                }
                return Err(Error::NotFound);
            }
            k = k + 1;
        }
        assert(all.subrange(0, k as int) =~= all);
        self.store = work;
        Ok(())
    }
}

/// Where applying the first `k` of some transactions fails, applying all
/// of them fails.
pub proof fn lemma_apply_txs_fails(entries: UtxoView, txs: Seq<TransactionView>, k: int)
    requires
        0 <= k <= txs.len(),
        apply_txs(entries, txs.subrange(0, k)) is None,
    ensures
        apply_txs(entries, txs) is None,
    decreases txs.len() - k,
{
    if k == txs.len() {
        assert(txs.subrange(0, k) =~= txs);
    } else {
        assert(txs.subrange(0, k + 1).drop_last() =~= txs.subrange(0, k));
        lemma_apply_txs_fails(entries, txs, k + 1);
    }
}

/// Applies `tx` to `store`, and says whether every input found the
/// transaction that it spends from; where one did not, `store` is left in
/// some well-formed state.
pub fn apply_to(store: &mut UtxoStore, tx: &Transaction) -> (ok: bool)
    requires
        old(store).wf(),
    ensures
        final(store).wf(),
        match apply_tx(old(store)@, tx@) {
            Some(after) => ok && final(store)@ == after,
            None => !ok,
        },
{
    if !tx.is_coinbase() {
        let ghost start = store@;
        let mut i: usize = 0;
        while i < tx.vin.len()
            invariant
                i <= tx.vin@.len(),
                store.wf(),
                start == old(store)@,
                !tx@.is_coinbase(),
                spend_inputs(start, tx@, i as int) == Some(store@),
            decreases tx.vin@.len() - i,
        {
            if !store.spend(tx.vin[i].txid.as_str(), tx.vin[i].vout) {
                proof {
                    assert(spend_inputs(start, tx@, i + 1) is None);
                    lemma_spend_inputs_fails(start, tx@, i + 1);
                }
                return false;
            }
            i = i + 1;
        }
    }
    store.replace(tx.id.clone(), copy_outputs(&tx.vout));
    true
}

/// Where the first `n` inputs cannot spend their outputs, neither can all.
pub proof fn lemma_spend_inputs_fails(entries: UtxoView, tx: TransactionView, n: int)
    requires
        0 <= n <= tx.vin.len(),
        spend_inputs(entries, tx, n) is None,
    ensures
        spend_inputs(entries, tx, tx.vin.len() as int) is None,
    decreases tx.vin.len() - n,
{
    if n < tx.vin.len() {
        lemma_spend_inputs_fails(entries, tx, n + 1);
    }
}


/// The inputs that spend the outputs picked under one id.
pub open spec fn inputs_for(id: Seq<char>, places: Seq<i32>, pub_key: Seq<u8>) -> Seq<TXInputView> {
    Seq::new(
        places.len(),
        |j: int| TXInputView { txid: id, vout: places[j], signature: Seq::empty(), pub_key },
    )
}

/// The inputs that spend the outputs picked under the first `k` ids.
pub open spec fn inputs_of(picked: Seq<(Seq<char>, Seq<i32>)>, pub_key: Seq<u8>, k: int) -> Seq<
    TXInputView,
>
    decreases k,
{
    if k <= 0 {
        Seq::empty()
    } else {
        inputs_of(picked, pub_key, k - 1) + inputs_for(picked[k - 1].0, picked[k - 1].1, pub_key)
    }
}

/// The outputs of a payment of `amount` to the public key hash `to` out of
/// `gathered`: the payment, and what is left over, if anything is, back to
/// `own`.
pub open spec fn payment_outputs(amount: i32, to: Seq<u8>, gathered: int, own: Seq<u8>) -> Seq<
    TXOutputView,
> {
    let payment = TXOutputView { value: amount, pub_key_hash: to };
    if gathered > amount {
        seq![
            payment,
            TXOutputView { value: add_clamped(gathered, -(amount as int)) as i32, pub_key_hash: own },
        ]
    } else {
        seq![payment]
    }
}

/// The payment of `amount` to the address `to` by the owner of `pub_key`,
/// out of the unspent outputs of `index`, before it is signed.
/// `InsufficientFunds` where the outputs of the owner hold less than
/// `amount`, `AddressError` where `to`, or the address of the owner where
/// something is left over, is not well formed.
pub open spec fn payment_draft(
    pub_key: Seq<u8>,
    to: Seq<char>,
    amount: i32,
    index: UtxoView,
) -> Result<TransactionView, Error> {
    let picked = pick_entries(index, pub_key_hash(pub_key), amount as int, index.len() as int);
    if picked.0 < amount {
        Err(Error::InsufficientFunds)
    } else if base58check_payload(to) is None {
        Err(Error::AddressError)
    } else if picked.0 > amount && base58check_payload(address_of(pub_key)) is None {
        Err(Error::AddressError)
    } else {
        let body = TransactionView {
            id: Seq::empty(),
            vin: inputs_of(picked.1, pub_key, picked.1.len() as int),
            vout: payment_outputs(
                amount,
                base58check_payload(to).unwrap(),
                picked.0,
                base58check_payload(address_of(pub_key)).unwrap(),
            ),
        };
        if hashable(body.hash_payload()) {
            Ok(body.with_id(body.hash()))
        } else {
            Err(Error::EncodingError)
        }
    }
}

impl Transaction {
    /// A payment of `amount` from `wallet` to the address `to`, out of the
    /// unspent outputs of `utxo`, signed with the key of the wallet. The
    /// wallet holds a secret key of 64 bytes and a public key of 32.
    pub fn new_UTXO(wallet: &Wallet, to: &str, amount: i32, utxo: &UTXOSet) -> (r: Result<
        Transaction,
        Error,
    >)
        requires
            utxo.wf(),
            wallet@.secret_key.len() == SECRET_KEY_LEN,
            wallet@.public_key.len() == PUBLIC_KEY_LEN,
        ensures
            match r {
                Ok(tx) => match payment_draft(wallet@.public_key, to@, amount, utxo.index()) {
                    Ok(draft) => draft.obstacle(utxo.chain().transactions()) is None && tx@
                        == draft.signed(wallet@.secret_key, utxo.chain().transactions()),
                    Err(_) => false,
                },
                Err(e) => match payment_draft(wallet@.public_key, to@, amount, utxo.index()) {
                    Ok(draft) => draft.obstacle(utxo.chain().transactions()) == Some(e),
                    Err(d) => e == d,
                },
            },
    {
        let mut key_hash = copy_bytes(wallet.public_key.as_slice());
        hash_pub_key(&mut key_hash);
        let found = utxo.find_spendable_outputs(key_hash.as_slice(), amount);
        let accumulated = found.0;
        let picked = found.1;
        if accumulated < amount {
            return Err(Error::InsufficientFunds);
        }
        let ghost pk = wallet@.public_key;
        let ghost lists = list_view(picked@);
        let mut vin: Vec<TXInput> = Vec::new();
        let mut k: usize = 0;
        while k < picked.len()
            invariant
                k <= picked@.len(),
                lists == list_view(picked@),
                pk == wallet@.public_key,
                list_view(vin@) == inputs_of(lists, pk, k as int),
            decreases picked@.len() - k,
        {
            let ghost start = list_view(vin@);
            let places = &picked[k].outs;
            let mut j: usize = 0;
            while j < places.len()
                invariant
                    j <= places@.len(),
                    k < picked@.len(),
                    places@ == lists[k as int].1,
                    picked@[k as int].txid@ == lists[k as int].0,
                    pk == wallet@.public_key,
                    list_view(vin@) == start + inputs_for(
                        lists[k as int].0,
                        lists[k as int].1,
                        pk,
                    ).subrange(0, j as int),
                decreases places@.len() - j,
            {
                let ghost before = vin@;
                let input = TXInput {
                    txid: picked[k].txid.clone(),
                    vout: places[j],
                    signature: Vec::new(),
                    pub_key: copy_bytes(wallet.public_key.as_slice()),
                };
                proof {
                    lemma_list_view_push(before, input);
                    let full = inputs_for(lists[k as int].0, lists[k as int].1, pk);
                    assert(start + full.subrange(0, j + 1) =~= (start + full.subrange(
                        0,
                        j as int,
                    )).push(input@));
                }
                vin.push(input);
                j = j + 1;
            }
            proof {
                let full = inputs_for(lists[k as int].0, lists[k as int].1, pk);
                assert(full.subrange(0, j as int) =~= full);
            }
            k = k + 1;
        }
        let payment = match TXOutput::new(amount, String::from_str(to)) {
            Ok(o) => o,
            Err(e) => { return Err(e); },
        };
        let mut vout: Vec<TXOutput> = Vec::new();
        proof {
            lemma_list_view_push(vout@, payment);
        }
        vout.push(payment);
        if accumulated > amount {
            let left = clamped_sub(accumulated, amount);
            let change = match TXOutput::new(left, wallet.get_address()) {
                Ok(o) => o,
                Err(e) => { return Err(e); },
            };
            proof {
                lemma_list_view_push(vout@, change);
            }
            vout.push(change);
        }
        let mut tx = Transaction { id: String::new(), vin, vout };
        proof {
            assert(tx@.vout =~= payment_outputs(
                amount,
                base58check_payload(to@).unwrap(),
                accumulated as int,
                base58check_payload(address_of(pk)).unwrap(),
            ));
        }
        match tx.hash() {
            Ok(h) => {
                tx.id = h;
            },
            Err(e) => { return Err(e); },
        }
        match utxo.blockchain.sign_transacton(&mut tx, wallet.secret_key.as_slice()) {
            Ok(_) => Ok(tx),
            Err(e) => Err(e),
        }
    }
}

/// The difference of two amounts, held to the range of an `i32`.
pub fn clamped_sub(a: i32, b: i32) -> (r: i32)
    ensures
        r == add_clamped(a as int, -(b as int)),
{
    let d: i64 = a as i64 - b as i64;
    if d > i32::MAX as i64 {
        i32::MAX
    } else if d < i32::MIN as i64 {
        i32::MIN
    } else {
        d as i32
    }
}


impl TXInputView {
    /// Whether the key of the input is one whose hash is `pub_key_hash`;
    /// a key too long to be hashed is none.
    pub open spec fn uses_key(self, key_hash: Seq<u8>) -> bool {
        hashable(self.pub_key) && pub_key_hash(self.pub_key) == key_hash
    }
}

impl TXInput {
    /// Whether the key of the input is one whose hash is `pub_key_hash`.
    pub fn uses_key(&self, pub_key_hash: &[u8]) -> (r: bool)
        ensures
            r == self@.uses_key(pub_key_hash@),
    {
        if self.pub_key.len() as u64 >= DIGEST_INPUT_LIMIT {
            return false;
        }
        let mut locking_hash = copy_bytes(self.pub_key.as_slice());
        hash_pub_key(&mut locking_hash);
        bytes_eq(locking_hash.as_slice(), pub_key_hash)
    }
}

/// The outputs that the first `n` inputs of `tx` spend with a key whose
/// hash is `pub_key_hash`.
pub open spec fn key_refs(tx: TransactionView, pub_key_hash: Seq<u8>, n: int) -> Seq<
    (Seq<char>, int),
>
    decreases n,
{
    if n <= 0 {
        Seq::empty()
    } else if tx.vin[n - 1].uses_key(pub_key_hash) {
        key_refs(tx, pub_key_hash, n - 1).push((tx.vin[n - 1].txid, tx.vin[n - 1].vout as int))
    } else {
        key_refs(tx, pub_key_hash, n - 1)
    }
}

/// The outputs that the inputs of `txs` spend with a key whose hash is
/// `pub_key_hash`; a coinbase spends none.
pub open spec fn spent_with_key(txs: Seq<TransactionView>, pub_key_hash: Seq<u8>) -> Seq<
    (Seq<char>, int),
>
    decreases txs.len(),
{
    if txs.len() == 0 {
        Seq::empty()
    } else if txs.last().is_coinbase() {
        spent_with_key(txs.drop_last(), pub_key_hash)
    } else {
        spent_with_key(txs.drop_last(), pub_key_hash) + key_refs(
            txs.last(),
            pub_key_hash,
            txs.last().vin.len() as int,
        )
    }
}

/// `tx` once for each of its first `n` outputs that is not among `spent`
/// and is locked to `pub_key_hash`.
pub open spec fn unspent_hits(
    tx: TransactionView,
    spent: Seq<(Seq<char>, int)>,
    pub_key_hash: Seq<u8>,
    n: int,
) -> Seq<TransactionView>
    decreases n,
{
    if n <= 0 {
        Seq::empty()
    } else if !spent.contains((tx.id, n - 1)) && tx.vout[n - 1].pub_key_hash == pub_key_hash {
        unspent_hits(tx, spent, pub_key_hash, n - 1).push(tx)
    } else {
        unspent_hits(tx, spent, pub_key_hash, n - 1)
    }
}

/// The transactions of `txs`, which stand from the newest back to the
/// oldest, with an output locked to `pub_key_hash` that no transaction
/// before them in `txs` spends with a key of that hash: each once for each
/// such output.
pub open spec fn unspent_txs(txs: Seq<TransactionView>, pub_key_hash: Seq<u8>) -> Seq<
    TransactionView,
>
    decreases txs.len(),
{
    if txs.len() == 0 {
        Seq::empty()
    } else {
        unspent_txs(txs.drop_last(), pub_key_hash) + unspent_hits(
            txs.last(),
            spent_with_key(txs.drop_last(), pub_key_hash),
            pub_key_hash,
            txs.last().vout.len() as int,
        )
    }
}

/// The place of the id `id` among `picked`.
pub open spec fn picked_index(picked: Seq<(Seq<char>, Seq<i32>)>, id: Seq<char>) -> Option<int> {
    if exists|i: int| 0 <= i < picked.len() && picked[i].0 == id {
        Some(
            choose|i: int|
                0 <= i < picked.len() && picked[i].0 == id && forall|j: int|
                    0 <= j < i ==> picked[j].0 != id,
        )
    } else {
        None
    }
}

/// `picked` with `places` added to the places under `id`; as it is where
/// `places` is empty.
pub open spec fn merged(
    picked: Seq<(Seq<char>, Seq<i32>)>,
    id: Seq<char>,
    places: Seq<i32>,
) -> Seq<(Seq<char>, Seq<i32>)> {
    if places.len() == 0 {
        picked
    } else {
        match picked_index(picked, id) {
            Some(i) => picked.update(i, (id, picked[i].1 + places)),
            None => picked.push((id, places)),
        }
    }
}

/// Picks among the outputs of the first `k` of `txs`, in their order: an
/// output is picked where it is locked to `pub_key_hash` and what was
/// gathered before it is less than `amount`. Gives what is gathered, and
/// for each id with a picked output the places picked.
pub open spec fn pick_txs(
    txs: Seq<TransactionView>,
    pub_key_hash: Seq<u8>,
    amount: int,
    k: int,
) -> (int, Seq<(Seq<char>, Seq<i32>)>)
    decreases k,
{
    if k <= 0 {
        (0, Seq::empty())
    } else {
        let before = pick_txs(txs, pub_key_hash, amount, k - 1);
        let here = pick_outputs(
            txs[k - 1].vout,
            pub_key_hash,
            amount,
            before.0,
            txs[k - 1].vout.len() as int,
        );
        (here.0, merged(before.1, txs[k - 1].id, here.1))
    }
}

impl Blockchain {
    /// The transactions with an unspent output locked to `pub_key_hash`,
    /// found in one pass from the newest block back to the first: each
    /// once for each output that is locked to `pub_key_hash` and that no
    /// transaction met before spends with a key of that hash.
    pub fn find_unspent_transactions(&self, pub_key_hash: &[u8]) -> (r: Vec<Transaction>)
        requires
            self.wf(),
        ensures
            list_view(r@) == unspent_txs(self@.transactions(), pub_key_hash@),
    {
        let txs = self.transactions();
        let ghost all = list_view(txs@);
        let mut spent: Vec<SpentRef> = Vec::new();
        let mut unspent: Vec<Transaction> = Vec::new();
        let mut k: usize = 0;
        proof {
            assert(list_view(spent@) =~= spent_with_key(all.subrange(0, 0), pub_key_hash@));
            assert(list_view(unspent@) =~= unspent_txs(all.subrange(0, 0), pub_key_hash@));
        }
        while k < txs.len()
            invariant
                k <= txs@.len(),
                all == list_view(txs@),
                list_view(spent@) == spent_with_key(all.subrange(0, k as int), pub_key_hash@),
                list_view(unspent@) == unspent_txs(all.subrange(0, k as int), pub_key_hash@),
            decreases txs@.len() - k,
        {
            proof {
                assert(all.subrange(0, k + 1).drop_last() =~= all.subrange(0, k as int));
                assert(all.subrange(0, k + 1).last() == all[k as int]);
            }
            let tx = &txs[k];
            let ghost found = list_view(unspent@);
            let mut n: usize = 0;
            while n < tx.vout.len()
                invariant
                    n <= tx.vout@.len(),
                    list_view(unspent@) == found + unspent_hits(
                        tx@,
                        list_view(spent@),
                        pub_key_hash@,
                        n as int,
                    ),
                decreases tx.vout@.len() - n,
            {
                if !is_spent(&spent, tx.id.as_str(), n) && tx.vout[n].is_locked_with_key(
                    pub_key_hash,
                ) {
                    let ghost before = unspent@;
                    let item = tx.clone();
                    proof {
                        lemma_list_view_push(before, item);
                        assert(found + unspent_hits(
                            tx@,
                            list_view(spent@),
                            pub_key_hash@,
                            n + 1,
                        ) =~= (found + unspent_hits(tx@, list_view(spent@), pub_key_hash@, n as int)).push(
                            item@,
                        ));
                    }
                    unspent.push(item);
                }
                n = n + 1;
            }
            if !tx.is_coinbase() {
                let ghost noted = list_view(spent@);
                let mut i: usize = 0;
                while i < tx.vin.len()
                    invariant
                        i <= tx.vin@.len(),
                        list_view(spent@) == noted + key_refs(tx@, pub_key_hash@, i as int),
                    decreases tx.vin@.len() - i,
                {
                    if tx.vin[i].uses_key(pub_key_hash) {
                        let ghost before = spent@;
                        let item = SpentRef { txid: tx.vin[i].txid.clone(), vout: tx.vin[i].vout };
                        proof {
                            lemma_list_view_push(before, item);
                            assert(noted + key_refs(tx@, pub_key_hash@, i + 1) =~= (noted
                                + key_refs(tx@, pub_key_hash@, i as int)).push(item@));
                        }
                        spent.push(item);
                    }
                    i = i + 1;
                }
            }
            k = k + 1;
        }
        assert(all.subrange(0, k as int) =~= all);
        unspent
    }

    /// Picks outputs locked to `pub_key_hash` out of the transactions with
    /// an unspent output, in their order, until they hold `amount`. Gives
    /// what they hold together, and which they are.
    pub fn find_spendable_outputs(&self, pub_key_hash: &[u8], amount: i32) -> (r: (
        i32,
        Vec<Spendable>,
    ))
        requires
            self.wf(),
        ensures
            r.0 == pick_txs(
                unspent_txs(self@.transactions(), pub_key_hash@),
                pub_key_hash@,
                amount as int,
                unspent_txs(self@.transactions(), pub_key_hash@).len() as int,
            ).0,
            list_view(r.1@) == pick_txs(
                unspent_txs(self@.transactions(), pub_key_hash@),
                pub_key_hash@,
                amount as int,
                unspent_txs(self@.transactions(), pub_key_hash@).len() as int,
            ).1,
    {
        let txs = self.find_unspent_transactions(pub_key_hash);
        let ghost all = list_view(txs@);
        let mut unspent_outputs: Vec<Spendable> = Vec::new();
        let mut accumulated: i32 = 0;
        let mut k: usize = 0;
        while k < txs.len()
            invariant
                k <= txs@.len(),
                all == list_view(txs@),
                accumulated == pick_txs(all, pub_key_hash@, amount as int, k as int).0,
                list_view(unspent_outputs@) == pick_txs(all, pub_key_hash@, amount as int, k as int).1,
            decreases txs@.len() - k,
        {
            let tx = &txs[k];
            let ghost start = accumulated as int;
            let mut picked: Vec<i32> = Vec::new();
            let mut n: usize = 0;
            while n < tx.vout.len()
                invariant
                    n <= tx.vout@.len(),
                    accumulated == pick_outputs(
                        tx@.vout,
                        pub_key_hash@,
                        amount as int,
                        start,
                        n as int,
                    ).0,
                    picked@ == pick_outputs(tx@.vout, pub_key_hash@, amount as int, start, n as int).1,
                decreases tx.vout@.len() - n,
            {
                if tx.vout[n].is_locked_with_key(pub_key_hash) && accumulated < amount && n
                    <= i32::MAX as usize {
                    accumulated = clamped_sum(accumulated, tx.vout[n].value);
                    picked.push(n as i32);
                }
                n = n + 1;
            }
            merge_picked(&mut unspent_outputs, tx.id.as_str(), picked);
            k = k + 1;
        }
        (accumulated, unspent_outputs)
    }
}

/// Adds `places` to the places under `id`; nothing where `places` is empty.
pub fn merge_picked(picked: &mut Vec<Spendable>, id: &str, places: Vec<i32>)
    ensures
        list_view(final(picked)@) == merged(list_view(old(picked)@), id@, places@),
{
    if places.len() == 0 {
        return ;
    }
    let ghost views = list_view(picked@);
    let mut i: usize = 0;
    while i < picked.len()
        invariant
            i <= picked@.len(),
            picked@ == old(picked)@,
            views == list_view(picked@),
            forall|j: int| 0 <= j < i ==> views[j].0 != id@,
        decreases picked@.len() - i,
    {
        if str_eq(picked[i].txid.as_str(), id) {
            proof {
                assert(views[i as int].0 == id@);
                let c = picked_index(views, id@).unwrap();
                if c < i {
                    assert(views[c].0 != id@);
                } else if i < c {
                    assert(views[i as int].0 != id@);
                }
            }
            let ghost before = picked@;
            let mut outs: Vec<i32> = Vec::new();
            let mut j: usize = 0;
            while j < picked[i].outs.len()
                invariant
                    i < picked@.len(),
                    picked@ == before,
                    j <= picked@[i as int].outs@.len(),
                    outs@ == picked@[i as int].outs@.subrange(0, j as int),
                decreases picked@[i as int].outs@.len() - j,
            {
                outs.push(picked[i].outs[j]);
                j = j + 1;
                assert(outs@ =~= picked@[i as int].outs@.subrange(0, j as int));
            }
            assert(picked@[i as int].outs@.subrange(0, j as int) =~= picked@[i as int].outs@);
            let mut more = places;
            outs.append(&mut more);
            let entry = Spendable { txid: picked[i].txid.clone(), outs };
            picked.set(i, entry);
            assert(list_view(picked@) =~= views.update(i as int, entry@));
            return ;
        }
        i = i + 1;
    }
    proof {
        if picked_index(views, id@) is Some {
            let c = picked_index(views, id@).unwrap();
            assert(views[c].0 != id@);
        }
    }
    let entry = Spendable { txid: String::from_str(id), outs: places };
    proof {
        lemma_list_view_push(picked@, entry);
    }
    picked.push(entry);
}

} // verus!
