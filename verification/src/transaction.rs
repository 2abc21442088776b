//! Transactions: inputs that spend earlier outputs, outputs locked to a
//! public key hash, the hash that names a transaction, and the signatures
//! that authorise its inputs.

use vstd::prelude::*;
use vstd::string::*;
use vstd::utf8::*;
use crate::address::{base58check_payload, decode_address, PUB_KEY_HASH_LEN};
use crate::codec::{
    bytes_eq, copy_bytes, dec_bytes, dec_i32, dec_list, dec_str, enc_bytes, enc_i32, enc_list,
    enc_str, get_bytes, get_i32, get_list, get_str, lemma_bytes_roundtrip, lemma_i32_roundtrip,
    lemma_list_roundtrip, lemma_list_view_push, lemma_str_roundtrip, list_bounded, list_view,
    put_bytes, put_i32, put_list, str_eq, Wire,
};
use crate::error::Error;
use crate::hashing::{hashable, hex, sha256, sha256_digest, to_hex};
use crate::signing::{ed25519_sig, sign_message, signature_valid, verify_message, SECRET_KEY_LEN};

verus! {

/// The reward that a coinbase transaction pays.
pub const SUBSIDY: i32 = 10;

/// A transaction input: the output it spends, and who spends it.
#[derive(Debug, PartialEq, Eq)]
pub struct TXInput {
    pub txid: String,
    pub vout: i32,
    pub signature: Vec<u8>,
    pub pub_key: Vec<u8>,
}

/// A transaction output: a value locked to a public key hash.
#[derive(Debug, PartialEq, Eq)]
pub struct TXOutput {
    pub value: i32,
    pub pub_key_hash: Vec<u8>,
}

/// The outputs of one transaction that are still unspent.
#[derive(Debug, PartialEq, Eq)]
pub struct TXOutputs {
    pub outputs: Vec<TXOutput>,
}

/// A transaction.
#[derive(Debug, PartialEq, Eq)]
pub struct Transaction {
    pub id: String,
    pub vin: Vec<TXInput>,
    pub vout: Vec<TXOutput>,
}

/// What a `TXInput` holds.
pub struct TXInputView {
    pub txid: Seq<char>,
    pub vout: i32,
    pub signature: Seq<u8>,
    pub pub_key: Seq<u8>,
}

/// What a `TXOutput` holds.
pub struct TXOutputView {
    pub value: i32,
    pub pub_key_hash: Seq<u8>,
}

/// What a `TXOutputs` holds.
pub struct TXOutputsView {
    pub outputs: Seq<TXOutputView>,
}

/// What a `Transaction` holds.
pub struct TransactionView {
    pub id: Seq<char>,
    pub vin: Seq<TXInputView>,
    pub vout: Seq<TXOutputView>,
}

impl View for TXInput {
    type V = TXInputView;

    open spec fn view(&self) -> TXInputView {
        TXInputView {
            txid: self.txid@,
            vout: self.vout,
            signature: self.signature@,
            pub_key: self.pub_key@,
        }
    }
}

impl View for TXOutput {
    type V = TXOutputView;

    open spec fn view(&self) -> TXOutputView {
        TXOutputView { value: self.value, pub_key_hash: self.pub_key_hash@ }
    }
}

impl View for TXOutputs {
    type V = TXOutputsView;

    open spec fn view(&self) -> TXOutputsView {
        TXOutputsView { outputs: list_view(self.outputs@) }
    }
}

impl View for Transaction {
    type V = TransactionView;

    open spec fn view(&self) -> TransactionView {
        TransactionView {
            id: self.id@,
            vin: list_view(self.vin@),
            vout: list_view(self.vout@),
        }
    }
}

impl Clone for TXInput {
    fn clone(&self) -> (r: Self)
        ensures
            r@ == self@,
    {
        TXInput {
            txid: self.txid.clone(),
            vout: self.vout,
            signature: copy_bytes(self.signature.as_slice()),
            pub_key: copy_bytes(self.pub_key.as_slice()),
        }
    }
}

impl Clone for TXOutput {
    fn clone(&self) -> (r: Self)
        ensures
            r@ == self@,
    {
        TXOutput { value: self.value, pub_key_hash: copy_bytes(self.pub_key_hash.as_slice()) }
    }
}

/// A copy of a list of inputs.
pub fn copy_inputs(v: &Vec<TXInput>) -> (r: Vec<TXInput>)
    ensures
        list_view(r@) == list_view(v@),
{
    let mut r: Vec<TXInput> = Vec::new();
    let mut i: usize = 0;
    while i < v.len()
        invariant
            i <= v@.len(),
            list_view(r@) == list_view(v@.subrange(0, i as int)),
        decreases v@.len() - i,
    {
        let ghost before = r@;
        let item = v[i].clone();
        proof {
            lemma_list_view_push(before, item);
            lemma_list_view_push(v@.subrange(0, i as int), v@[i as int]);
            assert(v@.subrange(0, i + 1) =~= v@.subrange(0, i as int).push(v@[i as int]));
        }
        r.push(item);
        i = i + 1;
    }
    assert(v@.subrange(0, i as int) =~= v@);
    r
}

/// A copy of a list of outputs.
pub fn copy_outputs(v: &Vec<TXOutput>) -> (r: Vec<TXOutput>)
    ensures
        list_view(r@) == list_view(v@),
{
    let mut r: Vec<TXOutput> = Vec::new();
    let mut i: usize = 0;
    while i < v.len()
        invariant
            i <= v@.len(),
            list_view(r@) == list_view(v@.subrange(0, i as int)),
        decreases v@.len() - i,
    {
        let ghost before = r@;
        let item = v[i].clone();
        proof {
            lemma_list_view_push(before, item);
            lemma_list_view_push(v@.subrange(0, i as int), v@[i as int]);
            assert(v@.subrange(0, i + 1) =~= v@.subrange(0, i as int).push(v@[i as int]));
        }
        r.push(item);
        i = i + 1;
    }
    assert(v@.subrange(0, i as int) =~= v@);
    r
}

impl Clone for TXOutputs {
    fn clone(&self) -> (r: Self)
        ensures
            r@ == self@,
    {
        TXOutputs { outputs: copy_outputs(&self.outputs) }
    }
}

impl Clone for Transaction {
    fn clone(&self) -> (r: Self)
        ensures
            r@ == self@,
    {
        Transaction {
            id: self.id.clone(),
            vin: copy_inputs(&self.vin),
            vout: copy_outputs(&self.vout),
        }
    }
}


impl Wire for TXInput {
    open spec fn bounded(v: TXInputView) -> bool {
        &&& String::bounded(v.txid)
        &&& v.signature.len() <= u64::MAX
        &&& v.pub_key.len() <= u64::MAX
    }

    open spec fn enc(v: TXInputView) -> Seq<u8> {
        enc_str(v.txid) + enc_i32(v.vout) + enc_bytes(v.signature) + enc_bytes(v.pub_key)
    }

    open spec fn dec(s: Seq<u8>) -> Option<(TXInputView, Seq<u8>)> {
        match dec_str(s) {
            Some((txid, s1)) => match dec_i32(s1) {
                Some((vout, s2)) => match dec_bytes(s2) {
                    Some((signature, s3)) => match dec_bytes(s3) {
                        Some((pub_key, s4)) => Some(
                            (TXInputView { txid, vout, signature, pub_key }, s4),
                        ),
                        None => None,
                    },
                    None => None,
                },
                None => None,
            },
            None => None,
        }
    }

    proof fn lemma_roundtrip(v: TXInputView, rest: Seq<u8>) {
        let r3 = enc_bytes(v.pub_key) + rest;
        let r2 = enc_bytes(v.signature) + r3;
        let r1 = enc_i32(v.vout) + r2;
        assert(dec_str(Self::enc(v) + rest) == Some((v.txid, r1))) by {
            lemma_str_roundtrip(v.txid, r1);
            assert(Self::enc(v) + rest =~= enc_str(v.txid) + r1);
        }
        assert(dec_i32(r1) == Some((v.vout, r2))) by {
            lemma_i32_roundtrip(v.vout, r2);
        }
        assert(dec_bytes(r2) == Some((v.signature, r3))) by {
            lemma_bytes_roundtrip(v.signature, r3);
        }
        assert(dec_bytes(r3) == Some((v.pub_key, rest))) by {
            lemma_bytes_roundtrip(v.pub_key, rest);
        }
    }

    fn put(&self, out: &mut Vec<u8>) {
        self.txid.put(out);
        put_i32(out, self.vout);
        let _l1 = self.signature.len();
        let _l2 = self.pub_key.len();
        put_bytes(out, self.signature.as_slice());
        put_bytes(out, self.pub_key.as_slice());
        assert(out@ =~= old(out)@ + Self::enc(self@));
    }

    fn get(data: &[u8], pos: usize) -> (r: Option<(Self, usize)>) {
        let (txid, p1) = match get_str(data, pos) {
            Some(x) => x,
            None => { return None; },
        };
        let (vout, p2) = match get_i32(data, p1) {
            Some(x) => x,
            None => { return None; },
        };
        let (signature, p3) = match get_bytes(data, p2) {
            Some(x) => x,
            None => { return None; },
        };
        let (pub_key, p4) = match get_bytes(data, p3) {
            Some(x) => x,
            None => { return None; },
        };
        Some((TXInput { txid, vout, signature, pub_key }, p4))
    }
}

impl Wire for TXOutput {
    open spec fn bounded(v: TXOutputView) -> bool {
        v.pub_key_hash.len() <= u64::MAX
    }

    open spec fn enc(v: TXOutputView) -> Seq<u8> {
        enc_i32(v.value) + enc_bytes(v.pub_key_hash)
    }

    open spec fn dec(s: Seq<u8>) -> Option<(TXOutputView, Seq<u8>)> {
        match dec_i32(s) {
            Some((value, s1)) => match dec_bytes(s1) {
                Some((pub_key_hash, s2)) => Some((TXOutputView { value, pub_key_hash }, s2)),
                None => None,
            },
            None => None,
        }
    }

    proof fn lemma_roundtrip(v: TXOutputView, rest: Seq<u8>) {
        let r1 = enc_bytes(v.pub_key_hash) + rest;
        lemma_i32_roundtrip(v.value, r1);
        lemma_bytes_roundtrip(v.pub_key_hash, rest);
        assert(Self::enc(v) + rest =~= enc_i32(v.value) + r1);
    }

    fn put(&self, out: &mut Vec<u8>) {
        put_i32(out, self.value);
        let _l = self.pub_key_hash.len();
        put_bytes(out, self.pub_key_hash.as_slice());
        assert(out@ =~= old(out)@ + Self::enc(self@));
    }

    fn get(data: &[u8], pos: usize) -> (r: Option<(Self, usize)>) {
        let (value, p1) = match get_i32(data, pos) {
            Some(x) => x,
            None => { return None; },
        };
        let (pub_key_hash, p2) = match get_bytes(data, p1) {
            Some(x) => x,
            None => { return None; },
        };
        Some((TXOutput { value, pub_key_hash }, p2))
    }
}

impl Wire for TXOutputs {
    open spec fn bounded(v: TXOutputsView) -> bool {
        list_bounded::<TXOutput>(v.outputs)
    }

    open spec fn enc(v: TXOutputsView) -> Seq<u8> {
        enc_list::<TXOutput>(v.outputs)
    }

    open spec fn dec(s: Seq<u8>) -> Option<(TXOutputsView, Seq<u8>)> {
        match dec_list::<TXOutput>(s) {
            Some((outputs, s1)) => Some((TXOutputsView { outputs }, s1)),
            None => None,
        }
    }

    proof fn lemma_roundtrip(v: TXOutputsView, rest: Seq<u8>) {
        lemma_list_roundtrip::<TXOutput>(v.outputs, rest);
    }

    fn put(&self, out: &mut Vec<u8>) {
        put_list(out, &self.outputs);
    }

    fn get(data: &[u8], pos: usize) -> (r: Option<(Self, usize)>) {
        match get_list::<TXOutput>(data, pos) {
            Some((outputs, next)) => Some((TXOutputs { outputs }, next)),
            None => None,
        }
    }
}

impl Wire for Transaction {
    open spec fn bounded(v: TransactionView) -> bool {
        &&& String::bounded(v.id)
        &&& list_bounded::<TXInput>(v.vin)
        &&& list_bounded::<TXOutput>(v.vout)
    }

    open spec fn enc(v: TransactionView) -> Seq<u8> {
        enc_str(v.id) + enc_list::<TXInput>(v.vin) + enc_list::<TXOutput>(v.vout)
    }

    open spec fn dec(s: Seq<u8>) -> Option<(TransactionView, Seq<u8>)> {
        match dec_str(s) {
            Some((id, s1)) => match dec_list::<TXInput>(s1) {
                Some((vin, s2)) => match dec_list::<TXOutput>(s2) {
                    Some((vout, s3)) => Some((TransactionView { id, vin, vout }, s3)),
                    None => None,
                },
                None => None,
            },
            None => None,
        }
    }

    proof fn lemma_roundtrip(v: TransactionView, rest: Seq<u8>) {
        let r2 = enc_list::<TXOutput>(v.vout) + rest;
        let r1 = enc_list::<TXInput>(v.vin) + r2;
        assert(dec_str(Self::enc(v) + rest) == Some((v.id, r1))) by {
            lemma_str_roundtrip(v.id, r1);
            assert(Self::enc(v) + rest =~= enc_str(v.id) + r1);
        }
        assert(dec_list::<TXInput>(r1) == Some((v.vin, r2))) by {
            lemma_list_roundtrip::<TXInput>(v.vin, r2);
        }
        assert(dec_list::<TXOutput>(r2) == Some((v.vout, rest))) by {
            lemma_list_roundtrip::<TXOutput>(v.vout, rest);
        }
    }

    fn put(&self, out: &mut Vec<u8>) {
        self.id.put(out);
        put_list(out, &self.vin);
        put_list(out, &self.vout);
        assert(out@ =~= old(out)@ + Self::enc(self@));
    }

    fn get(data: &[u8], pos: usize) -> (r: Option<(Self, usize)>) {
        let (id, p1) = match get_str(data, pos) {
            Some(x) => x,
            None => { return None; },
        };
        let (vin, p2) = match get_list::<TXInput>(data, p1) {
            Some(x) => x,
            None => { return None; },
        };
        let (vout, p3) = match get_list::<TXOutput>(data, p2) {
            Some(x) => x,
            None => { return None; },
        };
        Some((Transaction { id, vin, vout }, p3))
    }
}


/// The first of `txs` whose id is `id`.
pub open spec fn find_tx(txs: Seq<TransactionView>, id: Seq<char>) -> Option<TransactionView>
    decreases txs.len(),
{
    if txs.len() == 0 {
        None
    } else if txs[0].id == id {
        Some(txs[0])
    } else {
        find_tx(txs.drop_first(), id)
    }
}

/// The text that a coinbase input carries: `data`, or a note of the reward
/// where `data` is empty.
pub open spec fn coinbase_data(to: Seq<char>, data: Seq<char>) -> Seq<char> {
    if data.len() == 0 {
        "Reward to '"@ + to + "'"@
    } else {
        data
    }
}

/// The coinbase transaction that pays the subsidy to `pub_key_hash`, before
/// it has its id.
pub open spec fn coinbase_body(text: Seq<char>, pub_key_hash: Seq<u8>) -> TransactionView {
    TransactionView {
        id: Seq::empty(),
        vin: seq![
            TXInputView {
                txid: Seq::empty(),
                vout: -1i32,
                signature: Seq::empty(),
                pub_key: encode_utf8(text),
            },
        ],
        vout: seq![TXOutputView { value: SUBSIDY, pub_key_hash }],
    }
}

/// What `Transaction::new_coinbase` gives for an address and a text.
pub open spec fn coinbase_outcome(to: Seq<char>, data: Seq<char>) -> Result<
    TransactionView,
    Error,
> {
    match base58check_payload(to) {
        None => Err(Error::AddressError),
        Some(pub_key_hash) => {
            let body = coinbase_body(coinbase_data(to, data), pub_key_hash);
            if hashable(body.hash_payload()) {
                Ok(body.with_id(body.hash()))
            } else {
                Err(Error::EncodingError)
            }
        },
    }
}

impl TXInputView {
    /// The input without its signature, with `pub_key` in place of its key.
    pub open spec fn unsigned(self, pub_key: Seq<u8>) -> TXInputView {
        TXInputView { txid: self.txid, vout: self.vout, signature: Seq::empty(), pub_key }
    }

    /// The input with `signature` in place of its own.
    pub open spec fn with_signature(self, signature: Seq<u8>) -> TXInputView {
        TXInputView { txid: self.txid, vout: self.vout, signature, pub_key: self.pub_key }
    }
}

impl TransactionView {
    /// The transaction with `id` in place of its own.
    pub open spec fn with_id(self, id: Seq<char>) -> TransactionView {
        TransactionView { id, vin: self.vin, vout: self.vout }
    }

    /// A coinbase transaction has a single input, which names no
    /// transaction and output -1.
    pub open spec fn is_coinbase(self) -> bool {
        self.vin.len() == 1 && self.vin[0].txid.len() == 0 && self.vin[0].vout == -1
    }

    /// The bytes that are hashed: the encoding of the transaction with its
    /// id cleared.
    pub open spec fn hash_payload(self) -> Seq<u8> {
        Transaction::enc(self.with_id(Seq::empty()))
    }

    /// The SHA-256 digest of `hash_payload`.
    pub open spec fn digest(self) -> Seq<u8> {
        sha256_digest(self.hash_payload())
    }

    /// The hash of the transaction: its digest in hexadecimal.
    pub open spec fn hash(self) -> Seq<char> {
        hex(self.digest())
    }

    /// The transaction with the signature and the key of every input cleared.
    pub open spec fn trimmed(self) -> TransactionView {
        TransactionView {
            id: self.id,
            vin: Seq::new(self.vin.len(), |j: int| self.vin[j].unsigned(Seq::empty())),
            vout: self.vout,
        }
    }

    /// The form that is signed for input `i`: the trimmed transaction, with
    /// the public key hash of the output that input `i` spends in the place
    /// of that input's key.
    pub open spec fn signing_form(self, i: int, pub_key_hash: Seq<u8>) -> TransactionView {
        TransactionView {
            id: self.id,
            vin: Seq::new(
                self.vin.len(),
                |j: int|
                    self.vin[j].unsigned(
                        if j == i {
                            pub_key_hash
                        } else {
                            Seq::empty()
                        },
                    ),
            ),
            vout: self.vout,
        }
    }

    /// Whether input `i` names a transaction among `prev` that has an id,
    /// and an output that this transaction has.
    pub open spec fn reference_ok(self, prev: Seq<TransactionView>, i: int) -> bool {
        match find_tx(prev, self.vin[i].txid) {
            Some(p) => p.id.len() > 0 && 0 <= self.vin[i].vout < p.vout.len(),
            None => false,
        }
    }

    /// Whether every input names an output among `prev`.
    pub open spec fn references_ok(self, prev: Seq<TransactionView>) -> bool {
        forall|i: int| 0 <= i < self.vin.len() ==> self.reference_ok(prev, i)
    }

    /// The output that input `i` spends.
    pub open spec fn spent_output(self, prev: Seq<TransactionView>, i: int) -> TXOutputView {
        find_tx(prev, self.vin[i].txid).unwrap().vout[self.vin[i].vout as int]
    }

    /// The form that is signed for input `i`, given the transactions it spends from.
    pub open spec fn form_for(self, prev: Seq<TransactionView>, i: int) -> TransactionView {
        self.signing_form(i, self.spent_output(prev, i).pub_key_hash)
    }

    /// The message that is signed for input `i`: the hash of the form for
    /// that input, as the bytes of its hexadecimal text.
    pub open spec fn signing_message(self, prev: Seq<TransactionView>, i: int) -> Seq<u8> {
        encode_utf8(self.form_for(prev, i).hash())
    }

    /// Whether the form of every input is short enough to be hashed.
    pub open spec fn forms_hashable(self, prev: Seq<TransactionView>) -> bool {
        forall|i: int|
            0 <= i < self.vin.len() ==> hashable(#[trigger] self.form_for(prev, i).hash_payload())
    }

    /// The transaction with every input signed under `secret_key`; a
    /// coinbase transaction stays as it is.
    pub open spec fn signed(self, secret_key: Seq<u8>, prev: Seq<TransactionView>) -> TransactionView {
        if self.is_coinbase() {
            self
        } else {
            TransactionView {
                id: self.id,
                vin: Seq::new(
                    self.vin.len(),
                    |i: int|
                        self.vin[i].with_signature(
                            ed25519_sig(self.signing_message(prev, i), secret_key),
                        ),
                ),
                vout: self.vout,
            }
        }
    }

    /// What keeps the inputs from being signed or checked, if anything
    /// does: an input that names no known output, or a form too long to hash.
    /// Nothing keeps a coinbase transaction.
    pub open spec fn obstacle(self, prev: Seq<TransactionView>) -> Option<Error> {
        if self.is_coinbase() {
            None
        } else if !self.references_ok(prev) {
            Some(Error::InvalidReference)
        } else if !self.forms_hashable(prev) {
            Some(Error::EncodingError)
        } else {
            None
        }
    }

    /// Whether input `i` carries a signature, under its own key, of the
    /// message for that input.
    pub open spec fn input_verifies(self, prev: Seq<TransactionView>, i: int) -> bool {
        signature_valid(self.signing_message(prev, i), self.vin[i].pub_key, self.vin[i].signature)
    }

    /// Whether the transaction is a coinbase or every input verifies.
    pub open spec fn verifies(self, prev: Seq<TransactionView>) -> bool {
        self.is_coinbase() || forall|i: int|
            0 <= i < self.vin.len() ==> self.input_verifies(prev, i)
    }
}

/// The place in `txs` of the first transaction whose id is `id`.
pub fn find_index(txs: &Vec<Transaction>, id: &str) -> (r: Option<usize>)
    ensures
        match r {
            Some(k) => k < txs@.len() && txs@[k as int].id@ == id@ && find_tx(
                list_view(txs@),
                id@,
            ) == Some(txs@[k as int]@) && forall|j: int| 0 <= j < k ==> txs@[j].id@ != id@,
            None => find_tx(list_view(txs@), id@) is None && forall|j: int|
                0 <= j < txs@.len() ==> txs@[j].id@ != id@,
        },
{
    let mut k: usize = 0;
    assert(list_view(txs@).skip(0) =~= list_view(txs@));
    while k < txs.len()
        invariant
            k <= txs@.len(),
            forall|j: int| 0 <= j < k ==> txs@[j].id@ != id@,
            find_tx(list_view(txs@), id@) == find_tx(list_view(txs@).skip(k as int), id@),
        decreases txs@.len() - k,
    {
        proof {
            let rest = list_view(txs@).skip(k as int);
            assert(rest[0] == txs@[k as int]@);
            assert(rest.drop_first() =~= list_view(txs@).skip(k + 1));
        }
        if str_eq(txs[k].id.as_str(), id) {
            return Some(k);
        }
        k = k + 1;
    }
    assert(list_view(txs@).skip(k as int).len() == 0);
    None
}

impl TXOutput {
    /// Whether the output is locked to `pub_key_hash`.
    pub fn is_locked_with_key(&self, pub_key_hash: &[u8]) -> (r: bool)
        ensures
            r == (self@.pub_key_hash == pub_key_hash@),
    {
        bytes_eq(self.pub_key_hash.as_slice(), pub_key_hash)
    }

    /// Locks the output to the public key hash that `address` stands for;
    /// `AddressError`, and no change, where `address` is not well formed.
    pub fn lock(&mut self, address: &str) -> (r: Result<(), Error>)
        ensures
            match r {
                Ok(_) => base58check_payload(address@) == Some(final(self)@.pub_key_hash)
                    && final(self)@.pub_key_hash.len() == PUB_KEY_HASH_LEN,
                Err(e) => base58check_payload(address@) is None && e == Error::AddressError
                    && final(self)@ == old(self)@,
            },
            final(self)@.value == old(self)@.value,
    {
        match decode_address(address) {
            Ok(pub_key_hash) => {
                self.pub_key_hash = pub_key_hash;
                Ok(())
            },
            Err(e) => Err(e),
        }
    }

    /// An output of `value` locked to `address`; `AddressError` where
    /// `address` is not well formed.
    pub fn new(value: i32, address: String) -> (r: Result<TXOutput, Error>)
        ensures
            match r {
                Ok(out) => out@.value == value && base58check_payload(address@) == Some(
                    out@.pub_key_hash,
                ) && out@.pub_key_hash.len() == PUB_KEY_HASH_LEN,
                Err(e) => base58check_payload(address@) is None && e == Error::AddressError,
            },
    {
        let mut txo = TXOutput { value, pub_key_hash: Vec::new() };
        match txo.lock(address.as_str()) {
            Ok(_) => Ok(txo),
            Err(e) => Err(e),
        }
    }
}

impl Transaction {
    /// Whether the transaction is a coinbase.
    pub fn is_coinbase(&self) -> (r: bool)
        ensures
            r == self@.is_coinbase(),
    {
        self.vin.len() == 1 && self.vin[0].txid.as_str().is_empty() && self.vin[0].vout == -1
    }

    /// The digest of the transaction, 32 bytes, which does not depend on
    /// its id; `EncodingError` where the transaction is too long to be hashed.
    pub fn digest(&self) -> (r: Result<Vec<u8>, Error>)
        ensures
            match r {
                Ok(d) => hashable(self@.hash_payload()) && d@ == self@.digest() && d@.len() == 32,
                Err(e) => !hashable(self@.hash_payload()) && e == Error::EncodingError,
            },
    {
        let mut data: Vec<u8> = Vec::new();
        let no_id = String::new();
        no_id.put(&mut data);
        put_list(&mut data, &self.vin);
        put_list(&mut data, &self.vout);
        assert(data@ =~= self@.hash_payload());
        sha256(data.as_slice())
    }

    /// The hash of the transaction, 64 hexadecimal digits, which does not
    /// depend on its id; `EncodingError` where the transaction is too long
    /// to be hashed.
    pub fn hash(&self) -> (r: Result<String, Error>)
        ensures
            match r {
                Ok(h) => hashable(self@.hash_payload()) && h@ == self@.hash() && h@.len() == 64,
                Err(e) => !hashable(self@.hash_payload()) && e == Error::EncodingError,
            },
    {
        match self.digest() {
            Ok(d) => Ok(to_hex(d.as_slice())),
            Err(e) => Err(e),
        }
    }

    /// A copy with the signature and the key of every input cleared.
    pub fn trim_copy(&self) -> (r: Transaction)
        ensures
            r@ == self@.trimmed(),
    {
        let mut vin: Vec<TXInput> = Vec::new();
        let mut j: usize = 0;
        while j < self.vin.len()
            invariant
                j <= self.vin@.len(),
                list_view(vin@) == Seq::new(
                    j as nat,
                    |k: int| self@.vin[k].unsigned(Seq::empty()),
                ),
            decreases self.vin@.len() - j,
        {
            let ghost before = vin@;
            let item = TXInput {
                txid: self.vin[j].txid.clone(),
                vout: self.vin[j].vout,
                signature: Vec::new(),
                pub_key: Vec::new(),
            };
            proof {
                lemma_list_view_push(before, item);
                assert(list_view(before).push(item@) =~= Seq::new(
                    (j + 1) as nat,
                    |k: int| self@.vin[k].unsigned(Seq::empty()),
                ));
            }
            vin.push(item);
            j = j + 1;
        }
        assert(list_view(vin@) =~= self@.trimmed().vin);
        Transaction { id: self.id.clone(), vin, vout: copy_outputs(&self.vout) }
    }

    /// The form that is signed for input `i`, given the public key hash of
    /// the output that it spends.
    pub fn signing_form(&self, i: usize, pub_key_hash: &[u8]) -> (r: Transaction)
        ensures
            r@ == self@.signing_form(i as int, pub_key_hash@),
    {
        let mut vin: Vec<TXInput> = Vec::new();
        let mut j: usize = 0;
        while j < self.vin.len()
            invariant
                j <= self.vin@.len(),
                list_view(vin@) == Seq::new(
                    j as nat,
                    |k: int|
                        self@.vin[k].unsigned(
                            if k == i {
                                pub_key_hash@
                            } else {
                                Seq::empty()
                            },
                        ),
                ),
            decreases self.vin@.len() - j,
        {
            let ghost before = vin@;
            let pub_key = if j == i {
                copy_bytes(pub_key_hash)
            } else {
                Vec::new()
            };
            let item = TXInput {
                txid: self.vin[j].txid.clone(),
                vout: self.vin[j].vout,
                signature: Vec::new(),
                pub_key,
            };
            proof {
                lemma_list_view_push(before, item);
                assert(list_view(before).push(item@) =~= Seq::new(
                    (j + 1) as nat,
                    |k: int|
                        self@.vin[k].unsigned(
                            if k == i {
                                pub_key_hash@
                            } else {
                                Seq::empty()
                            },
                        ),
                ));
            }
            vin.push(item);
            j = j + 1;
        }
        assert(list_view(vin@) =~= self@.signing_form(i as int, pub_key_hash@).vin);
        Transaction { id: self.id.clone(), vin, vout: copy_outputs(&self.vout) }
    }
}


impl Transaction {
    /// The coinbase transaction that pays the subsidy to the address `to`.
    /// Its input carries `data`, or a note of the reward where `data` is
    /// empty. `AddressError` where `to` is not well formed.
    pub fn new_coinbase(to: String, data: String) -> (r: Result<Transaction, Error>)
        ensures
            match r {
                Ok(tx) => coinbase_outcome(to@, data@) == Ok::<TransactionView, Error>(tx@),
                Err(e) => coinbase_outcome(to@, data@) == Err::<TransactionView, Error>(e),
            },
    {
        let text = if data.as_str().is_empty() {
            let mut note = String::from_str("Reward to '");
            note.append(to.as_str());
            note.append("'");
            note
        } else {
            data
        };
        let input = TXInput {
            txid: String::new(),
            vout: -1,
            signature: Vec::new(),
            pub_key: copy_bytes(text.as_str().as_bytes()),
        };
        let ghost address = to@;
        let output = match TXOutput::new(SUBSIDY, to) {
            Ok(o) => o,
            Err(e) => { return Err(e); },
        };
        let ghost body = coinbase_body(coinbase_data(address, data@), output@.pub_key_hash);
        let mut vin: Vec<TXInput> = Vec::new();
        let mut vout: Vec<TXOutput> = Vec::new();
        proof {
            lemma_list_view_push(vin@, input);
            lemma_list_view_push(vout@, output);
        }
        vin.push(input);
        vout.push(output);
        let mut tx = Transaction { id: String::new(), vin, vout };
        assert(tx@.vin =~= body.vin);
        assert(tx@.vout =~= body.vout);
        assert(tx@ == body);
        match tx.hash() {
            Ok(h) => {
                tx.id = h;
                Ok(tx)
            },
            Err(e) => Err(e),
        }
    }

    /// Whether every input names an output among `prev_txs`.
    pub fn references_known(&self, prev_txs: &Vec<Transaction>) -> (r: bool)
        ensures
            r == self@.references_ok(list_view(prev_txs@)),
    {
        let ghost prev = list_view(prev_txs@);
        let mut i: usize = 0;
        while i < self.vin.len()
            invariant
                i <= self.vin@.len(),
                prev == list_view(prev_txs@),
                forall|j: int| 0 <= j < i ==> self@.reference_ok(prev, j),
            decreases self.vin@.len() - i,
        {
            let vout = self.vin[i].vout;
            match find_index(prev_txs, self.vin[i].txid.as_str()) {
                Some(k) => {
                    if prev_txs[k].id.as_str().is_empty() || vout < 0 || vout as usize
                        >= prev_txs[k].vout.len() {
                        assert(!self@.reference_ok(prev, i as int));
                        return false;
                    }
                },
                None => {
                    assert(!self@.reference_ok(prev, i as int));
                    return false;
                },
            }
            i = i + 1;
        }
        true
    }

    /// The hash that is signed for input `i`, which names an output among
    /// `prev_txs`; `EncodingError` where the form for that input is too
    /// long to be hashed.
    pub fn signing_hash(&self, prev_txs: &Vec<Transaction>, i: usize) -> (r: Result<String, Error>)
        requires
            i < self.vin@.len(),
            self@.reference_ok(list_view(prev_txs@), i as int),
        ensures
            match r {
                Ok(h) => hashable(self@.form_for(list_view(prev_txs@), i as int).hash_payload())
                    && h@ == self@.form_for(list_view(prev_txs@), i as int).hash(),
                Err(e) => !hashable(
                    self@.form_for(list_view(prev_txs@), i as int).hash_payload(),
                ) && e == Error::EncodingError,
            },
    {
        match find_index(prev_txs, self.vin[i].txid.as_str()) {
            Some(k) => {
                let spent = &prev_txs[k].vout[self.vin[i].vout as usize];
                let form = self.signing_form(i, spent.pub_key_hash.as_slice());
                form.hash()
            },
            None => Err(Error::InvalidReference),
        }
    }

    /// Signs every input with `private_key`, a secret key of 64 bytes.
    /// `prev_txs` holds the transactions that the inputs spend from. A
    /// coinbase transaction is left as it is. Where an input names no
    /// output among `prev_txs` the result is `InvalidReference`, and where a
    /// form is too long to be hashed it is `EncodingError`; the transaction
    /// is then unchanged.
    pub fn sign(&mut self, private_key: &[u8], prev_txs: &Vec<Transaction>) -> (r: Result<
        (),
        Error,
    >)
        requires
            private_key@.len() == SECRET_KEY_LEN,
        ensures
            match r {
                Ok(_) => old(self)@.obstacle(list_view(prev_txs@)) is None && final(self)@ == old(
                    self,
                )@.signed(private_key@, list_view(prev_txs@)),
                Err(e) => old(self)@.obstacle(list_view(prev_txs@)) == Some(e) && final(self)@
                    == old(self)@,
            },
    {
        if self.is_coinbase() {
            return Ok(());
        }
        if !self.references_known(prev_txs) {
            return Err(Error::InvalidReference);
        }
        let ghost prev = list_view(prev_txs@);
        let ghost me = self@;
        let mut vin: Vec<TXInput> = Vec::new();
        let mut i: usize = 0;
        while i < self.vin.len()
            invariant
                i <= self.vin@.len(),
                self@ == me,
                prev == list_view(prev_txs@),
                me.references_ok(prev),
                private_key@.len() == SECRET_KEY_LEN,
                forall|j: int| 0 <= j < i ==> hashable(#[trigger] me.form_for(prev, j).hash_payload()),
                list_view(vin@) == Seq::new(
                    i as nat,
                    |j: int|
                        me.vin[j].with_signature(
                            ed25519_sig(me.signing_message(prev, j), private_key@),
                        ),
                ),
            decreases self.vin@.len() - i,
        {
            assert(me.reference_ok(prev, i as int));
            let h = match self.signing_hash(prev_txs, i) {
                Ok(h) => h,
                Err(e) => {
                    assert(!me.forms_hashable(prev));
                    return Err(e);
                },
            };
            let signature = sign_message(h.as_str().as_bytes(), private_key);
            let ghost before = vin@;
            let item = TXInput {
                txid: self.vin[i].txid.clone(),
                vout: self.vin[i].vout,
                signature,
                pub_key: copy_bytes(self.vin[i].pub_key.as_slice()),
            };
            proof {
                lemma_list_view_push(before, item);
                assert(list_view(before).push(item@) =~= Seq::new(
                    (i + 1) as nat,
                    |j: int|
                        me.vin[j].with_signature(
                            ed25519_sig(me.signing_message(prev, j), private_key@),
                        ),
                ));
            }
            vin.push(item);
            i = i + 1;
        }
        assert(list_view(vin@) =~= me.signed(private_key@, prev).vin);
        self.vin = vin;
        Ok(())
    }

    /// Whether every input carries a signature, under its own key, of the
    /// message for that input. `prev_txs` holds the transactions that the
    /// inputs spend from. A coinbase transaction verifies. Where an input
    /// names no output among `prev_txs` the result is `InvalidReference`,
    /// and where a form is too long to be hashed it is `EncodingError`.
    pub fn verify(&self, prev_txs: &Vec<Transaction>) -> (r: Result<bool, Error>)
        ensures
            match r {
                Ok(ok) => self@.obstacle(list_view(prev_txs@)) is None && ok == self@.verifies(
                    list_view(prev_txs@),
                ),
                Err(e) => self@.obstacle(list_view(prev_txs@)) == Some(e),
            },
    {
        if self.is_coinbase() {
            return Ok(true);
        }
        if !self.references_known(prev_txs) {
            return Err(Error::InvalidReference);
        }
        let ghost prev = list_view(prev_txs@);
        let mut ok = true;
        let mut i: usize = 0;
        while i < self.vin.len()
            invariant
                i <= self.vin@.len(),
                prev == list_view(prev_txs@),
                self@.references_ok(prev),
                forall|j: int|
                    0 <= j < i ==> hashable(#[trigger] self@.form_for(prev, j).hash_payload()),
                ok == forall|j: int| 0 <= j < i ==> self@.input_verifies(prev, j),
            decreases self.vin@.len() - i,
        {
            assert(self@.reference_ok(prev, i as int));
            let h = match self.signing_hash(prev_txs, i) {
                Ok(h) => h,
                Err(e) => {
                    assert(!self@.forms_hashable(prev));
                    return Err(e);
                },
            };
            let accepted = verify_message(
                h.as_str().as_bytes(),
                self.vin[i].pub_key.as_slice(),
                self.vin[i].signature.as_slice(),
            );
            assert(accepted == self@.input_verifies(prev, i as int));
            ok = ok && accepted;
            i = i + 1;
        }
        Ok(ok)
    }
}


/// Signing does not change what is signed: the form for each input, and
/// with it the message, is that of the transaction before it was signed.
pub proof fn lemma_signed_forms(
    t: TransactionView,
    secret_key: Seq<u8>,
    prev: Seq<TransactionView>,
    i: int,
)
    requires
        0 <= i < t.vin.len(),
    ensures
        t.signed(secret_key, prev).form_for(prev, i) == t.form_for(prev, i),
        t.signed(secret_key, prev).signing_message(prev, i) == t.signing_message(prev, i),
        t.signed(secret_key, prev).reference_ok(prev, i) == t.reference_ok(prev, i),
        t.signed(secret_key, prev).is_coinbase() == t.is_coinbase(),
{
    let s = t.signed(secret_key, prev);
    if !t.is_coinbase() {
        let pkh = t.spent_output(prev, i).pub_key_hash;
        assert(s.spent_output(prev, i) == t.spent_output(prev, i));
        assert(s.signing_form(i, pkh).vin =~= t.signing_form(i, pkh).vin);
    }
}

/// A transaction that was signed verifies, where its inputs carry a public
/// key under which Ed25519 accepts the signatures made with the secret
/// key: those signatures being 64 bytes long, and the public key 32.
pub proof fn lemma_signed_verifies(
    t: TransactionView,
    secret_key: Seq<u8>,
    public_key: Seq<u8>,
    prev: Seq<TransactionView>,
)
    requires
        t.obstacle(prev) is None,
        forall|i: int| 0 <= i < t.vin.len() ==> (#[trigger] t.vin[i]).pub_key == public_key,
        forall|m: Seq<u8>| #[trigger]
            signature_valid(m, public_key, ed25519_sig(m, secret_key)),
    ensures
        t.signed(secret_key, prev).obstacle(prev) is None,
        t.signed(secret_key, prev).verifies(prev),
{
    let s = t.signed(secret_key, prev);
    if !t.is_coinbase() {
        assert(s.vin.len() == t.vin.len());
        assert forall|i: int| 0 <= i < s.vin.len() implies s.reference_ok(prev, i) by {
            lemma_signed_forms(t, secret_key, prev, i);
            assert(t.reference_ok(prev, i));
        }
        assert forall|i: int| 0 <= i < s.vin.len() implies hashable(
            #[trigger] s.form_for(prev, i).hash_payload(),
        ) by {
            lemma_signed_forms(t, secret_key, prev, i);
            assert(hashable(t.form_for(prev, i).hash_payload()));
        }
        assert forall|i: int| 0 <= i < s.vin.len() implies s.input_verifies(prev, i) by {
            lemma_signed_forms(t, secret_key, prev, i);
            let m = t.signing_message(prev, i);
            assert(signature_valid(m, public_key, ed25519_sig(m, secret_key)));
            assert(s.vin[i].signature == ed25519_sig(m, secret_key));
            assert(s.vin[i].pub_key == t.vin[i].pub_key);
        }
        if t.vin.len() == 1 {
            lemma_signed_forms(t, secret_key, prev, 0);
        }
        assert(!s.is_coinbase());
    }
}

} // verus!
