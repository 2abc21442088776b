//! Wallets: Ed25519 key pairs, the addresses that stand for them, and the
//! set of wallets that a node keeps.

use vstd::prelude::*;
use vstd::string::*;
use vstd::utf8::*;
use crate::address::{base58check_text, encode_address};
use crate::codec::{
    copy_bytes, dec_bytes, deserialize, enc_bytes, get_bytes, lemma_bytes_roundtrip, lemma_list_view_push,
    list_view, put_bytes, serialize, str_eq, string_from_utf8, Wire,
};
use crate::error::Error;
use crate::hashing::{hashable, ripemd160, ripemd160_digest, sha256, sha256_digest};
use crate::signing::{ed25519_keys, keypair, PUBLIC_KEY_LEN, SECRET_KEY_LEN};
use crate::store::{Record, RecordView};

verus! {

/// A seed is 32 bytes long.
pub const SEED_LEN: usize = 32;

/// A key pair.
#[derive(Debug, PartialEq, Eq)]
pub struct Wallet {
    pub secret_key: Vec<u8>,
    pub public_key: Vec<u8>,
}

/// What a `Wallet` holds.
pub struct WalletView {
    pub secret_key: Seq<u8>,
    pub public_key: Seq<u8>,
}

impl View for Wallet {
    type V = WalletView;

    open spec fn view(&self) -> WalletView {
        WalletView { secret_key: self.secret_key@, public_key: self.public_key@ }
    }
}

impl Clone for Wallet {
    fn clone(&self) -> (r: Self)
        ensures
            r@ == self@,
    {
        Wallet {
            secret_key: copy_bytes(self.secret_key.as_slice()),
            public_key: copy_bytes(self.public_key.as_slice()),
        }
    }
}

impl Wire for Wallet {
    open spec fn bounded(v: WalletView) -> bool {
        v.secret_key.len() <= u64::MAX && v.public_key.len() <= u64::MAX
    }

    open spec fn enc(v: WalletView) -> Seq<u8> {
        enc_bytes(v.secret_key) + enc_bytes(v.public_key)
    }

    open spec fn dec(s: Seq<u8>) -> Option<(WalletView, Seq<u8>)> {
        match dec_bytes(s) {
            Some((secret_key, s1)) => match dec_bytes(s1) {
                Some((public_key, s2)) => Some((WalletView { secret_key, public_key }, s2)),
                None => None,
            },
            None => None,
        }
    }

    proof fn lemma_roundtrip(v: WalletView, rest: Seq<u8>) {
        let r1 = enc_bytes(v.public_key) + rest;
        lemma_bytes_roundtrip(v.secret_key, r1);
        lemma_bytes_roundtrip(v.public_key, rest);
        assert(Self::enc(v) + rest =~= enc_bytes(v.secret_key) + r1);
    }

    fn put(&self, out: &mut Vec<u8>) {
        let _l1 = self.secret_key.len();
        let _l2 = self.public_key.len();
        put_bytes(out, self.secret_key.as_slice());
        put_bytes(out, self.public_key.as_slice());
        assert(out@ =~= old(out)@ + Self::enc(self@));
    }

    fn get(data: &[u8], pos: usize) -> (r: Option<(Self, usize)>) {
        let (secret_key, p1) = match get_bytes(data, pos) {
            Some(x) => x,
            None => { return None; },
        };
        let (public_key, p2) = match get_bytes(data, p1) {
            Some(x) => x,
            None => { return None; },
        };
        Some((Wallet { secret_key, public_key }, p2))
    }
}

/// The hash of a public key: the RIPEMD-160 digest of its SHA-256 digest.
pub open spec fn pub_key_hash(pub_key: Seq<u8>) -> Seq<u8> {
    ripemd160_digest(sha256_digest(pub_key))
}

/// The address of a public key: the base58check text of its hash.
pub open spec fn address_of(pub_key: Seq<u8>) -> Seq<char> {
    base58check_text(pub_key_hash(pub_key))
}

/// The wallet that Ed25519 derives from `seed`.
pub open spec fn wallet_of(seed: Seq<u8>) -> WalletView {
    WalletView { secret_key: ed25519_keys(seed).0, public_key: ed25519_keys(seed).1 }
}

/// Puts the hash of the public key, 20 bytes, in the place of the key. The
/// key is short enough to be hashed.
pub fn hash_pub_key(pub_key: &mut Vec<u8>)
    requires
        hashable(old(pub_key)@),
    ensures
        final(pub_key)@ == pub_key_hash(old(pub_key)@),
        final(pub_key)@.len() == 20,
{
    let first = match sha256(pub_key.as_slice()) {
        Ok(d) => d,
        Err(_) => Vec::new(),
    };
    let second = match ripemd160(first.as_slice()) {
        Ok(d) => d,
        Err(_) => Vec::new(),
    };
    *pub_key = second;
}

/// `rand::OsRng`, asked to fill 32 bytes: random bytes from the operating
/// system, or nothing where it has no source of them.
#[verifier::external_body]
fn random_seed() -> (r: Option<Vec<u8>>)
    ensures
        match r {
            Some(seed) => seed@.len() == SEED_LEN,
            None => true,
        },
{
    match rand::OsRng::new() {
        Ok(mut rng) => {
            let mut key = [0u8; 32];
            rand::Rng::fill_bytes(&mut rng, &mut key);
            Some(key.to_vec())
        },
        Err(_) => None,
    }
}

impl Wallet {
    /// The wallet derived from `seed`: a secret key of 64 bytes and a
    /// public key of 32.
    pub fn from_seed(seed: &[u8]) -> (w: Wallet)
        ensures
            w@ == wallet_of(seed@),
            w@.secret_key.len() == SECRET_KEY_LEN,
            w@.public_key.len() == PUBLIC_KEY_LEN,
    {
        let keys = keypair(seed);
        Wallet { secret_key: keys.0, public_key: keys.1 }
    }

    /// A wallet derived from 32 fresh random bytes; `StorageError` where the
    /// operating system gives none.
    pub fn new() -> (r: Result<Wallet, Error>)
        ensures
            match r {
                Ok(w) => w@.secret_key.len() == SECRET_KEY_LEN && w@.public_key.len()
                    == PUBLIC_KEY_LEN && exists|seed: Seq<u8>|
                    seed.len() == SEED_LEN && w@ == #[trigger] wallet_of(seed),
                Err(e) => e == Error::StorageError,
            },
    {
        match random_seed() {
            Some(seed) => Ok(Wallet::from_seed(seed.as_slice())),
            None => Err(Error::StorageError),
        }
    }

    /// The address of the wallet. Its public key is short enough to be hashed.
    pub fn get_address(&self) -> (r: String)
        requires
            hashable(self@.public_key),
        ensures
            r@ == address_of(self@.public_key),
    {
        let mut pub_hash = copy_bytes(self.public_key.as_slice());
        hash_pub_key(&mut pub_hash);
        encode_address(pub_hash.as_slice())
    }
}


/// An address with its wallet.
#[derive(Debug, PartialEq, Eq)]
pub struct WalletEntry {
    pub address: String,
    pub wallet: Wallet,
}

impl View for WalletEntry {
    type V = (Seq<char>, WalletView);

    open spec fn view(&self) -> (Seq<char>, WalletView) {
        (self.address@, self.wallet@)
    }
}

/// The wallets of a node, each under its address.
#[derive(Debug)]
pub struct Wallets {
    wallets: Vec<WalletEntry>,
}

/// The place of `address` among `entries`, if it is there.
pub open spec fn entry_index(entries: Seq<(Seq<char>, WalletView)>, address: Seq<char>) -> Option<
    int,
> {
    if exists|i: int| 0 <= i < entries.len() && entries[i].0 == address {
        Some(choose|i: int| 0 <= i < entries.len() && entries[i].0 == address)
    } else {
        None
    }
}

/// Whether no address stands twice among `entries`.
pub open spec fn distinct_addresses(entries: Seq<(Seq<char>, WalletView)>) -> bool {
    forall|i: int, j: int|
        0 <= i < j < entries.len() ==> (#[trigger] entries[i]).0 != (#[trigger] entries[j]).0
}

/// `entries` with `wallet` under `address`: in the place of the wallet that
/// was under it, or behind the others where there was none.
pub open spec fn put_entry(
    entries: Seq<(Seq<char>, WalletView)>,
    address: Seq<char>,
    wallet: WalletView,
) -> Seq<(Seq<char>, WalletView)> {
    match entry_index(entries, address) {
        Some(i) => entries.update(i, (address, wallet)),
        None => entries.push((address, wallet)),
    }
}

/// The address and the wallet that a record of the wallet store holds: the
/// key is the address in UTF-8, the value the encoded wallet.
pub open spec fn record_entry(r: RecordView) -> Option<(Seq<char>, WalletView)> {
    if valid_utf8(r.key) {
        match Wallet::dec(r.value) {
            Some((w, _)) => Some((decode_utf8(r.key), w)),
            None => None,
        }
    } else {
        None
    }
}

/// Whether every record holds an address and a wallet.
pub open spec fn records_decode(records: Seq<RecordView>) -> bool {
    forall|i: int| 0 <= i < records.len() ==> record_entry(#[trigger] records[i]) is Some
}

/// The wallets that the records hold, put in one after the other.
pub open spec fn wallets_of(records: Seq<RecordView>) -> Seq<(Seq<char>, WalletView)>
    decreases records.len(),
{
    if records.len() == 0 {
        Seq::empty()
    } else {
        let e = record_entry(records.last()).unwrap();
        put_entry(wallets_of(records.drop_last()), e.0, e.1)
    }
}

/// The record under which a wallet is stored.
pub open spec fn entry_record(e: (Seq<char>, WalletView)) -> RecordView {
    RecordView { key: encode_utf8(e.0), value: Wallet::enc(e.1) }
}

/// Putting a wallet in keeps the addresses distinct.
pub proof fn lemma_put_entry_distinct(
    entries: Seq<(Seq<char>, WalletView)>,
    address: Seq<char>,
    wallet: WalletView,
)
    requires
        distinct_addresses(entries),
    ensures
        distinct_addresses(put_entry(entries, address, wallet)),
        entry_index(put_entry(entries, address, wallet), address) is Some,
        put_entry(entries, address, wallet)[entry_index(
            put_entry(entries, address, wallet),
            address,
        ).unwrap()] == (address, wallet),
{
    let after = put_entry(entries, address, wallet);
    let p = match entry_index(entries, address) {
        Some(i) => i,
        None => entries.len() as int,
    };
    assert(after[p] == (address, wallet));
    let k = entry_index(after, address).unwrap();
    if k != p {
        assert(after[k].0 == after[p].0);
    }
}

impl View for Wallets {
    type V = Seq<(Seq<char>, WalletView)>;

    closed spec fn view(&self) -> Seq<(Seq<char>, WalletView)> {
        list_view(self.wallets@)
    }
}

impl Wallets {
    /// Whether no address stands twice.
    pub open spec fn wf(&self) -> bool {
        distinct_addresses(self@)
    }

    /// The place of `address`, if a wallet stands under it.
    fn find(&self, address: &str) -> (r: Option<usize>)
        requires
            self.wf(),
        ensures
            match r {
                Some(i) => entry_index(self@, address@) == Some(i as int) && i < self@.len()
                    && self.wallets@[i as int]@.0 == address@,
                None => entry_index(self@, address@) is None,
            },
    {
        let mut i: usize = 0;
        while i < self.wallets.len()
            invariant
                i <= self.wallets@.len(),
                self.wf(),
                forall|j: int| 0 <= j < i ==> self@[j].0 != address@,
            decreases self.wallets@.len() - i,
        {
            if str_eq(self.wallets[i].address.as_str(), address) {
                proof {
                    let k = entry_index(self@, address@).unwrap();
                    assert(self@[i as int].0 == address@);
                    if k != i {
                        assert(self@[k].0 == self@[i as int].0);
                    }
                }
                return Some(i);
            }
            i = i + 1;
        }
        None
    }

    /// The wallets that the records of the wallet store hold;
    /// `StorageError` where a record does not decode.
    pub fn new(records: &Vec<Record>) -> (r: Result<Wallets, Error>)
        ensures
            match r {
                Ok(ws) => ws.wf() && records_decode(list_view(records@)) && ws@ == wallets_of(
                    list_view(records@),
                ),
                Err(e) => e == Error::StorageError && !records_decode(list_view(records@)),
            },
    {
        let mut ws = Wallets { wallets: Vec::new() };
        let ghost all = list_view(records@);
        let mut i: usize = 0;
        while i < records.len()
            invariant
                i <= records@.len(),
                all == list_view(records@),
                ws.wf(),
                forall|j: int| 0 <= j < i ==> record_entry(#[trigger] all[j]) is Some,
                ws@ == wallets_of(all.subrange(0, i as int)),
            decreases records@.len() - i,
        {
            let address = match string_from_utf8(copy_bytes(records[i].key.as_slice())) {
                Some(a) => a,
                None => {
                    assert(record_entry(all[i as int]) is None);
                    return Err(Error::StorageError);
                },
            };
            let wallet = match deserialize::<Wallet>(records[i].value.as_slice()) {
                Some(w) => w,
                None => {
                    assert(record_entry(all[i as int]) is None);
                    return Err(Error::StorageError);
                },
            };
            proof {
                assert(all.subrange(0, i + 1).drop_last() =~= all.subrange(0, i as int));
                assert(all.subrange(0, i + 1).last() == all[i as int]);
            }
            ws.insert(address, wallet);
            i = i + 1;
        }
        assert(all.subrange(0, i as int) =~= all);
        Ok(ws)
    }

    /// Puts `wallet` under `address`, in the place of the wallet that was
    /// under it or behind the others.
    pub fn insert(&mut self, address: String, wallet: Wallet)
        requires
            old(self).wf(),
        ensures
            final(self).wf(),
            final(self)@ == put_entry(old(self)@, address@, wallet@),
    {
        proof {
            lemma_put_entry_distinct(self@, address@, wallet@);
        }
        match self.find(address.as_str()) {
            Some(i) => {
                let ghost before = self.wallets@;
                let entry = WalletEntry { address, wallet };
                self.wallets.set(i, entry);
                assert(list_view(self.wallets@) =~= list_view(before).update(i as int, entry@));
            },
            None => {
                let ghost before = self.wallets@;
                let entry = WalletEntry { address, wallet };
                proof {
                    lemma_list_view_push(before, entry);
                }
                self.wallets.push(entry);
            },
        }
    }

    /// Makes a wallet from `seed`, keeps it, and gives its address.
    pub fn create_wallet_from(&mut self, seed: &[u8]) -> (address: String)
        requires
            old(self).wf(),
        ensures
            final(self).wf(),
            address@ == address_of(wallet_of(seed@).public_key),
            final(self)@ == put_entry(old(self)@, address@, wallet_of(seed@)),
    {
        let wallet = Wallet::from_seed(seed);
        let address = wallet.get_address();
        self.insert(address.clone(), wallet);
        address
    }

    /// Makes a wallet from fresh random bytes, keeps it, and gives its
    /// address; `StorageError`, and no change, where the operating system
    /// gives no random bytes.
    pub fn create_wallet(&mut self) -> (r: Result<String, Error>)
        requires
            old(self).wf(),
        ensures
            final(self).wf(),
            match r {
                Ok(address) => {
                    let w = final(self)@[entry_index(final(self)@, address@).unwrap()].1;
                    &&& entry_index(final(self)@, address@) is Some
                    &&& address@ == address_of(w.public_key)
                    &&& w.secret_key.len() == SECRET_KEY_LEN
                    &&& w.public_key.len() == PUBLIC_KEY_LEN
                    &&& final(self)@ == put_entry(old(self)@, address@, w)
                },
                Err(e) => e == Error::StorageError && final(self)@ == old(self)@,
            },
    {
        match Wallet::new() {
            Ok(wallet) => {
                let address = wallet.get_address();
                let ghost w = wallet@;
                proof {
                    lemma_put_entry_distinct(self@, address@, w);
                }
                self.insert(address.clone(), wallet);
                Ok(address)
            },
            Err(e) => Err(e),
        }
    }

    /// The addresses of the wallets.
    pub fn get_all_addresses(&self) -> (r: Vec<String>)
        ensures
            r@.len() == self@.len(),
            forall|i: int| 0 <= i < r@.len() ==> (#[trigger] r@[i])@ == self@[i].0,
    {
        let mut addresses: Vec<String> = Vec::new();
        let mut i: usize = 0;
        while i < self.wallets.len()
            invariant
                i <= self.wallets@.len(),
                addresses@.len() == i,
                forall|j: int| 0 <= j < i ==> (#[trigger] addresses@[j])@ == self@[j].0,
            decreases self.wallets@.len() - i,
        {
            addresses.push(self.wallets[i].address.clone());
            i = i + 1;
        }
        addresses
    }

    /// The wallet under `address`.
    pub fn get_wallet(&self, address: &str) -> (r: Option<&Wallet>)
        requires
            self.wf(),
        ensures
            match r {
                Some(w) => entry_index(self@, address@) is Some && self@[entry_index(
                    self@,
                    address@,
                ).unwrap()].1 == w@,
                None => entry_index(self@, address@) is None,
            },
    {
        match self.find(address) {
            Some(i) => Some(&self.wallets[i].wallet),
            None => None,
        }
    }

    /// The records to write to the wallet store: for each wallet its address
    /// in UTF-8 as the key and the encoded wallet as the value.
    pub fn save_all(&self) -> (r: Vec<Record>)
        ensures
            list_view(r@) == Seq::new(self@.len(), |i: int| entry_record(self@[i])),
    {
        let mut records: Vec<Record> = Vec::new();
        let mut i: usize = 0;
        while i < self.wallets.len()
            invariant
                i <= self.wallets@.len(),
                list_view(records@) == Seq::new(i as nat, |j: int| entry_record(self@[j])),
            decreases self.wallets@.len() - i,
        {
            let ghost before = records@;
            let record = Record {
                key: copy_bytes(self.wallets[i].address.as_str().as_bytes()),
                value: serialize(&self.wallets[i].wallet),
            };
            proof {
                lemma_list_view_push(before, record);
                assert(list_view(before).push(record@) =~= Seq::new(
                    (i + 1) as nat,
                    |j: int| entry_record(self@[j]),
                ));
            }
            records.push(record);
            i = i + 1;
        }
        records
    }
}

} // verus!
