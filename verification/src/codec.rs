//! The byte encoding of values as they are stored, hashed and sent.
//!
//! Integers are written little-endian at their full width. A byte string is
//! its length as a `u64` followed by its bytes, a text is the byte string of
//! its UTF-8 form, and a list is its length as a `u64` followed by its items.
//! Decoding reads a value from the front of a byte sequence and hands back
//! what is left.

use vstd::prelude::*;
use vstd::bytes::*;
use vstd::slice::*;
use vstd::utf8::*;
use vstd::string::*;

verus! {

/// The encoding of a `u32`.
pub open spec fn enc_u32(v: u32) -> Seq<u8> {
    spec_u32_to_le_bytes(v)
}

/// The encoding of an `i32`: that of the `u32` with the same bits.
pub open spec fn enc_i32(v: i32) -> Seq<u8> {
    spec_u32_to_le_bytes(v as u32)
}

/// The encoding of a `u64`.
pub open spec fn enc_u64(v: u64) -> Seq<u8> {
    spec_u64_to_le_bytes(v)
}

/// The encoding of a `u128`.
pub open spec fn enc_u128(v: u128) -> Seq<u8> {
    spec_u128_to_le_bytes(v)
}

/// The encoding of a byte string.
pub open spec fn enc_bytes(b: Seq<u8>) -> Seq<u8> {
    enc_u64(b.len() as u64) + b
}

/// The encoding of a text.
pub open spec fn enc_str(s: Seq<char>) -> Seq<u8> {
    enc_bytes(encode_utf8(s))
}

/// Reads a `u32` from the front of `s`.
pub open spec fn dec_u32(s: Seq<u8>) -> Option<(u32, Seq<u8>)> {
    if s.len() >= 4 {
        Some((spec_u32_from_le_bytes(s.subrange(0, 4)), s.skip(4)))
    } else {
        None
    }
}

/// Reads an `i32` from the front of `s`.
pub open spec fn dec_i32(s: Seq<u8>) -> Option<(i32, Seq<u8>)> {
    if s.len() >= 4 {
        Some((spec_u32_from_le_bytes(s.subrange(0, 4)) as i32, s.skip(4)))
    } else {
        None
    }
}

/// Reads a `u64` from the front of `s`.
pub open spec fn dec_u64(s: Seq<u8>) -> Option<(u64, Seq<u8>)> {
    if s.len() >= 8 {
        Some((spec_u64_from_le_bytes(s.subrange(0, 8)), s.skip(8)))
    } else {
        None
    }
}

/// Reads a `u128` from the front of `s`.
pub open spec fn dec_u128(s: Seq<u8>) -> Option<(u128, Seq<u8>)> {
    if s.len() >= 16 {
        Some((spec_u128_from_le_bytes(s.subrange(0, 16)), s.skip(16)))
    } else {
        None
    }
}

/// Reads a byte string from the front of `s`.
pub open spec fn dec_bytes(s: Seq<u8>) -> Option<(Seq<u8>, Seq<u8>)> {
    match dec_u64(s) {
        Some((n, rest)) => if n <= rest.len() {
            Some((rest.subrange(0, n as int), rest.skip(n as int)))
        } else {
            None
        },
        None => None,
    }
}

/// Reads a text from the front of `s`; bytes that are not UTF-8 are refused.
pub open spec fn dec_str(s: Seq<u8>) -> Option<(Seq<char>, Seq<u8>)> {
    match dec_bytes(s) {
        Some((b, rest)) => if valid_utf8(b) {
            Some((decode_utf8(b), rest))
        } else {
            None
        },
        None => None,
    }
}

/// Whatever follows an encoded `u32`, decoding gives the number back.
pub proof fn lemma_u32_roundtrip(v: u32, rest: Seq<u8>)
    ensures
        enc_u32(v).len() == 4,
        dec_u32(enc_u32(v) + rest) == Some((v, rest)),
{
    lemma_auto_spec_u32_to_from_le_bytes();
    let s = enc_u32(v) + rest;
    assert(s.subrange(0, 4) =~= enc_u32(v));
    assert(s.skip(4) =~= rest);
}

/// Whatever follows an encoded `i32`, decoding gives the number back.
pub proof fn lemma_i32_roundtrip(v: i32, rest: Seq<u8>)
    ensures
        enc_i32(v).len() == 4,
        dec_i32(enc_i32(v) + rest) == Some((v, rest)),
{
    lemma_u32_roundtrip(v as u32, rest);
    assert((v as u32) as i32 == v) by (bit_vector);
}

/// Whatever follows an encoded `u64`, decoding gives the number back.
pub proof fn lemma_u64_roundtrip(v: u64, rest: Seq<u8>)
    ensures
        enc_u64(v).len() == 8,
        dec_u64(enc_u64(v) + rest) == Some((v, rest)),
{
    lemma_auto_spec_u64_to_from_le_bytes();
    let s = enc_u64(v) + rest;
    assert(s.subrange(0, 8) =~= enc_u64(v));
    assert(s.skip(8) =~= rest);
}

/// Whatever follows an encoded `u128`, decoding gives the number back.
pub proof fn lemma_u128_roundtrip(v: u128, rest: Seq<u8>)
    ensures
        enc_u128(v).len() == 16,
        dec_u128(enc_u128(v) + rest) == Some((v, rest)),
{
    lemma_auto_spec_u128_to_from_le_bytes();
    let s = enc_u128(v) + rest;
    assert(s.subrange(0, 16) =~= enc_u128(v));
    assert(s.skip(16) =~= rest);
}

/// Whatever follows an encoded byte string of a length that a `u64` holds,
/// decoding gives the bytes back.
pub proof fn lemma_bytes_roundtrip(b: Seq<u8>, rest: Seq<u8>)
    requires
        b.len() <= u64::MAX,
    ensures
        enc_bytes(b).len() == 8 + b.len(),
        dec_bytes(enc_bytes(b) + rest) == Some((b, rest)),
{
    let n = b.len() as u64;
    lemma_u64_roundtrip(n, b + rest);
    assert(enc_bytes(b) + rest =~= enc_u64(n) + (b + rest));
    assert((b + rest).subrange(0, n as int) =~= b);
    assert((b + rest).skip(n as int) =~= rest);
}

/// Whatever follows an encoded text whose UTF-8 form has a length that a
/// `u64` holds, decoding gives the text back.
pub proof fn lemma_str_roundtrip(s: Seq<char>, rest: Seq<u8>)
    requires
        encode_utf8(s).len() <= u64::MAX,
    ensures
        enc_str(s).len() == 8 + encode_utf8(s).len(),
        dec_str(enc_str(s) + rest) == Some((s, rest)),
{
    lemma_bytes_roundtrip(encode_utf8(s), rest);
    encode_utf8_valid_utf8(s);
    encode_utf8_decode_utf8(s);
}


/// Appends the encoding of `v` to `out`.
pub fn put_u32(out: &mut Vec<u8>, v: u32)
    ensures
        final(out)@ == old(out)@ + enc_u32(v),
{
    let mut b = u32_to_le_bytes(v);
    out.append(&mut b);
}

/// Appends the encoding of `v` to `out`.
pub fn put_i32(out: &mut Vec<u8>, v: i32)
    ensures
        final(out)@ == old(out)@ + enc_i32(v),
{
    put_u32(out, v as u32);
}

/// Appends the encoding of `v` to `out`.
pub fn put_u64(out: &mut Vec<u8>, v: u64)
    ensures
        final(out)@ == old(out)@ + enc_u64(v),
{
    let mut b = u64_to_le_bytes(v);
    out.append(&mut b);
}

/// Appends the encoding of `v` to `out`.
pub fn put_u128(out: &mut Vec<u8>, v: u128)
    ensures
        final(out)@ == old(out)@ + enc_u128(v),
{
    let mut b = u128_to_le_bytes(v);
    out.append(&mut b);
}

/// Appends the bytes of `b` to `out`, as they are.
pub fn put_raw(out: &mut Vec<u8>, b: &[u8])
    ensures
        final(out)@ == old(out)@ + b@,
{
    let mut i: usize = 0;
    while i < b.len()
        invariant
            i <= b@.len(),
            out@ == old(out)@ + b@.subrange(0, i as int),
        decreases b@.len() - i,
    {
        out.push(b[i]);
        i = i + 1;
        assert(b@.subrange(0, i as int) =~= b@.subrange(0, i - 1).push(b@[i - 1]));
    }
    assert(b@.subrange(0, i as int) =~= b@);
}

/// Appends the encoding of the byte string `b` to `out`.
pub fn put_bytes(out: &mut Vec<u8>, b: &[u8])
    ensures
        final(out)@ == old(out)@ + enc_bytes(b@),
{
    put_u64(out, b.len() as u64);
    put_raw(out, b);
}

/// Appends the encoding of the text `s` to `out`.
pub fn put_str(out: &mut Vec<u8>, s: &str)
    ensures
        final(out)@ == old(out)@ + enc_str(s@),
{
    put_bytes(out, s.as_bytes());
}

/// Reads a `u32` at `pos`; `None` where fewer than four bytes are left.
pub fn get_u32(data: &[u8], pos: usize) -> (r: Option<(u32, usize)>)
    requires
        pos <= data@.len(),
    ensures
        match r {
            Some((v, next)) => pos <= next <= data@.len() && dec_u32(data@.skip(pos as int))
                == Some((v, data@.skip(next as int))),
            None => dec_u32(data@.skip(pos as int)) is None,
        },
{
    if data.len() - pos < 4 {
        return None;
    }
    let v = u32_from_le_bytes(slice_subrange(data, pos, pos + 4));
    proof {
        let s = data@.skip(pos as int);
        assert(s.subrange(0, 4) =~= data@.subrange(pos as int, pos + 4));
        assert(s.skip(4) =~= data@.skip(pos + 4));
    }
    Some((v, pos + 4))
}

/// Reads an `i32` at `pos`; `None` where fewer than four bytes are left.
pub fn get_i32(data: &[u8], pos: usize) -> (r: Option<(i32, usize)>)
    requires
        pos <= data@.len(),
    ensures
        match r {
            Some((v, next)) => pos <= next <= data@.len() && dec_i32(data@.skip(pos as int))
                == Some((v, data@.skip(next as int))),
            None => dec_i32(data@.skip(pos as int)) is None,
        },
{
    match get_u32(data, pos) {
        Some((v, next)) => Some((v as i32, next)),
        None => None,
    }
}

/// Reads a `u64` at `pos`; `None` where fewer than eight bytes are left.
pub fn get_u64(data: &[u8], pos: usize) -> (r: Option<(u64, usize)>)
    requires
        pos <= data@.len(),
    ensures
        match r {
            Some((v, next)) => pos <= next <= data@.len() && dec_u64(data@.skip(pos as int))
                == Some((v, data@.skip(next as int))),
            None => dec_u64(data@.skip(pos as int)) is None,
        },
{
    if data.len() - pos < 8 {
        return None;
    }
    let v = u64_from_le_bytes(slice_subrange(data, pos, pos + 8));
    proof {
        let s = data@.skip(pos as int);
        assert(s.subrange(0, 8) =~= data@.subrange(pos as int, pos + 8));
        assert(s.skip(8) =~= data@.skip(pos + 8));
    }
    Some((v, pos + 8))
}

/// Reads a `u128` at `pos`; `None` where fewer than sixteen bytes are left.
pub fn get_u128(data: &[u8], pos: usize) -> (r: Option<(u128, usize)>)
    requires
        pos <= data@.len(),
    ensures
        match r {
            Some((v, next)) => pos <= next <= data@.len() && dec_u128(data@.skip(pos as int))
                == Some((v, data@.skip(next as int))),
            None => dec_u128(data@.skip(pos as int)) is None,
        },
{
    if data.len() - pos < 16 {
        return None;
    }
    let v = u128_from_le_bytes(slice_subrange(data, pos, pos + 16));
    proof {
        let s = data@.skip(pos as int);
        assert(s.subrange(0, 16) =~= data@.subrange(pos as int, pos + 16));
        assert(s.skip(16) =~= data@.skip(pos + 16));
    }
    Some((v, pos + 16))
}

/// Reads a byte string at `pos`; `None` where the length or the bytes are cut short.
pub fn get_bytes(data: &[u8], pos: usize) -> (r: Option<(Vec<u8>, usize)>)
    requires
        pos <= data@.len(),
    ensures
        match r {
            Some((b, next)) => pos <= next <= data@.len() && dec_bytes(data@.skip(pos as int))
                == Some((b@, data@.skip(next as int))),
            None => dec_bytes(data@.skip(pos as int)) is None,
        },
{
    match get_u64(data, pos) {
        Some((n, start)) => {
            if n > (data.len() - start) as u64 {
                return None;
            }
            let end: usize = start + n as usize;
            let b = slice_to_vec(slice_subrange(data, start, end));
            proof {
                let rest = data@.skip(start as int);
                assert(rest.subrange(0, n as int) =~= data@.subrange(start as int, end as int));
                assert(rest.skip(n as int) =~= data@.skip(end as int));
            }
            Some((b, end))
        },
        None => None,
    }
}

/// `String::from_utf8` of std: the text that `bytes` spell in UTF-8, or
/// nothing where they are not UTF-8.
#[verifier::external_body]
pub(crate) fn string_from_utf8(bytes: Vec<u8>) -> (r: Option<String>)
    ensures
        match r {
            Some(s) => valid_utf8(bytes@) && s@ == decode_utf8(bytes@),
            None => !valid_utf8(bytes@),
        },
{
    String::from_utf8(bytes).ok()
}

/// Reads a text at `pos`; `None` where it is cut short or is not UTF-8.
pub fn get_str(data: &[u8], pos: usize) -> (r: Option<(String, usize)>)
    requires
        pos <= data@.len(),
    ensures
        match r {
            Some((s, next)) => pos <= next <= data@.len() && dec_str(data@.skip(pos as int))
                == Some((s@, data@.skip(next as int))),
            None => dec_str(data@.skip(pos as int)) is None,
        },
{
    match get_bytes(data, pos) {
        Some((b, next)) => match string_from_utf8(b) {
            Some(s) => Some((s, next)),
            None => None,
        },
        None => None,
    }
}


/// A type with a byte encoding.
///
/// `enc` says how a value is written and `dec` how one is read from the
/// front of a byte sequence. `bounded` holds of a value whose lengths all fit
/// the `u64` that announces them, as they do in every value in memory.
pub trait Wire: View + Sized {
    spec fn bounded(v: Self::V) -> bool;

    spec fn enc(v: Self::V) -> Seq<u8>;

    spec fn dec(s: Seq<u8>) -> Option<(Self::V, Seq<u8>)>;

    /// Whatever follows an encoded value, decoding gives the value back.
    proof fn lemma_roundtrip(v: Self::V, rest: Seq<u8>)
        requires
            Self::bounded(v),
        ensures
            Self::dec(Self::enc(v) + rest) == Some((v, rest)),
    ;

    /// Appends the encoding of the value to `out`. The value, being in
    /// memory, is bounded.
    fn put(&self, out: &mut Vec<u8>)
        ensures
            final(out)@ == old(out)@ + Self::enc(self@),
            Self::bounded(self@),
    ;

    /// Reads a value at `pos`, and says where the next one starts.
    fn get(data: &[u8], pos: usize) -> (r: Option<(Self, usize)>)
        requires
            pos <= data@.len(),
        ensures
            match r {
                Some((v, next)) => pos <= next <= data@.len() && Self::dec(
                    data@.skip(pos as int),
                ) == Some((v@, data@.skip(next as int))),
                None => Self::dec(data@.skip(pos as int)) is None,
            },
    ;
}

/// The views of the items of a list.
pub open spec fn list_view<T: View>(s: Seq<T>) -> Seq<T::V> {
    s.map_values(|x: T| x@)
}

/// The views of a list with one more item are the views of the list, then
/// the view of the item.
pub proof fn lemma_list_view_push<T: View>(s: Seq<T>, x: T)
    ensures
        list_view(s.push(x)) == list_view(s).push(x@),
{
    assert(list_view(s.push(x)) =~= list_view(s).push(x@));
}

/// The encodings of the items of `s`, one after the other.
pub open spec fn enc_items<T: Wire>(s: Seq<T::V>) -> Seq<u8>
    decreases s.len(),
{
    if s.len() == 0 {
        Seq::empty()
    } else {
        T::enc(s[0]) + enc_items::<T>(s.drop_first())
    }
}

/// The encoding of a list: its length, then its items.
pub open spec fn enc_list<T: Wire>(s: Seq<T::V>) -> Seq<u8> {
    enc_u64(s.len() as u64) + enc_items::<T>(s)
}

/// Reads `n` items from the front of `s`.
pub open spec fn dec_items<T: Wire>(s: Seq<u8>, n: nat) -> Option<(Seq<T::V>, Seq<u8>)>
    decreases n,
{
    if n == 0 {
        Some((Seq::empty(), s))
    } else {
        match T::dec(s) {
            Some((x, rest)) => match dec_items::<T>(rest, (n - 1) as nat) {
                Some((xs, tail)) => Some((seq![x] + xs, tail)),
                None => None,
            },
            None => None,
        }
    }
}

/// Reads a list from the front of `s`.
pub open spec fn dec_list<T: Wire>(s: Seq<u8>) -> Option<(Seq<T::V>, Seq<u8>)> {
    match dec_u64(s) {
        Some((n, rest)) => dec_items::<T>(rest, n as nat),
        None => None,
    }
}

/// Whether the list and each of its items is bounded.
pub open spec fn list_bounded<T: Wire>(s: Seq<T::V>) -> bool {
    &&& s.len() <= u64::MAX
    &&& forall|i: int| 0 <= i < s.len() ==> T::bounded(#[trigger] s[i])
}

/// The items of `s` followed by `x` encode as those of `s`, then `x`.
pub proof fn lemma_enc_items_push<T: Wire>(s: Seq<T::V>, x: T::V)
    ensures
        enc_items::<T>(s.push(x)) == enc_items::<T>(s) + T::enc(x),
    decreases s.len(),
{
    if s.len() == 0 {
        assert(s.push(x).drop_first() =~= Seq::<T::V>::empty());
        assert(enc_items::<T>(Seq::<T::V>::empty()) =~= Seq::<u8>::empty());
        assert(enc_items::<T>(s.push(x)) =~= T::enc(x));
    } else {
        lemma_enc_items_push::<T>(s.drop_first(), x);
        assert(s.push(x).drop_first() =~= s.drop_first().push(x));
        assert(enc_items::<T>(s.push(x)) =~= enc_items::<T>(s) + T::enc(x));
    }
}

/// Whatever follows the encoded items of a bounded list, reading as many
/// items gives the list back.
pub proof fn lemma_items_roundtrip<T: Wire>(s: Seq<T::V>, rest: Seq<u8>)
    requires
        forall|i: int| 0 <= i < s.len() ==> T::bounded(#[trigger] s[i]),
    ensures
        dec_items::<T>(enc_items::<T>(s) + rest, s.len()) == Some((s, rest)),
    decreases s.len(),
{
    if s.len() == 0 {
        assert(enc_items::<T>(s) + rest =~= rest);
        assert(s =~= Seq::<T::V>::empty());
    } else {
        let tail = s.drop_first();
        assert forall|i: int| 0 <= i < tail.len() implies T::bounded(#[trigger] tail[i]) by {
            assert(tail[i] == s[i + 1]);
        }
        T::lemma_roundtrip(s[0], enc_items::<T>(tail) + rest);
        lemma_items_roundtrip::<T>(tail, rest);
        assert(enc_items::<T>(s) + rest =~= T::enc(s[0]) + (enc_items::<T>(tail) + rest));
        assert(seq![s[0]] + tail =~= s);
    }
}

/// Whatever follows an encoded bounded list, decoding gives the list back.
pub proof fn lemma_list_roundtrip<T: Wire>(s: Seq<T::V>, rest: Seq<u8>)
    requires
        list_bounded::<T>(s),
    ensures
        dec_list::<T>(enc_list::<T>(s) + rest) == Some((s, rest)),
{
    lemma_u64_roundtrip(s.len() as u64, enc_items::<T>(s) + rest);
    lemma_items_roundtrip::<T>(s, rest);
    assert(enc_list::<T>(s) + rest =~= enc_u64(s.len() as u64) + (enc_items::<T>(s) + rest));
}

/// Appends the encoding of the list `v` to `out`.
pub fn put_list<T: Wire>(out: &mut Vec<u8>, v: &Vec<T>)
    ensures
        final(out)@ == old(out)@ + enc_list::<T>(list_view(v@)),
        list_bounded::<T>(list_view(v@)),
{
    put_u64(out, v.len() as u64);
    let mut i: usize = 0;
    while i < v.len()
        invariant
            i <= v@.len(),
            forall|j: int| 0 <= j < i ==> T::bounded(#[trigger] list_view(v@)[j]),
            out@ == old(out)@ + enc_u64(v@.len() as u64) + enc_items::<T>(
                list_view(v@.subrange(0, i as int)),
            ),
        decreases v@.len() - i,
    {
        proof {
            lemma_enc_items_push::<T>(list_view(v@.subrange(0, i as int)), v@[i as int]@);
            assert(list_view(v@.subrange(0, i + 1)) =~= list_view(v@.subrange(0, i as int)).push(
                v@[i as int]@,
            ));
        }
        v[i].put(out);
        i = i + 1;
    }
    assert(v@.subrange(0, i as int) =~= v@);
    assert(out@ =~= old(out)@ + enc_list::<T>(list_view(v@)));
}

/// Reads a list at `pos`, and says where the next value starts.
pub fn get_list<T: Wire>(data: &[u8], pos: usize) -> (r: Option<(Vec<T>, usize)>)
    requires
        pos <= data@.len(),
    ensures
        match r {
            Some((v, next)) => pos <= next <= data@.len() && dec_list::<T>(data@.skip(pos as int))
                == Some((list_view(v@), data@.skip(next as int))),
            None => dec_list::<T>(data@.skip(pos as int)) is None,
        },
{
    let (n, start) = match get_u64(data, pos) {
        Some(p) => p,
        None => { return None; },
    };
    let mut items: Vec<T> = Vec::new();
    let mut cur: usize = start;
    let mut i: u64 = 0;
    while i < n
        invariant
            i <= n,
            start <= cur <= data@.len(),
            dec_u64(data@.skip(pos as int)) == Some((n, data@.skip(start as int))),
            dec_items::<T>(data@.skip(start as int), n as nat) == match dec_items::<T>(
                data@.skip(cur as int),
                (n - i) as nat,
            ) {
                Some((xs, tail)) => Some((list_view(items@) + xs, tail)),
                None => None,
            },
        decreases n - i,
    {
        match T::get(data, cur) {
            Some((x, next)) => {
                proof {
                    let ghost before = list_view(items@);
                    assert(list_view(items@.push(x)) =~= before.push(x@));
                    match dec_items::<T>(data@.skip(next as int), (n - i - 1) as nat) {
                        Some((xs, tail)) => {
                            assert(before + (seq![x@] + xs) =~= before.push(x@) + xs);
                        },
                        None => {},
                    }
                }
                items.push(x);
                cur = next;
                i = i + 1;
            },
            None => {
                return None;
            },
        }
    }
    proof {
        assert(list_view(items@) + Seq::<T::V>::empty() =~= list_view(items@));
    }
    Some((items, cur))
}

impl Wire for String {
    open spec fn bounded(v: Seq<char>) -> bool {
        encode_utf8(v).len() <= u64::MAX
    }

    open spec fn enc(v: Seq<char>) -> Seq<u8> {
        enc_str(v)
    }

    open spec fn dec(s: Seq<u8>) -> Option<(Seq<char>, Seq<u8>)> {
        dec_str(s)
    }

    proof fn lemma_roundtrip(v: Seq<char>, rest: Seq<u8>) {
        lemma_str_roundtrip(v, rest);
    }

    fn put(&self, out: &mut Vec<u8>) {
        let b = self.as_str().as_bytes();
        let _len = b.len();
        put_bytes(out, b);
    }

    fn get(data: &[u8], pos: usize) -> (r: Option<(Self, usize)>) {
        get_str(data, pos)
    }
}


/// The encoding of a value on its own.
pub fn serialize<T: Wire>(v: &T) -> (bytes: Vec<u8>)
    ensures
        bytes@ == T::enc(v@),
        T::bounded(v@),
{
    let mut bytes: Vec<u8> = Vec::new();
    v.put(&mut bytes);
    assert(bytes@ =~= T::enc(v@));
    bytes
}

/// The value that `data` starts with, if it starts with one; what follows
/// the value is not looked at.
pub fn deserialize<T: Wire>(data: &[u8]) -> (r: Option<T>)
    ensures
        match r {
            Some(v) => T::dec(data@) is Some && T::dec(data@).unwrap().0 == v@,
            None => T::dec(data@) is None,
        },
{
    assert(data@.skip(0) =~= data@);
    match T::get(data, 0) {
        Some((v, _)) => Some(v),
        None => None,
    }
}

/// Decoding the encoding of a bounded value gives the value back, with
/// nothing left over.
pub proof fn lemma_serialize_roundtrip<T: Wire>(v: T::V)
    requires
        T::bounded(v),
    ensures
        T::dec(T::enc(v)) == Some((v, Seq::<u8>::empty())),
{
    T::lemma_roundtrip(v, Seq::empty());
    assert(T::enc(v) + Seq::<u8>::empty() =~= T::enc(v));
}

/// A copy of a byte string.
pub fn copy_bytes(b: &[u8]) -> (r: Vec<u8>)
    ensures
        r@ == b@,
{
    let mut r: Vec<u8> = Vec::new();
    put_raw(&mut r, b);
    assert(r@ =~= b@);
    r
}

/// Whether two byte strings are the same.
pub fn bytes_eq(a: &[u8], b: &[u8]) -> (r: bool)
    ensures
        r == (a@ == b@),
{
    if a.len() != b.len() {
        return false;
    }
    let mut i: usize = 0;
    while i < a.len()
        invariant
            a@.len() == b@.len(),
            i <= a@.len(),
            forall|j: int| 0 <= j < i ==> a@[j] == b@[j],
        decreases a@.len() - i,
    {
        if a[i] != b[i] {
            return false;
        }
        i = i + 1;
    }
    assert(a@ =~= b@);
    true
}

/// Whether two texts are the same.
pub fn str_eq(a: &str, b: &str) -> (r: bool)
    ensures
        r == (a@ == b@),
{
    proof {
        encode_utf8_decode_utf8(a@);
        encode_utf8_decode_utf8(b@);
    }
    bytes_eq(a.as_bytes(), b.as_bytes())
}

} // verus!
