use blockchain::address::decode_address;
use blockchain::hashing::{ripemd160, sha256, to_hex};
use blockchain::signing::verify_message;
use blockchain::store::Record;
use blockchain::wallets::{hash_pub_key, Wallet, Wallets};
use blockchain::error::Error;

#[test]
fn test_create_wallet_and_hash() {
    let w1 = Wallet::new().unwrap();
    let w2 = Wallet::new().unwrap();
    assert_ne!(w1, w2);
    assert_ne!(w1.get_address(), w2.get_address());

    let mut p2 = w2.public_key.clone();
    hash_pub_key(&mut p2);
    assert_eq!(p2.len(), 20);
    let pub_key_hash = decode_address(&w2.get_address()).unwrap();
    assert_eq!(pub_key_hash, p2);
}

#[test]
fn test_wallets() {
    let mut ws = Wallets::new(&Vec::new()).unwrap();
    let wa1 = ws.create_wallet().unwrap();
    let w1 = ws.get_wallet(&wa1).unwrap().clone();
    let saved = ws.save_all();

    let ws2 = Wallets::new(&saved).unwrap();
    let w2 = ws2.get_wallet(&wa1).unwrap();
    assert_eq!(&w1, w2);
}

#[test]
#[should_panic]
fn test_wallets_not_exist() {
    let w3 = Wallet::new().unwrap();
    let ws2 = Wallets::new(&Vec::new()).unwrap();
    ws2.get_wallet(&w3.get_address()).unwrap();
}

#[test]
fn wallets_test_signature() {
    let w = Wallet::new().unwrap();
    let signature = crypto::ed25519::signature("test".as_bytes(), &w.secret_key);
    assert!(crypto::ed25519::verify("test".as_bytes(), &w.public_key, &signature));
    assert!(verify_message("test".as_bytes(), &w.public_key, &signature));
}

#[test]
fn keys_have_their_lengths() {
    let w = Wallet::from_seed(&[0u8; 32]);
    assert_eq!(w.secret_key.len(), 64);
    assert_eq!(w.public_key.len(), 32);
    assert_eq!(&w.secret_key[..32], &[0u8; 32]);
    assert_eq!(&w.secret_key[32..], &w.public_key[..]);
}

#[test]
fn a_seed_gives_the_key_pair_of_the_test_vector() {
    let seed: Vec<u8> = (0..32)
        .map(|i| {
            let hex = "9d61b19deffd5a60ba844af492ec2cc44449c5697b326919703bac031cae7f60";
            u8::from_str_radix(&hex[2 * i..2 * i + 2], 16).unwrap()
        })
        .collect();
    let w = Wallet::from_seed(&seed);
    assert_eq!(
        to_hex(&w.public_key),
        "d75a980182b10ab7d54bfed3c964073a0ee172f3daa62325af021a68f707511a"
    );
}

#[test]
fn from_seed_is_a_function_of_the_seed() {
    assert_eq!(Wallet::from_seed(&[7u8; 32]), Wallet::from_seed(&[7u8; 32]));
    assert_ne!(Wallet::from_seed(&[7u8; 32]), Wallet::from_seed(&[8u8; 32]));
}

#[test]
fn hash_pub_key_is_ripemd160_of_sha256() {
    let mut key: Vec<u8> = Vec::new();
    hash_pub_key(&mut key);
    assert_eq!(to_hex(&key), "b472a266d0bd89c13706a4132ccfb16f7c3b9fcb");

    let mut key = vec![1u8, 2, 3];
    hash_pub_key(&mut key);
    let expected = ripemd160(&sha256(&[1u8, 2, 3]).unwrap()).unwrap();
    assert_eq!(key, expected);
    assert_eq!(key.len(), 20);
}

#[test]
fn ripemd160_of_abc() {
    assert_eq!(
        to_hex(&ripemd160(b"abc").unwrap()),
        "8eb208f7e05d987a9b044a8e98c6b087f15a0bfc"
    );
}

#[test]
fn a_known_address_decodes_to_its_hash() {
    let body = decode_address("1NM2HFXin4cEQRBLjkNZAS98qLX9JKzjKn").unwrap();
    assert_eq!(to_hex(&body), "ea2407829a5055466b27784cde8cf463167946bf");
}

#[test]
fn a_malformed_address_is_refused() {
    assert_eq!(decode_address("0"), Err(Error::AddressError));
    assert_eq!(decode_address(""), Err(Error::AddressError));
    assert_eq!(
        decode_address("1NM2HFXin4cEQRBLjkNZAS98qLX9JKzjKm"),
        Err(Error::AddressError)
    );
    assert_eq!(
        decode_address("bitcoincash:qr4zgpuznfg923ntyauyeh5v7333v72xhum2dsdgfh"),
        Err(Error::AddressError)
    );
    assert_eq!(decode_address("\u{80}"), Err(Error::AddressError));
    let long = "1".repeat(65);
    assert_eq!(decode_address(&long), Err(Error::AddressError));
    assert_eq!(decode_address(&"1".repeat(25)), Err(Error::AddressError));
}

#[test]
fn an_address_stands_for_the_hash_of_the_key() {
    let w = Wallet::from_seed(&[5u8; 32]);
    let address = w.get_address();
    assert!(address.starts_with('3'));
    let mut hash = w.public_key.clone();
    hash_pub_key(&mut hash);
    assert_eq!(decode_address(&address).unwrap(), hash);
}

#[test]
fn wallets_keep_one_wallet_for_each_address() {
    let mut ws = Wallets::new(&Vec::new()).unwrap();
    let a = ws.create_wallet_from(&[1u8; 32]);
    let b = ws.create_wallet_from(&[2u8; 32]);
    let again = ws.create_wallet_from(&[1u8; 32]);
    assert_eq!(a, again);
    assert_ne!(a, b);
    assert_eq!(ws.get_all_addresses(), vec![a.clone(), b.clone()]);
    assert_eq!(ws.get_wallet(&a), Some(&Wallet::from_seed(&[1u8; 32])));
    assert_eq!(ws.get_wallet("nobody"), None);
}

#[test]
fn saved_wallets_are_keyed_by_address() {
    let mut ws = Wallets::new(&Vec::new()).unwrap();
    let a = ws.create_wallet_from(&[1u8; 32]);
    let saved = ws.save_all();
    assert_eq!(saved.len(), 1);
    assert_eq!(saved[0].key, a.as_bytes().to_vec());
    let w = Wallet::from_seed(&[1u8; 32]);
    assert_eq!(
        saved[0].value,
        bincode::serialize(&(w.secret_key.clone(), w.public_key.clone())).unwrap()
    );
}

#[test]
fn a_record_that_does_not_decode_is_a_storage_error() {
    let bad_value = vec![Record { key: b"addr".to_vec(), value: vec![1, 2, 3] }];
    assert_eq!(Wallets::new(&bad_value).err(), Some(Error::StorageError));
    let w = Wallet::from_seed(&[1u8; 32]);
    let bad_key = vec![Record {
        key: vec![0xff, 0xfe],
        value: blockchain::codec::serialize(&w),
    }];
    assert_eq!(Wallets::new(&bad_key).err(), Some(Error::StorageError));
}

#[test]
fn a_signature_of_another_length_is_refused() {
    let w = Wallet::from_seed(&[9u8; 32]);
    let signature = crypto::ed25519::signature(b"msg", &w.secret_key);
    assert!(verify_message(b"msg", &w.public_key, &signature));
    assert!(!verify_message(b"other", &w.public_key, &signature));
    assert!(!verify_message(b"msg", &w.public_key, &signature[..63]));
    let mut longer = signature.to_vec();
    longer.push(0);
    assert!(!verify_message(b"msg", &w.public_key, &longer));
    assert!(!verify_message(b"msg", &w.public_key[..31], &signature));
    assert!(!verify_message(b"msg", &[], &[]));
}
