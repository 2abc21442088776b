use blockchain::error::Error;
use blockchain::hashing::{sha256, sha256_hex, to_hex};

#[test]
fn sha256_of_empty_input() {
    let h = sha256_hex(&[]).unwrap();
    assert_eq!(h, "e3b0c44298fc1c149afbf4c8996fb92427ae41e4649b934ca495991b7852b855");
}

#[test]
fn sha256_of_abc() {
    let d = sha256(b"abc").unwrap();
    assert_eq!(d.len(), 32);
    assert_eq!(
        to_hex(&d),
        "ba7816bf8f01cfea414140de5dae2223b00361a396177a9cb410ff61f20015ad"
    );
}

#[test]
fn hex_is_lower_case_high_half_first() {
    assert_eq!(to_hex(&[0x00, 0x0f, 0xa5, 0xff]), "000fa5ff");
    assert_eq!(to_hex(&[]), "");
}

#[test]
fn every_error_has_its_description() {
    assert_eq!(Error::StorageError.message(), "storage error");
    assert_eq!(Error::NotFound.message(), "not found");
    assert_eq!(Error::InsufficientFunds.message(), "Not Enough balance");
    assert_eq!(
        Error::InvalidReference.message(),
        "ERROR: Previous transaction is not correct"
    );
    assert_eq!(Error::InvalidTransaction.message(), "ERROR: Invalid transaction");
    assert_eq!(Error::AddressError.message(), "invalid address");
    assert_eq!(Error::ProtocolError.message(), "Unknown command in the server");
    assert_eq!(Error::NetworkError.message(), "network error");
    assert_eq!(Error::EncodingError.message(), "value too long to hash");
}
