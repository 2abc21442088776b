//! The error kinds that the node reports.

use vstd::prelude::*;

verus! {

/// What can go wrong inside the node.
#[derive(Debug, Clone, Copy, PartialEq, Eq, Structural)]
pub enum Error {
    /// A persistent store could not be read, or a stored record did not decode.
    StorageError,
    /// The chain is not initialised, or a block or a transaction is missing.
    NotFound,
    /// The spendable outputs of a wallet do not cover the amount asked for.
    InsufficientFunds,
    /// An input refers to a previous transaction, or to an output of it, that is unknown.
    InvalidReference,
    /// A transaction offered for mining does not verify.
    InvalidTransaction,
    /// An address is not a well-formed base58check string.
    AddressError,
    /// A peer message carries an unknown command or a payload that does not decode.
    ProtocolError,
    /// A peer could not be reached.
    NetworkError,
    /// A value is too long to be hashed: SHA-256 takes fewer than 2^61 bytes.
    EncodingError,
}

impl Error {
    /// A short description, as it is printed for the user.
    pub fn message(&self) -> (text: &'static str)
        ensures
            text@ == self.description(),
    {
        match self {
            Error::StorageError => "storage error",
            Error::NotFound => "not found",
            Error::InsufficientFunds => "Not Enough balance",
            Error::InvalidReference => "ERROR: Previous transaction is not correct",
            Error::InvalidTransaction => "ERROR: Invalid transaction",
            Error::AddressError => "invalid address",
            Error::ProtocolError => "Unknown command in the server",
            Error::NetworkError => "network error",
            Error::EncodingError => "value too long to hash",
        }
    }

    /// The description of each kind of error.
    pub open spec fn description(&self) -> Seq<char> {
        match self {
            Error::StorageError => "storage error"@,
            Error::NotFound => "not found"@,
            Error::InsufficientFunds => "Not Enough balance"@,
            Error::InvalidReference => "ERROR: Previous transaction is not correct"@,
            Error::InvalidTransaction => "ERROR: Invalid transaction"@,
            Error::AddressError => "invalid address"@,
            Error::ProtocolError => "Unknown command in the server"@,
            Error::NetworkError => "network error"@,
            Error::EncodingError => "value too long to hash"@,
        }
    }
}

} // verus!
