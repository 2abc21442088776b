//! Records of a key-value store, as they are read from it and written to it.

use vstd::prelude::*;
use crate::codec::copy_bytes;

verus! {

/// One entry of a key-value store.
#[derive(Debug, PartialEq, Eq)]
pub struct Record {
    pub key: Vec<u8>,
    pub value: Vec<u8>,
}

/// What a `Record` holds.
pub struct RecordView {
    pub key: Seq<u8>,
    pub value: Seq<u8>,
}

impl View for Record {
    type V = RecordView;

    open spec fn view(&self) -> RecordView {
        RecordView { key: self.key@, value: self.value@ }
    }
}

impl Clone for Record {
    fn clone(&self) -> (r: Self)
        ensures
            r@ == self@,
    {
        Record { key: copy_bytes(self.key.as_slice()), value: copy_bytes(self.value.as_slice()) }
    }
}

} // verus!
