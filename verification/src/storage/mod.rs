//! The storage layer: the stored record and its byte format, the engine's
//! column families and reads, and the raft machine state.
pub mod codec;
pub mod rocksdb;
pub mod prefix;
pub mod engine;
pub mod raft;

use vstd::prelude::*;
use crate::storage::codec::{record_json, encode_record};

verus! {

/// A value as the engine stores it: the bytes that the caller handed in.
#[derive(Debug, Clone, PartialEq, Eq)]
pub struct StorageDataWrap {
    pub data: Vec<u8>,
}

impl View for StorageDataWrap {
    type V = Seq<u8>;

    open spec fn view(&self) -> Seq<u8> {
        self.data@
    }
}

impl StorageDataWrap {
    /// Wraps the bytes to be stored.
    pub fn new(data: Vec<u8>) -> (r: Self)
        ensures
            r@ == data@,
    {
        StorageDataWrap { data }
    }

    /// The record as it is written to the store: `{"data":[...]}`.
    pub fn to_json(&self) -> (r: Vec<u8>)
        ensures
            r@ == record_json(self@),
    {
        encode_record(self.data.as_slice())
    }
}

} // verus!
