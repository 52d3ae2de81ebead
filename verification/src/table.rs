//! The durable byte table underneath the proposal store.
//!
//! The table is a `StableBTreeMap` from `u64` keys to size-bounded byte blobs,
//! living in one virtual memory of the default memory implementation.
//! Verus does not look inside it: its contents are named by [`table_records`]
//! and every operation on it is a trusted wrapper stated over that name.

use vstd::prelude::*;
use ic_stable_structures::memory_manager::{MemoryId, MemoryManager, VirtualMemory};
use ic_stable_structures::storable::Blob;
use ic_stable_structures::{DefaultMemoryImpl, StableBTreeMap};

verus! {

/// The largest number of bytes a stored record may take.
pub const MAX_VALUE_SIZE: usize = 5000;

/// The virtual memory that holds the proposals.
pub const PROPOSAL_MEMORY: u8 = 0;

/// A `StableBTreeMap<u64, Blob<5000>, _>`. The map's bounds name traits that
/// Verus cannot be told about, so the map is kept behind this opaque struct.
#[verifier::external_body]
pub struct RecordTable {
    inner: StableBTreeMap<u64, Blob<5000>, VirtualMemory<DefaultMemoryImpl>>,
}

/// The key-to-bytes mapping that a table currently holds.
pub uninterp spec fn table_records(t: RecordTable) -> Map<u64, Seq<u8>>;

/// `MemoryManager::init`, `MemoryManager::get` and `StableBTreeMap::init`: opens
/// the table that lives in virtual memory `memory` of the default memory. Whatever
/// that memory already holds is loaded, so nothing is claimed of the contents. Where
/// the memory holds a table that was laid out with other size bounds, the
/// outside code stops the program, here or when a record beyond the bound is
/// read; no precondition can speak of that memory.
/// `MemoryId::new` refuses the number 255, which the precondition rules out.
#[verifier::external_body]
pub(crate) fn table_open(memory: u8) -> (t: RecordTable)
    requires
        memory < 255,
{
    let manager = MemoryManager::init(DefaultMemoryImpl::default());
    RecordTable { inner: StableBTreeMap::init(manager.get(MemoryId::new(memory))) }
}

/// `StableBTreeMap::len`: the number of entries the table holds.
#[verifier::external_body]
pub(crate) fn table_len(t: &RecordTable) -> (count: u64)
    ensures
        count == table_records(*t).len(),
{
    t.inner.len()
}

/// `StableBTreeMap::get`: the bytes stored under `key`, if the key is present.
/// The table is left as it was.
#[verifier::external_body]
pub(crate) fn table_get(t: &RecordTable, key: u64) -> (found: Option<Vec<u8>>)
    ensures
        found.is_some() == table_records(*t).contains_key(key),
        found matches Some(bytes) ==> bytes@ == table_records(*t)[key],
{
    match t.inner.get(&key) {
        Some(blob) => Some(blob.as_slice().to_vec()),
        None => None,
    }
}

/// `StableBTreeMap::insert` on a blob made by `Blob::try_from`: stores `value`
/// under `key`, replacing and returning what was there; every other key keeps
/// its bytes. `Blob::try_from` refuses more than [`MAX_VALUE_SIZE`] bytes, which
/// the precondition rules out.
#[verifier::external_body]
pub(crate) fn table_insert(t: &mut RecordTable, key: u64, value: &Vec<u8>) -> (previous: Option<Vec<u8>>)
    requires
        value@.len() <= MAX_VALUE_SIZE,
    ensures
        table_records(*final(t)) == table_records(*old(t)).insert(key, value@),
        previous.is_some() == table_records(*old(t)).contains_key(key),
        previous matches Some(bytes) ==> bytes@ == table_records(*old(t))[key],
{
    match t.inner.insert(key, Blob::try_from(value.as_slice()).unwrap()) {
        Some(blob) => Some(blob.as_slice().to_vec()),
        None => None,
    }
}

} // verus!
