//! The proposal store: proposals by integer key, kept as bytes in the durable
//! table.

use vstd::prelude::*;
use crate::codec::{decode, encode, lemma_decode_encode, lemma_decode_valid, lemma_encode_decode};
use crate::proposal::{Proposal, ProposalModel};
use crate::table::{
    table_get, table_insert, table_len, table_open, table_records, RecordTable, PROPOSAL_MEMORY,
};

verus! {

/// A durable mapping from keys to proposals.
pub struct ProposalStore {
    table: RecordTable,
}

impl View for ProposalStore {
    type V = Map<u64, ProposalModel>;

    /// The proposals in the store: every key whose bytes store a proposal. A
    /// key whose bytes store none counts as absent.
    open spec fn view(&self) -> Map<u64, ProposalModel> {
        Map::new(
            |key: u64| self.stored_bytes().contains_key(key) && decode(self.stored_bytes()[key]) is Some,
            |key: u64| decode(self.stored_bytes()[key]).unwrap(),
        )
    }
}

impl ProposalStore {
    /// The bytes held under each key.
    pub closed spec fn stored_bytes(&self) -> Map<u64, Seq<u8>> {
        table_records(self.table)
    }

    /// Opens the store over the durable table, with whatever it holds. The
    /// records are those that the durable memory kept, so nothing is promised
    /// of them here; no operation of the store asks anything of them either.
    pub fn new() -> (store: ProposalStore) {
        ProposalStore { table: table_open(PROPOSAL_MEMORY) }
    }

    /// The proposal stored under `key`, if there is one.
    pub fn get(&self, key: u64) -> (found: Option<Proposal>)
        ensures
            found.is_some() == self@.contains_key(key),
            found matches Some(p) ==> p@ == self@[key] && p@.valid(),
    {
        match table_get(&self.table, key) {
            Some(bytes) => {
                proof {
                    lemma_decode_valid(bytes@);
                }
                Proposal::from_bytes(&bytes)
            },
            None => None,
        }
    }

    /// Stores `record` under `key`, replacing what was there, and returns the
    /// proposal that was there. No other key changes.
    pub fn insert(&mut self, key: u64, record: Proposal) -> (previous: Option<Proposal>)
        requires
            record@.valid(),
        ensures
            final(self).stored_bytes() == old(self).stored_bytes().insert(key, encode(record@)),
            final(self)@ == old(self)@.insert(key, record@),
            previous.is_some() == old(self)@.contains_key(key),
            previous matches Some(p) ==> p@ == old(self)@[key],
    {
        proof {
            lemma_decode_encode(record@);
        }
        let bytes = record.to_bytes().unwrap();
        let previous = match table_insert(&mut self.table, key, &bytes) {
            Some(before) => Proposal::from_bytes(&before),
            None => None,
        };
        assert(self@ =~= old(self)@.insert(key, record@));
        previous
    }

    /// The number of records in the store, whatever their bytes.
    pub fn count(&self) -> (count: u64)
        ensures
            count == self.stored_bytes().len(),
    {
        table_len(&self.table)
    }

    /// Every proposal in the store is valid: its tallies add up to its number
    /// of voters, no voter occurs twice, and it fits the size bound. The bytes
    /// under its key are its stored form.
    pub proof fn lemma_stored_valid(&self, key: u64)
        requires
            self@.contains_key(key),
        ensures
            self@[key].valid(),
            self.stored_bytes().contains_key(key),
            self.stored_bytes()[key] == encode(self@[key]),
    {
        lemma_decode_valid(self.stored_bytes()[key]);
        lemma_encode_decode(self.stored_bytes()[key]);
    }
}

} // verus!
