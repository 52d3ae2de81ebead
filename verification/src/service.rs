//! The proposal service: who may create, edit, close and vote on a proposal,
//! and what each of these does to the store.
//!
//! Every operation that writes takes the authenticated identity of its caller.

use vstd::prelude::*;
use vstd::slice::slice_to_vec;
use crate::codec::encode;
use crate::proposal::{
    has_voted, ids_view, lemma_ids_len_lower, same_identity, Choice, Proposal, ProposalModel, VoteError,
};
use crate::store::ProposalStore;

verus! {

/// What an operation reserved to the owner answers: the proposal must exist
/// and `caller` must own it.
pub open spec fn owner_outcome(ledger: Map<u64, ProposalModel>, caller: Seq<u8>, key: u64) -> Result<(), VoteError> {
    if !ledger.contains_key(key) {
        Err(VoteError::NoSuchProposal)
    } else if ledger[key].owner != caller {
        Err(VoteError::AccessRejected)
    } else {
        Ok(())
    }
}

/// What a vote answers: the proposal must exist, then be active, then not
/// hold `caller` among its voters.
pub open spec fn vote_outcome(ledger: Map<u64, ProposalModel>, caller: Seq<u8>, key: u64) -> Result<(), VoteError> {
    if !ledger.contains_key(key) {
        Err(VoteError::NoSuchProposal)
    } else if !ledger[key].is_active {
        Err(VoteError::ProposalIsNotActive)
    } else if ledger[key].voted.contains(caller) {
        Err(VoteError::AlreadyVoted)
    } else {
        Ok(())
    }
}

/// An edit that would be accepted leaves a record that fits the size bound.
pub open spec fn edit_fits(
    ledger: Map<u64, ProposalModel>,
    caller: Seq<u8>,
    key: u64,
    description: Seq<char>,
    is_active: bool,
) -> bool {
    owner_outcome(ledger, caller, key) is Ok ==> ledger[key].edited(description, is_active).fits()
}

/// A vote that would be accepted leaves a record that fits the size bound.
pub open spec fn vote_fits(ledger: Map<u64, ProposalModel>, caller: Seq<u8>, key: u64, choice: Choice) -> bool {
    vote_outcome(ledger, caller, key) is Ok ==> ledger[key].with_vote(caller, choice).fits()
}

/// The rules of the ledger over a proposal store.
pub struct ProposalService {
    pub store: ProposalStore,
}

impl View for ProposalService {
    type V = Map<u64, ProposalModel>;

    open spec fn view(&self) -> Map<u64, ProposalModel> {
        self.store@
    }
}

impl ProposalService {
    /// A service over the durable store, opened with whatever it holds.
    pub fn new() -> (service: ProposalService) {
        ProposalService { store: ProposalStore::new() }
    }

    /// The proposal under `key`, if there is one. Anybody may read.
    pub fn get_proposal(&self, key: u64) -> (found: Option<Proposal>)
        ensures
            found.is_some() == self@.contains_key(key),
            found matches Some(p) ==> p@ == self@[key] && p@.valid(),
    {
        self.store.get(key)
    }

    /// The number of records in the store.
    pub fn get_proposal_count(&self) -> (count: u64)
        ensures
            count == self.store.stored_bytes().len(),
    {
        self.store.count()
    }

    /// Puts a fresh proposal owned by `caller` under `key`: no votes, nobody
    /// has voted. A proposal that was already there is replaced, whoever owned
    /// it, and returned.
    pub fn create_proposal(&mut self, caller: &Vec<u8>, key: u64, description: String, is_active: bool) -> (previous: Option<Proposal>)
        requires
            ProposalModel::created(description@, is_active, caller@).fits(),
        ensures
            final(self)@ == old(self)@.insert(key, ProposalModel::created(description@, is_active, caller@)),
            final(self).store.stored_bytes() == old(self).store.stored_bytes().insert(
                key,
                encode(ProposalModel::created(description@, is_active, caller@)),
            ),
            previous.is_some() == old(self)@.contains_key(key),
            previous matches Some(p) ==> p@ == old(self)@[key],
    {
        let fresh = Proposal {
            description,
            approve: 0u32,
            reject: 0u32,
            pass: 0u32,
            is_active,
            voted: Vec::new(),
            owner: slice_to_vec(caller.as_slice()),
        };
        assert(fresh@.voted =~= Seq::<Seq<u8>>::empty());
        self.store.insert(key, fresh)
    }

    /// Replaces the description and the activity flag of the proposal under
    /// `key`, which only its owner may do. Tallies, voters and owner stay. A
    /// refused edit leaves the store as it was.
    pub fn edit_proposal(&mut self, caller: &Vec<u8>, key: u64, description: String, is_active: bool) -> (outcome: Result<(), VoteError>)
        requires
            edit_fits(old(self)@, caller@, key, description@, is_active),
        ensures
            outcome == owner_outcome(old(self)@, caller@, key),
            outcome is Ok ==> final(self)@ == old(self)@.insert(key, old(self)@[key].edited(description@, is_active)),
            outcome is Ok ==> final(self).store.stored_bytes() == old(self).store.stored_bytes().insert(
                key,
                encode(old(self)@[key].edited(description@, is_active)),
            ),
            outcome is Err ==> *final(self) == *old(self),
            outcome is Err ==> final(self).store.stored_bytes() == old(self).store.stored_bytes(),
    {
        if let Some(current) = self.store.get(key) {
            if same_identity(&current.owner, caller) {
                let updated = Proposal {
                    description,
                    approve: current.approve,
                    reject: current.reject,
                    pass: current.pass,
                    is_active,
                    voted: current.voted,
                    owner: current.owner,
                };
                match self.store.insert(key, updated) {
                    Some(_) => Ok(()),
                    None => Err(VoteError::UpdateError),
                }
            } else {
                Err(VoteError::AccessRejected)
            }
        } else {
            Err(VoteError::NoSuchProposal)
        }
    }

    /// Closes the proposal under `key`, which only its owner may do. Nothing
    /// else about it changes, and closing a closed proposal succeeds. A refused
    /// call leaves the store as it was.
    pub fn end_proposal(&mut self, caller: &Vec<u8>, key: u64) -> (outcome: Result<(), VoteError>)
        ensures
            outcome == owner_outcome(old(self)@, caller@, key),
            outcome is Ok ==> final(self)@ == old(self)@.insert(key, old(self)@[key].ended()),
            outcome is Ok ==> final(self).store.stored_bytes() == old(self).store.stored_bytes().insert(
                key,
                encode(old(self)@[key].ended()),
            ),
            outcome is Err ==> *final(self) == *old(self),
            outcome is Err ==> final(self).store.stored_bytes() == old(self).store.stored_bytes(),
    {
        if let Some(mut current) = self.store.get(key) {
            if same_identity(&current.owner, caller) {
                current.is_active = false;
                match self.store.insert(key, current) {
                    Some(_) => Ok(()),
                    None => Err(VoteError::UpdateError),
                }
            } else {
                Err(VoteError::AccessRejected)
            }
        } else {
            Err(VoteError::NoSuchProposal)
        }
    }

    /// Records the answer of `caller` on the proposal under `key`: the tally of
    /// `choice` grows by one and `caller` joins the voters. The proposal must
    /// exist, be active, and not hold `caller` among its voters, tested in that
    /// order. A refused vote leaves the store as it was.
    pub fn vote(&mut self, caller: &Vec<u8>, key: u64, choice: Choice) -> (outcome: Result<(), VoteError>)
        requires
            vote_fits(old(self)@, caller@, key, choice),
        ensures
            outcome == vote_outcome(old(self)@, caller@, key),
            outcome is Ok ==> final(self)@ == old(self)@.insert(key, old(self)@[key].with_vote(caller@, choice)),
            outcome is Ok ==> final(self).store.stored_bytes() == old(self).store.stored_bytes().insert(
                key,
                encode(old(self)@[key].with_vote(caller@, choice)),
            ),
            outcome is Err ==> *final(self) == *old(self),
            outcome is Err ==> final(self).store.stored_bytes() == old(self).store.stored_bytes(),
    {
        if let Some(mut current) = self.store.get(key) {
            if current.is_active {
                if !has_voted(&current.voted, caller) {
                    let ghost before = current@;
                    proof {
                        lemma_ids_len_lower(before.with_vote(caller@, choice).voted);
                    }
                    match choice {
                        Choice::Approve => current.approve += 1,
                        Choice::Reject => current.reject += 1,
                        Choice::Pass => current.pass += 1,
                    }
                    current.voted.push(slice_to_vec(caller.as_slice()));
                    assert(ids_view(current.voted@) =~= before.voted.push(caller@));
                    assert(current@ == before.with_vote(caller@, choice));
                    match self.store.insert(key, current) {
                        Some(_) => Ok(()),
                        None => Err(VoteError::UpdateError),
                    }
                } else {
                    Err(VoteError::AlreadyVoted)
                }
            } else {
                Err(VoteError::ProposalIsNotActive)
            }
        } else {
            Err(VoteError::NoSuchProposal)
        }
    }
    /// [`Self::create_proposal`] for a caller that has not measured the record:
    /// where it would not fit the size bound, nothing is stored and nothing
    /// is returned.
    pub fn try_create_proposal(&mut self, caller: &Vec<u8>, key: u64, description: String, is_active: bool) -> (outcome: Option<Option<Proposal>>)
        ensures
            outcome.is_some() == ProposalModel::created(description@, is_active, caller@).fits(),
            outcome is None ==> *final(self) == *old(self),
            outcome matches Some(previous) ==> {
                &&& final(self)@ == old(self)@.insert(key, ProposalModel::created(description@, is_active, caller@))
                &&& final(self).store.stored_bytes() == old(self).store.stored_bytes().insert(
                    key,
                    encode(ProposalModel::created(description@, is_active, caller@)),
                )
                &&& previous.is_some() == old(self)@.contains_key(key)
                &&& previous matches Some(p) ==> p@ == old(self)@[key]
            },
    {
        let fresh = Proposal {
            description: description.clone(),
            approve: 0u32,
            reject: 0u32,
            pass: 0u32,
            is_active,
            voted: Vec::new(),
            owner: slice_to_vec(caller.as_slice()),
        };
        assert(fresh@.voted =~= Seq::<Seq<u8>>::empty());
        if fresh.to_bytes().is_some() {
            Some(self.create_proposal(caller, key, description, is_active))
        } else {
            None
        }
    }

    /// [`Self::edit_proposal`] for a caller that has not measured the record:
    /// where the edit would be accepted but the edited record would not fit
    /// the size bound, nothing is stored and nothing is returned.
    pub fn try_edit_proposal(&mut self, caller: &Vec<u8>, key: u64, description: String, is_active: bool) -> (outcome: Option<Result<(), VoteError>>)
        ensures
            outcome.is_some() == edit_fits(old(self)@, caller@, key, description@, is_active),
            outcome is None ==> *final(self) == *old(self),
            outcome matches Some(answer) ==> {
                &&& answer == owner_outcome(old(self)@, caller@, key)
                &&& answer is Ok ==> final(self)@ == old(self)@.insert(
                    key,
                    old(self)@[key].edited(description@, is_active),
                )
                &&& answer is Ok ==> final(self).store.stored_bytes() == old(self).store.stored_bytes().insert(
                    key,
                    encode(old(self)@[key].edited(description@, is_active)),
                )
                &&& answer is Err ==> *final(self) == *old(self)
            },
    {
        let fits = match self.store.get(key) {
            Some(current) => {
                if same_identity(&current.owner, caller) {
                    let edited = Proposal {
                        description: description.clone(),
                        approve: current.approve,
                        reject: current.reject,
                        pass: current.pass,
                        is_active,
                        voted: current.voted,
                        owner: current.owner,
                    };
                    edited.to_bytes().is_some()
                } else {
                    true
                }
            },
            None => true,
        };
        if fits {
            Some(self.edit_proposal(caller, key, description, is_active))
        } else {
            None
        }
    }

    /// [`Self::vote`] for a caller that has not measured the record: where the
    /// vote would be accepted but the record with one more voter would not fit
    /// the size bound, nothing is stored and nothing is returned.
    pub fn try_vote(&mut self, caller: &Vec<u8>, key: u64, choice: Choice) -> (outcome: Option<Result<(), VoteError>>)
        ensures
            outcome.is_some() == vote_fits(old(self)@, caller@, key, choice),
            outcome is None ==> *final(self) == *old(self),
            outcome matches Some(answer) ==> {
                &&& answer == vote_outcome(old(self)@, caller@, key)
                &&& answer is Ok ==> final(self)@ == old(self)@.insert(
                    key,
                    old(self)@[key].with_vote(caller@, choice),
                )
                &&& answer is Ok ==> final(self).store.stored_bytes() == old(self).store.stored_bytes().insert(
                    key,
                    encode(old(self)@[key].with_vote(caller@, choice)),
                )
                &&& answer is Err ==> *final(self) == *old(self)
            },
    {
        let fits = match self.store.get(key) {
            Some(mut current) => {
                if current.is_active && !has_voted(&current.voted, caller) {
                    let ghost before = current@;
                    current.voted.push(slice_to_vec(caller.as_slice()));
                    assert(ids_view(current.voted@) =~= before.voted.push(caller@));
                    assert(current@.encoded_len() == before.with_vote(caller@, choice).encoded_len());
                    current.to_bytes().is_some()
                } else {
                    true
                }
            },
            None => true,
        };
        if fits {
            Some(self.vote(caller, key, choice))
        } else {
            None
        }
    }
}

} // verus!
