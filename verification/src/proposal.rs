//! Proposals, the choices a voter has, and the errors an operation may report.
//!
//! An identity is the byte string of an authenticated caller; two identities
//! are the same exactly when their bytes are.

use vstd::prelude::*;
use vstd::utf8::encode_utf8;
use crate::table::MAX_VALUE_SIZE;

verus! {

/// What a voter may answer.
#[derive(Debug, Clone, Copy, PartialEq, Eq)]
pub enum Choice {
    Approve,
    Reject,
    Pass,
}

/// Why an operation on a proposal was refused.
#[derive(Debug, Clone, Copy, PartialEq, Eq)]
pub enum VoteError {
    AlreadyVoted,
    ProposalIsNotActive,
    NoSuchProposal,
    AccessRejected,
    UpdateError,
}

/// A proposal as it is stored.
#[derive(Debug, Clone, PartialEq, Eq)]
pub struct Proposal {
    pub description: String,
    pub approve: u32,
    pub reject: u32,
    pub pass: u32,
    pub is_active: bool,
    pub voted: Vec<Vec<u8>>,
    pub owner: Vec<u8>,
}

/// The mathematical value of a [`Proposal`].
pub struct ProposalModel {
    pub description: Seq<char>,
    pub approve: nat,
    pub reject: nat,
    pub pass: nat,
    pub is_active: bool,
    pub voted: Seq<Seq<u8>>,
    pub owner: Seq<u8>,
}

/// The identities held by a vector of byte vectors, in order.
pub open spec fn ids_view(ids: Seq<Vec<u8>>) -> Seq<Seq<u8>> {
    Seq::new(ids.len(), |i: int| ids[i]@)
}

/// The bytes that a list of identities takes when stored: four bytes of length
/// and then the identity, for each.
pub open spec fn ids_len(ids: Seq<Seq<u8>>) -> nat
    decreases ids.len(),
{
    if ids.len() == 0 {
        0
    } else {
        4 + ids[0].len() + ids_len(ids.skip(1))
    }
}

/// The bytes of a stored record before its variable-length parts.
pub const HEADER_LEN: usize = 25;

impl View for Proposal {
    type V = ProposalModel;

    open spec fn view(&self) -> ProposalModel {
        ProposalModel {
            description: self.description@,
            approve: self.approve as nat,
            reject: self.reject as nat,
            pass: self.pass as nat,
            is_active: self.is_active,
            voted: ids_view(self.voted@),
            owner: self.owner@,
        }
    }
}

impl ProposalModel {
    /// Every voter is counted in exactly one tally.
    pub open spec fn tallied(self) -> bool {
        self.approve + self.reject + self.pass == self.voted.len()
    }

    /// The number of bytes the record takes when stored.
    pub open spec fn encoded_len(self) -> int {
        HEADER_LEN + self.owner.len() + encode_utf8(self.description).len() + ids_len(self.voted)
    }

    /// The record is small enough to be stored.
    pub open spec fn fits(self) -> bool {
        self.encoded_len() <= MAX_VALUE_SIZE
    }

    /// The invariant of every stored proposal: tallies match the voters, no
    /// identity voted twice, and the record fits the size bound.
    pub open spec fn valid(self) -> bool {
        &&& self.tallied()
        &&& self.voted.no_duplicates()
        &&& self.fits()
    }

    /// A fresh proposal owned by `owner`: no votes, nobody has voted.
    pub open spec fn created(description: Seq<char>, is_active: bool, owner: Seq<u8>) -> ProposalModel {
        ProposalModel {
            description,
            approve: 0,
            reject: 0,
            pass: 0,
            is_active,
            voted: Seq::empty(),
            owner,
        }
    }

    /// The proposal with its description and activity flag replaced.
    pub open spec fn edited(self, description: Seq<char>, is_active: bool) -> ProposalModel {
        ProposalModel { description, is_active, ..self }
    }

    /// The proposal, closed.
    pub open spec fn ended(self) -> ProposalModel {
        ProposalModel { is_active: false, ..self }
    }

    /// The proposal after `voter` has answered `choice`.
    pub open spec fn with_vote(self, voter: Seq<u8>, choice: Choice) -> ProposalModel {
        ProposalModel {
            approve: if choice is Approve { (self.approve + 1) as nat } else { self.approve },
            reject: if choice is Reject { (self.reject + 1) as nat } else { self.reject },
            pass: if choice is Pass { (self.pass + 1) as nat } else { self.pass },
            voted: self.voted.push(voter),
            ..self
        }
    }
}

/// A list of identities takes at least four bytes for each of them.
pub proof fn lemma_ids_len_lower(ids: Seq<Seq<u8>>)
    ensures
        4 * ids.len() <= ids_len(ids),
    decreases ids.len(),
{
    if ids.len() > 0 {
        lemma_ids_len_lower(ids.skip(1));
    }
}

/// Whether two identities are the same.
pub fn same_identity(a: &Vec<u8>, b: &Vec<u8>) -> (same: bool)
    ensures
        same == (a@ == b@),
{
    if a.len() != b.len() {
        return false;
    }
    let mut i: usize = 0;
    while i < a.len()
        invariant
            i <= a.len(),
            a.len() == b.len(),
            forall|j: int| 0 <= j < i ==> a@[j] == b@[j],
        decreases a.len() - i,
    {
        if a[i] != b[i] {
            return false;
        }
        i += 1;
    }
    assert(a@ =~= b@);
    true
}

/// Whether `who` is among the first `upto` of `ids`.
fn occurs_before(ids: &Vec<Vec<u8>>, upto: usize, who: &Vec<u8>) -> (found: bool)
    requires
        upto <= ids.len(),
    ensures
        found == ids_view(ids@).take(upto as int).contains(who@),
{
    let ghost seen = ids_view(ids@).take(upto as int);
    let mut i: usize = 0;
    while i < upto
        invariant
            i <= upto <= ids.len(),
            seen == ids_view(ids@).take(upto as int),
            forall|j: int| 0 <= j < i ==> seen[j] != who@,
        decreases upto - i,
    {
        if same_identity(&ids[i], who) {
            assert(seen[i as int] == who@);
            return true;
        }
        i += 1;
    }
    false
}

/// Whether `who` is among `ids`.
pub fn has_voted(ids: &Vec<Vec<u8>>, who: &Vec<u8>) -> (found: bool)
    ensures
        found == ids_view(ids@).contains(who@),
{
    assert(ids_view(ids@).take(ids.len() as int) =~= ids_view(ids@));
    occurs_before(ids, ids.len(), who)
}

/// Whether no identity occurs twice in `ids`.
pub fn all_distinct(ids: &Vec<Vec<u8>>) -> (distinct: bool)
    ensures
        distinct == ids_view(ids@).no_duplicates(),
{
    let ghost all = ids_view(ids@);
    let mut i: usize = 0;
    while i < ids.len()
        invariant
            i <= ids.len(),
            all == ids_view(ids@),
            forall|j: int, k: int| 0 <= j < k < i ==> all[j] != all[k],
        decreases ids.len() - i,
    {
        if occurs_before(ids, i, &ids[i]) {
            let ghost j = all.take(i as int).index_of(all[i as int]);
            assert(all[j] == all[i as int] && j != i);
            return false;
        }
        assert forall|j: int, k: int| 0 <= j < k < i + 1 implies all[j] != all[k] by {
            if k == i {
                assert(all.take(i as int)[j] == all[j]);
            }
        }
        i += 1;
    }
    true
}

} // verus!
