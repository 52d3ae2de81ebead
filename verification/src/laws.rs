//! What holds of the ledger whatever its callers do.

use vstd::prelude::*;
use crate::proposal::{Choice, ProposalModel, VoteError};
use crate::service::{owner_outcome, vote_outcome};

verus! {

/// The proposal after each of `voters` has answered the choice at the same
/// place in `choices`, in order.
pub open spec fn after_votes(p: ProposalModel, voters: Seq<Seq<u8>>, choices: Seq<Choice>) -> ProposalModel
    recommends
        voters.len() == choices.len(),
    decreases voters.len(),
{
    if voters.len() == 0 {
        p
    } else {
        after_votes(p, voters.drop_last(), choices.drop_last()).with_vote(voters.last(), choices.last())
    }
}

/// A proposal that was just created has no votes, no voters, and the creator
/// as its owner, whatever was under its key before.
pub proof fn law_created_is_blank(
    ledger: Map<u64, ProposalModel>,
    key: u64,
    description: Seq<char>,
    is_active: bool,
    creator: Seq<u8>,
)
    ensures
        ({
            let p = ledger.insert(key, ProposalModel::created(description, is_active, creator))[key];
            &&& p.approve == 0 && p.reject == 0 && p.pass == 0
            &&& p.voted.len() == 0
            &&& p.owner == creator
            &&& p.description == description
            &&& p.is_active == is_active
            &&& p.tallied()
            &&& p.voted.no_duplicates()
        }),
{
}

/// A vote that is accepted keeps the proposal's invariant: every voter is
/// tallied once and no voter occurs twice.
pub proof fn law_vote_keeps_tally(ledger: Map<u64, ProposalModel>, caller: Seq<u8>, key: u64, choice: Choice)
    requires
        vote_outcome(ledger, caller, key) is Ok,
        ledger[key].tallied(),
        ledger[key].voted.no_duplicates(),
    ensures
        ledger[key].with_vote(caller, choice).tallied(),
        ledger[key].with_vote(caller, choice).voted.no_duplicates(),
        ledger[key].with_vote(caller, choice).is_active,
{
}

/// After any sequence of votes by callers that are all different and have not
/// voted before, the three tallies add up to the number of voters: those that
/// had voted before and one for each caller.
pub proof fn law_votes_are_tallied(p: ProposalModel, voters: Seq<Seq<u8>>, choices: Seq<Choice>)
    requires
        p.tallied(),
        voters.len() == choices.len(),
    ensures
        ({
            let q = after_votes(p, voters, choices);
            &&& q.voted == p.voted + voters
            &&& q.approve + q.reject + q.pass == p.voted.len() + voters.len()
            &&& q.tallied()
            &&& q.is_active == p.is_active && q.owner == p.owner && q.description == p.description
        }),
    decreases voters.len(),
{
    if voters.len() == 0 {
        assert(p.voted + voters =~= p.voted);
    } else {
        law_votes_are_tallied(p, voters.drop_last(), choices.drop_last());
        assert((p.voted + voters.drop_last()).push(voters.last()) =~= p.voted + voters);
    }
}

/// On a fresh proposal, votes by callers that are all different leave the
/// tallies adding up to the number of those callers, and each vote in the
/// sequence is one that the proposal accepts while it is active.
pub proof fn law_distinct_votes_count(
    description: Seq<char>,
    owner: Seq<u8>,
    voters: Seq<Seq<u8>>,
    choices: Seq<Choice>,
)
    requires
        voters.len() == choices.len(),
        voters.no_duplicates(),
    ensures
        ({
            let q = after_votes(ProposalModel::created(description, true, owner), voters, choices);
            &&& q.approve + q.reject + q.pass == voters.len()
            &&& q.voted == voters
            &&& q.voted.no_duplicates()
        }),
        forall|i: int| 0 <= i < voters.len() ==> !(#[trigger] after_votes(
            ProposalModel::created(description, true, owner),
            voters.take(i),
            choices.take(i),
        )).voted.contains(voters[i]),
{
    let p = ProposalModel::created(description, true, owner);
    law_votes_are_tallied(p, voters, choices);
    assert(p.voted + voters =~= voters);
    assert forall|i: int| 0 <= i < voters.len() implies !(#[trigger] after_votes(
        p,
        voters.take(i),
        choices.take(i),
    )).voted.contains(voters[i]) by {
        law_votes_are_tallied(p, voters.take(i), choices.take(i));
        assert(p.voted + voters.take(i) =~= voters.take(i));
    }
}

/// Once a caller's vote was accepted, another vote by the same caller on the
/// same proposal is refused as `AlreadyVoted`, whatever it answers.
pub proof fn law_second_vote_refused(ledger: Map<u64, ProposalModel>, caller: Seq<u8>, key: u64, first: Choice)
    requires
        vote_outcome(ledger, caller, key) is Ok,
    ensures
        vote_outcome(ledger.insert(key, ledger[key].with_vote(caller, first)), caller, key) == Err::<(), VoteError>(
            VoteError::AlreadyVoted,
        ),
{
    let voted = ledger[key].voted.push(caller);
    assert(voted[voted.len() - 1] == caller);
}

/// A vote on a proposal that is not active is refused as
/// `ProposalIsNotActive`, whoever casts it.
pub proof fn law_closed_refuses_votes(ledger: Map<u64, ProposalModel>, caller: Seq<u8>, key: u64)
    requires
        ledger.contains_key(key),
        !ledger[key].is_active,
    ensures
        vote_outcome(ledger, caller, key) == Err::<(), VoteError>(VoteError::ProposalIsNotActive),
        vote_outcome(ledger.insert(key, ledger[key].ended()), caller, key) == Err::<(), VoteError>(
            VoteError::ProposalIsNotActive,
        ),
{
}

/// An edit or a close of an existing proposal by anyone but its owner is
/// refused as `AccessRejected`.
pub proof fn law_only_owner_changes(ledger: Map<u64, ProposalModel>, caller: Seq<u8>, key: u64)
    requires
        ledger.contains_key(key),
        ledger[key].owner != caller,
    ensures
        owner_outcome(ledger, caller, key) == Err::<(), VoteError>(VoteError::AccessRejected),
{
}

/// Neither an edit, a close nor a vote changes who owns a proposal; an edit or
/// a close changes neither tallies nor voters; a vote lowers no tally, changes
/// neither the description nor the activity flag, and closing twice is closing
/// once.
pub proof fn law_owner_and_tallies_stay(p: ProposalModel, description: Seq<char>, is_active: bool, voter: Seq<u8>, choice: Choice)
    ensures
        p.edited(description, is_active).owner == p.owner,
        p.ended().owner == p.owner,
        p.with_vote(voter, choice).owner == p.owner,
        p.edited(description, is_active).voted == p.voted && p.ended().voted == p.voted,
        p.edited(description, is_active).tallied() == p.tallied(),
        p.ended().tallied() == p.tallied(),
        p.ended().ended() == p.ended(),
        p.with_vote(voter, choice).approve >= p.approve,
        p.with_vote(voter, choice).reject >= p.reject,
        p.with_vote(voter, choice).pass >= p.pass,
        p.with_vote(voter, choice).is_active == p.is_active,
        p.with_vote(voter, choice).description == p.description,
{
}

} // verus!
