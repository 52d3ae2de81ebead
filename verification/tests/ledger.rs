use proposal_ledger::proposal::{all_distinct, has_voted, same_identity, Choice, Proposal, VoteError};
use proposal_ledger::service::ProposalService;
use proposal_ledger::store::ProposalStore;

fn id(tag: u8) -> Vec<u8> {
    vec![tag, 0xca, 0xfe]
}

#[test]
fn created_proposal_is_blank() {
    let mut svc = ProposalService::new();
    let a = id(1);
    assert_eq!(svc.create_proposal(&a, 7, String::from("Budget"), false), None);
    let p = svc.get_proposal(7).unwrap();
    assert_eq!(p.approve, 0);
    assert_eq!(p.reject, 0);
    assert_eq!(p.pass, 0);
    assert!(p.voted.is_empty());
    assert_eq!(p.owner, a);
    assert_eq!(p.description, "Budget");
    assert!(!p.is_active);
}

#[test]
fn scenario_create_vote_end_edit() {
    let mut svc = ProposalService::new();
    let (a, b, c) = (id(1), id(2), id(3));
    assert_eq!(svc.create_proposal(&a, 1, String::from("Upgrade v2"), true), None);
    let p = svc.get_proposal(1).unwrap();
    assert_eq!((p.approve, p.reject, p.pass), (0, 0, 0));
    assert_eq!(p.owner, a);

    assert_eq!(svc.vote(&b, 1, Choice::Approve), Ok(()));
    let p = svc.get_proposal(1).unwrap();
    assert_eq!(p.approve, 1);
    assert_eq!(p.voted, vec![b.clone()]);

    assert_eq!(svc.vote(&b, 1, Choice::Approve), Err(VoteError::AlreadyVoted));
    assert_eq!(svc.get_proposal(1).unwrap().approve, 1);

    assert_eq!(svc.end_proposal(&a, 1), Ok(()));
    assert!(!svc.get_proposal(1).unwrap().is_active);

    assert_eq!(svc.vote(&b, 1, Choice::Reject), Err(VoteError::ProposalIsNotActive));
    assert_eq!(
        svc.edit_proposal(&c, 1, String::from("v2 final"), false),
        Err(VoteError::AccessRejected)
    );
    let p = svc.get_proposal(1).unwrap();
    assert_eq!(p.description, "Upgrade v2");
    assert_eq!((p.approve, p.reject, p.pass), (1, 0, 0));
}

#[test]
fn distinct_votes_add_up() {
    let mut svc = ProposalService::new();
    svc.create_proposal(&id(0), 5, String::from("count"), true);
    let choices = [Choice::Approve, Choice::Reject, Choice::Pass, Choice::Approve, Choice::Pass, Choice::Pass];
    for (n, choice) in choices.iter().enumerate() {
        assert_eq!(svc.vote(&id(10 + n as u8), 5, *choice), Ok(()));
    }
    let p = svc.get_proposal(5).unwrap();
    assert_eq!((p.approve, p.reject, p.pass), (2, 1, 3));
    assert_eq!(p.voted.len(), 6);
    assert_eq!(p.voted[0], id(10));
    assert_eq!(p.voted[5], id(15));
    assert!(p.is_active);
}

#[test]
fn owner_may_vote_once() {
    let mut svc = ProposalService::new();
    let a = id(1);
    svc.create_proposal(&a, 2, String::from("self"), true);
    assert_eq!(svc.vote(&a, 2, Choice::Pass), Ok(()));
    assert_eq!(svc.vote(&a, 2, Choice::Approve), Err(VoteError::AlreadyVoted));
    let p = svc.get_proposal(2).unwrap();
    assert_eq!((p.approve, p.reject, p.pass), (0, 0, 1));
}

#[test]
fn missing_key_is_no_such_proposal() {
    let mut svc = ProposalService::new();
    let a = id(1);
    assert_eq!(svc.get_proposal(9), None);
    assert_eq!(svc.vote(&a, 9, Choice::Approve), Err(VoteError::NoSuchProposal));
    assert_eq!(svc.end_proposal(&a, 9), Err(VoteError::NoSuchProposal));
    assert_eq!(svc.edit_proposal(&a, 9, String::from("x"), true), Err(VoteError::NoSuchProposal));
    assert_eq!(svc.get_proposal_count(), 0);
}

#[test]
fn inactive_is_tested_before_already_voted() {
    let mut svc = ProposalService::new();
    let (a, b) = (id(1), id(2));
    svc.create_proposal(&a, 3, String::from("order"), true);
    assert_eq!(svc.vote(&b, 3, Choice::Reject), Ok(()));
    assert_eq!(svc.end_proposal(&a, 3), Ok(()));
    assert_eq!(svc.vote(&b, 3, Choice::Reject), Err(VoteError::ProposalIsNotActive));
    let p = svc.get_proposal(3).unwrap();
    assert_eq!((p.approve, p.reject, p.pass), (0, 1, 0));
    assert_eq!(p.voted, vec![b]);
}

#[test]
fn end_is_idempotent_and_owner_only() {
    let mut svc = ProposalService::new();
    let (a, b) = (id(1), id(2));
    svc.create_proposal(&a, 4, String::from("close"), true);
    assert_eq!(svc.end_proposal(&b, 4), Err(VoteError::AccessRejected));
    assert!(svc.get_proposal(4).unwrap().is_active);
    assert_eq!(svc.end_proposal(&a, 4), Ok(()));
    assert_eq!(svc.end_proposal(&a, 4), Ok(()));
    let p = svc.get_proposal(4).unwrap();
    assert!(!p.is_active);
    assert_eq!(p.description, "close");
    assert_eq!(p.owner, a);
}

#[test]
fn edit_keeps_tallies_and_may_reopen() {
    let mut svc = ProposalService::new();
    let (a, b) = (id(1), id(2));
    svc.create_proposal(&a, 6, String::from("draft"), true);
    assert_eq!(svc.vote(&b, 6, Choice::Approve), Ok(()));
    assert_eq!(svc.end_proposal(&a, 6), Ok(()));
    assert_eq!(svc.edit_proposal(&a, 6, String::from("final"), true), Ok(()));
    let p = svc.get_proposal(6).unwrap();
    assert_eq!(p.description, "final");
    assert!(p.is_active);
    assert_eq!((p.approve, p.reject, p.pass), (1, 0, 0));
    assert_eq!(p.voted, vec![b.clone()]);
    assert_eq!(p.owner, a);
    assert_eq!(svc.vote(&b, 6, Choice::Pass), Err(VoteError::AlreadyVoted));
    assert_eq!(svc.vote(&id(3), 6, Choice::Pass), Ok(()));
    assert_eq!(svc.get_proposal(6).unwrap().pass, 1);
}

#[test]
fn create_overwrites_and_returns_previous() {
    let mut svc = ProposalService::new();
    let (a, b) = (id(1), id(2));
    svc.create_proposal(&a, 8, String::from("first"), true);
    assert_eq!(svc.vote(&b, 8, Choice::Approve), Ok(()));
    let previous = svc.create_proposal(&b, 8, String::from("second"), false).unwrap();
    assert_eq!(previous.description, "first");
    assert_eq!(previous.owner, a);
    assert_eq!(previous.approve, 1);
    let p = svc.get_proposal(8).unwrap();
    assert_eq!(p.description, "second");
    assert_eq!(p.owner, b);
    assert_eq!(p.approve, 0);
    assert!(p.voted.is_empty());
    assert_eq!(svc.get_proposal_count(), 1);
}

#[test]
fn count_follows_distinct_keys() {
    let mut svc = ProposalService::new();
    let a = id(1);
    assert_eq!(svc.get_proposal_count(), 0);
    svc.create_proposal(&a, 1, String::from("one"), true);
    svc.create_proposal(&a, 2, String::from("two"), true);
    svc.create_proposal(&a, u64::MAX, String::from("last"), true);
    svc.create_proposal(&a, 2, String::from("two again"), true);
    assert_eq!(svc.get_proposal_count(), 3);
    assert_eq!(svc.get_proposal(u64::MAX).unwrap().description, "last");
    assert_eq!(svc.get_proposal(2).unwrap().description, "two again");
    assert_eq!(svc.get_proposal(3), None);
}

#[test]
fn store_insert_get_count() {
    let mut store = ProposalStore::new();
    let p = sample();
    assert_eq!(store.get(11), None);
    assert_eq!(store.insert(11, p.clone()), None);
    assert_eq!(store.get(11), Some(p.clone()));
    let mut q = p.clone();
    q.is_active = false;
    assert_eq!(store.insert(11, q.clone()), Some(p));
    assert_eq!(store.get(11), Some(q));
    assert_eq!(store.count(), 1);
}

fn sample() -> Proposal {
    Proposal {
        description: String::from("hi"),
        approve: 1,
        reject: 0,
        pass: 0,
        is_active: true,
        voted: vec![vec![7]],
        owner: vec![1, 2],
    }
}

#[test]
fn stored_form_is_exact() {
    let bytes = sample().to_bytes().unwrap();
    assert_eq!(
        bytes,
        vec![
            1, 1, 0, 0, 0, 0, 0, 0, 0, 0, 0, 0, 0, 2, 0, 0, 0, 2, 0, 0, 0, 1, 0, 0, 0, 1, 2, b'h', b'i', 1, 0, 0,
            0, 7
        ]
    );
    assert_eq!(Proposal::from_bytes(&bytes), Some(sample()));
}

#[test]
fn round_trip_keeps_every_field() {
    let p = Proposal {
        description: String::from("Grüße, мир — 提案 ✓"),
        approve: 2,
        reject: 1,
        pass: 1,
        is_active: false,
        voted: vec![vec![], vec![1], vec![2, 3, 4], vec![0xff; 29]],
        owner: vec![9; 29],
    };
    let bytes = p.to_bytes().unwrap();
    assert_eq!(bytes.len(), 25 + 29 + p.description.len() + 4 * 4 + 1 + 3 + 29);
    let q = Proposal::from_bytes(&bytes).unwrap();
    assert_eq!(q.description, p.description);
    assert_eq!((q.approve, q.reject, q.pass), (2, 1, 1));
    assert_eq!(q.is_active, p.is_active);
    assert_eq!(q.voted, p.voted);
    assert_eq!(q.owner, p.owner);
}

#[test]
fn size_bound_is_detected_when_encoding() {
    let owner = vec![1u8; 10];
    let mut p = Proposal {
        description: "x".repeat(5000 - 25 - 10),
        approve: 0,
        reject: 0,
        pass: 0,
        is_active: true,
        voted: Vec::new(),
        owner,
    };
    assert_eq!(p.to_bytes().unwrap().len(), 5000);
    p.description.push('y');
    assert_eq!(p.to_bytes(), None);
}

#[test]
fn malformed_bytes_are_not_a_proposal() {
    let good = sample().to_bytes().unwrap();
    assert_eq!(Proposal::from_bytes(&Vec::new()), None);
    assert_eq!(Proposal::from_bytes(&good[..24].to_vec()), None);
    // a flag byte other than 0 or 1
    let mut bad = good.clone();
    bad[0] = 2;
    assert_eq!(Proposal::from_bytes(&bad), None);
    // a trailing byte
    let mut bad = good.clone();
    bad.push(0);
    assert_eq!(Proposal::from_bytes(&bad), None);
    // a missing byte
    let mut bad = good.clone();
    bad.pop();
    assert_eq!(Proposal::from_bytes(&bad), None);
    // tallies that do not add up to the voters
    let mut bad = good.clone();
    bad[5] = 1;
    assert_eq!(Proposal::from_bytes(&bad), None);
    // a description that is not UTF-8
    let mut bad = good.clone();
    bad[27] = 0xff;
    assert_eq!(Proposal::from_bytes(&bad), None);
    // more than the size bound
    assert_eq!(Proposal::from_bytes(&vec![0u8; 5001]), None);
}

#[test]
fn duplicate_voters_are_not_a_proposal() {
    let p = Proposal {
        description: String::new(),
        approve: 2,
        reject: 0,
        pass: 0,
        is_active: true,
        voted: vec![vec![5], vec![5]],
        owner: vec![],
    };
    let bytes = p.to_bytes().unwrap();
    assert_eq!(Proposal::from_bytes(&bytes), None);
    let mut q = p.clone();
    q.voted = vec![vec![5], vec![6]];
    assert_eq!(Proposal::from_bytes(&q.to_bytes().unwrap()), Some(q));
}

#[test]
fn identities_compare_by_bytes() {
    assert!(same_identity(&vec![1, 2], &vec![1, 2]));
    assert!(!same_identity(&vec![1, 2], &vec![1, 3]));
    assert!(!same_identity(&vec![1, 2], &vec![1, 2, 0]));
    assert!(same_identity(&vec![], &vec![]));
    let ids = vec![vec![1], vec![2, 2], vec![]];
    assert!(has_voted(&ids, &vec![2, 2]));
    assert!(has_voted(&ids, &vec![]));
    assert!(!has_voted(&ids, &vec![2]));
    assert!(all_distinct(&ids));
    assert!(!all_distinct(&vec![vec![1], vec![2], vec![1]]));
    assert!(all_distinct(&Vec::new()));
}

#[test]
fn try_vote_refuses_a_record_that_would_not_fit() {
    let mut svc = ProposalService::new();
    let a = id(1);
    // 25 bytes of header, 3 of owner: the description fills the record but for 6 bytes
    let text = "d".repeat(5000 - 25 - 3 - 6);
    assert!(svc.try_create_proposal(&a, 1, text.clone(), true).is_some());
    // a voter of 3 bytes takes 7
    assert_eq!(svc.try_vote(&id(2), 1, Choice::Approve), None);
    let p = svc.get_proposal(1).unwrap();
    assert_eq!((p.approve, p.reject, p.pass), (0, 0, 0));
    assert!(p.voted.is_empty());
    // a voter of 2 bytes takes 6
    assert_eq!(svc.try_vote(&vec![1, 2], 1, Choice::Approve), Some(Ok(())));
    assert_eq!(svc.get_proposal(1).unwrap().voted, vec![vec![1u8, 2]]);
    // a refusal is reported whatever the size
    assert_eq!(svc.try_vote(&vec![1, 2], 1, Choice::Pass), Some(Err(VoteError::AlreadyVoted)));
    assert_eq!(svc.try_vote(&id(2), 9, Choice::Pass), Some(Err(VoteError::NoSuchProposal)));
}

#[test]
fn try_create_and_try_edit_refuse_a_record_that_would_not_fit() {
    let mut svc = ProposalService::new();
    let (a, b) = (id(1), id(2));
    assert_eq!(svc.try_create_proposal(&a, 1, "d".repeat(5000), true), None);
    assert_eq!(svc.get_proposal_count(), 0);
    assert_eq!(svc.try_create_proposal(&a, 1, String::from("short"), true), Some(None));
    assert_eq!(svc.try_edit_proposal(&a, 1, "d".repeat(5000 - 25 - 3 + 1), false), None);
    assert_eq!(svc.get_proposal(1).unwrap().description, "short");
    assert_eq!(svc.try_edit_proposal(&b, 1, "d".repeat(6000), false), Some(Err(VoteError::AccessRejected)));
    assert_eq!(svc.try_edit_proposal(&a, 1, "d".repeat(5000 - 25 - 3), false), Some(Ok(())));
    let p = svc.get_proposal(1).unwrap();
    assert_eq!(p.description.len(), 4972);
    assert!(!p.is_active);
}

#[test]
fn refused_calls_leave_the_record_as_it_was() {
    let mut svc = ProposalService::new();
    let (a, b) = (id(1), id(2));
    svc.create_proposal(&a, 1, String::from("kept"), true);
    assert_eq!(svc.vote(&b, 1, Choice::Reject), Ok(()));
    let before = svc.get_proposal(1).unwrap();
    let bytes_before = before.to_bytes().unwrap();
    assert_eq!(svc.edit_proposal(&b, 1, String::from("taken"), false), Err(VoteError::AccessRejected));
    assert_eq!(svc.end_proposal(&b, 1), Err(VoteError::AccessRejected));
    assert_eq!(svc.end_proposal(&Vec::new(), 1), Err(VoteError::AccessRejected));
    assert_eq!(svc.vote(&b, 1, Choice::Approve), Err(VoteError::AlreadyVoted));
    let after = svc.get_proposal(1).unwrap();
    assert_eq!(after, before);
    assert_eq!(after.to_bytes().unwrap(), bytes_before);
    assert_eq!(svc.get_proposal_count(), 1);
}

#[test]
fn service_and_store_share_one_table() {
    let mut svc = ProposalService::new();
    svc.create_proposal(&id(1), 21, String::from("shared"), true);
    assert_eq!(svc.store.count(), 1);
    assert_eq!(svc.store.get(21), svc.get_proposal(21));
    let mut other = ProposalStore::new();
    assert_eq!(other.count(), 0);
    assert_eq!(other.insert(21, svc.get_proposal(21).unwrap()), None);
}
