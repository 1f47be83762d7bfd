use finality_pbft::messages::{Commit, PrePrepare, Prepare};
use finality_pbft::votes::{HasVoted, ViewState, Vote};

const PRE: PrePrepare = PrePrepare { target_hash: [1; 32], target_number: 1 };
const PREP: Prepare = Prepare { target_hash: [1; 32], target_number: 1 };
const COM: Commit = Commit { target_hash: [1; 32], target_number: 1 };

#[test]
fn genesis_state_is_all_at_the_block() {
    let at = Some(([8; 32], 4));
    let state = ViewState::genesis(([8; 32], 4));
    assert_eq!(state.prevote_ghost, at);
    assert_eq!(state.finalized, at);
    assert_eq!(state.estimate, at);
    assert!(state.completable);
}

#[test]
fn without_a_vote_everything_can_be_cast() {
    let no = HasVoted::No;
    assert!(no.can_pre_prepare() && no.can_prepare() && no.can_commit());
    assert_eq!(no.pre_prepare(), None);
}

#[test]
fn a_proposal_leaves_the_rest() {
    let vote = HasVoted::Yes([0; 32], Vote::PrePrepare(PRE));
    assert_eq!(vote.pre_prepare(), Some(&PRE));
    assert!(!vote.can_pre_prepare() && vote.can_prepare() && vote.can_commit());
}

#[test]
fn a_prepare_may_come_without_a_proposal() {
    let vote = HasVoted::Yes([0; 32], Vote::Prepare(None, PREP));
    assert_eq!(vote.pre_prepare(), None);
    assert_eq!(vote.prepare(), Some(&PREP));
    assert!(vote.can_pre_prepare() && !vote.can_prepare() && vote.can_commit());
}

#[test]
fn a_commit_implies_a_prepare() {
    let vote = HasVoted::Yes([0; 32], Vote::Commit(Some(PRE), PREP, COM));
    assert_eq!(vote.pre_prepare(), Some(&PRE));
    assert_eq!(vote.prepare(), Some(&PREP));
    assert_eq!(vote.commit(), Some(&COM));
    assert!(!vote.can_pre_prepare() && !vote.can_prepare() && !vote.can_commit());
}
