use finality_pbft::authorities::AuthoritySet;
use finality_pbft::aux_schema::{AuxWrite, PersistentData, SET_STATE_KEY};
use finality_pbft::config::Config;
use finality_pbft::environment::{Environment, VoterPlan};
use finality_pbft::error::{ClientError, Error, NewAuthoritySet, VoterCommand};
use finality_pbft::messages::Prepare;
use finality_pbft::topics::{global_topic, view_topic};
use finality_pbft::voter_set_state::{SharedVoterSetState, VoterSetState};
use finality_pbft::voters::voter_list;
use finality_pbft::votes::{HasVoted, Vote};
use std::cell::RefCell;
use std::collections::BTreeMap;

fn config() -> Config {
    Config { name: None, justification_period: 8, protocol_name: "/pbft/1".to_string() }
}

fn vote() -> HasVoted {
    HasVoted::Yes([2; 32], Vote::Prepare(None, Prepare { target_hash: [7; 32], target_number: 3 }))
}

/// Voters 1, 2 and 3 in set 5, with a vote of voter 2 in view 4.
fn environment() -> Environment {
    let mut set = AuthoritySet::genesis(vec![[3; 32], [2; 32], [1; 32]]).unwrap();
    set.set_id = 5;
    let live = VoterSetState::live(5, &set, ([7; 32], 0));
    let mut current = BTreeMap::new();
    current.insert(4, vote());
    let state =
        VoterSetState::Live { completed_views: live.completed_views(), current_views: current };
    let set_state = SharedVoterSetState::new(state);
    Environment::new(PersistentData { authority_set: set, set_state }, config())
}

#[test]
fn environment_of_persistent_data() {
    let env = environment();
    assert_eq!(voter_list(&env.voters), vec![[1; 32], [2; 32], [3; 32]]);
    assert_eq!(env.set_id, 5);
    assert!(env.may_propose());
}

#[test]
fn round_takes_up_our_own_vote() {
    let mut env = environment();
    let round = env.round_data(4, Some(|id: &[u8; 32]| id[0] >= 2));
    assert_eq!(round.voter_id, Some([2; 32]));
    assert_eq!(round.has_voted, vote());
    assert_eq!(round.communication.topic, view_topic(4, 5));
    assert_eq!(round.communication.outgoing.signer, Some([2; 32]));
    assert_eq!(round.communication.outgoing.has_voted, vote());
    assert_eq!(env.voter_set_state.voting_on(4), Some([2; 32]));
}

#[test]
fn round_drops_the_vote_of_another_key() {
    let mut env = environment();
    let round = env.round_data(4, Some(|id: &[u8; 32]| id[0] == 3));
    assert_eq!(round.voter_id, Some([3; 32]));
    assert_eq!(round.has_voted, HasVoted::No);
    let mut env = environment();
    let round = env.round_data(4, Some(|_: &[u8; 32]| false));
    assert_eq!(round.voter_id, None);
    assert_eq!(round.has_voted, HasVoted::No);
    assert_eq!(round.communication.outgoing.signer, None);
    assert_eq!(env.voter_set_state.voting_on(4), None);
}

#[test]
fn nothing_is_proposed_behind_the_set() {
    let mut env = environment();
    env.authority_set.set_id = 6;
    assert!(!env.may_propose());
}

fn change() -> VoterCommand {
    VoterCommand::ChangeAuthorities(NewAuthoritySet {
        canon_number: 12,
        canon_hash: [12; 32],
        set_id: 6,
        authorities: vec![[8; 32], [4; 32]],
    })
}

#[test]
fn change_starts_the_new_set() {
    let mut env = environment();
    env.authority_set.set_id = 6;
    env.authority_set.current_authorities = vec![[8; 32], [4; 32]];
    let written = RefCell::new(Vec::new());
    let write = |out: AuxWrite| -> Result<(), ClientError> {
        written.borrow_mut().push(out);
        Ok(())
    };
    assert_eq!(env.handle_voter_command(change(), write), Ok(Some(0)));
    let state = VoterSetState::live(6, &env.authority_set, ([12; 32], 12));
    assert_eq!(env.voter_set_state.read(), &state);
    assert_eq!(env.set_id, 6);
    assert!(env.may_propose());
    assert_eq!(voter_list(&env.voters), vec![[4; 32], [8; 32]]);
    let written = written.into_inner();
    assert_eq!(written.len(), 1);
    assert_eq!(written[0].key, SET_STATE_KEY);
    assert_eq!(written[0].value, state.encode());
}

#[test]
fn pause_keeps_the_completed_views() {
    let mut env = environment();
    let completed = env.voter_set_state.read().completed_views();
    let pause = VoterCommand::Pause("test".to_string());
    assert_eq!(env.handle_voter_command(pause, |_: AuxWrite| Ok(())), Ok(None));
    assert_eq!(
        env.voter_set_state.read(),
        &VoterSetState::Paused { completed_views: completed },
    );
    assert_eq!(env.set_id, 5);
    assert!(matches!(env.rebuild_voter(([1; 32], 1), Some(|_: &[u8; 32]| true)), VoterPlan::Pending));
}

#[test]
fn failed_write_changes_nothing() {
    let mut env = environment();
    let failure = || ClientError::Backend("full".to_string());
    assert_eq!(
        env.handle_voter_command(change(), |_: AuxWrite| Err(failure())),
        Err(Error::Client(failure())),
    );
    assert_eq!(env.set_id, 5);
    assert_eq!(voter_list(&env.voters).len(), 3);
    assert_eq!(env.voter_set_state.has_voted(4), vote());
}

#[test]
fn voter_runs_on_the_last_completed_view() {
    let env = environment();
    match env.rebuild_voter(([9; 32], 9), Some(|id: &[u8; 32]| id[0] == 3)) {
        VoterPlan::Run { global, last_completed, last_finalized } => {
            assert_eq!(global.voters, vec![[1; 32], [2; 32], [3; 32]]);
            assert_eq!(global.topic, global_topic(5));
            assert!(global.outgoing.start_send(1, Vec::new()).is_some());
            assert_eq!(last_completed.number, 0);
            assert_eq!(last_completed.base, ([7; 32], 0));
            assert_eq!(last_finalized, ([9; 32], 9));
        },
        VoterPlan::Pending => panic!("the voter is live"),
    }
}
