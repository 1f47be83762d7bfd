use finality_pbft::authorities::AuthoritySet;
use finality_pbft::error::Error;
use finality_pbft::messages::Prepare;
use finality_pbft::voter_set_state::{SharedVoterSetState, VoterSetState};
use finality_pbft::votes::{HasVoted, Vote};
use std::collections::BTreeMap;

fn set() -> AuthoritySet {
    AuthoritySet::genesis(vec![[1; 32]]).unwrap()
}

fn live() -> VoterSetState {
    VoterSetState::live(4, &set(), ([6; 32], 10))
}

fn vote() -> HasVoted {
    HasVoted::Yes([1; 32], Vote::Prepare(None, Prepare { target_hash: [2; 32], target_number: 3 }))
}

#[test]
fn live_starts_with_view_one() {
    let state = live();
    assert_eq!(state.last_completed_view().number, 0);
    assert_eq!(state.last_completed_view().base, ([6; 32], 10));
    let completed = state.completed_views();
    assert_eq!(completed.set_info(), (4, &[[1u8; 32]][..]));
    let (_, current) = state.with_current_view(1).unwrap();
    assert_eq!(current.len(), 1);
    assert_eq!(current.get(&1), Some(&HasVoted::No));
}

#[test]
fn untracked_view_is_a_safety_error() {
    assert_eq!(
        live().with_current_view(2).err(),
        Some(Error::Safety("Voter acting on a live view we are not tracking.".to_string())),
    );
}

#[test]
fn paused_state_is_a_safety_error() {
    let paused = VoterSetState::Paused { completed_views: live().completed_views() };
    assert_eq!(
        paused.with_current_view(1).err(),
        Some(Error::Safety("Voter acting while in paused state.".to_string())),
    );
    assert_eq!(paused.last_completed_view(), live().last_completed_view());
}

#[test]
fn states_read_back() {
    let mut current = BTreeMap::new();
    current.insert(5, HasVoted::No);
    current.insert(2, vote());
    let states = [
        live(),
        VoterSetState::Live { completed_views: live().completed_views(), current_views: current },
        VoterSetState::Paused { completed_views: live().completed_views() },
    ];
    for state in states {
        let bytes = state.encode();
        assert_eq!(VoterSetState::decode(&bytes).ok(), Some(state));
        assert_eq!(VoterSetState::decode(&bytes[..bytes.len() - 1]).ok(), None);
    }
    assert_eq!(VoterSetState::decode(&[2]).ok(), None);
}

#[test]
fn current_views_are_written_in_order_of_their_number() {
    let mut current = BTreeMap::new();
    current.insert(5, HasVoted::No);
    current.insert(2, HasVoted::No);
    let completed_views = live().completed_views();
    let head = finality_pbft::scale::encode(&completed_views);
    let bytes = VoterSetState::Live { completed_views, current_views: current }.encode();
    assert_eq!(bytes[0], 0);
    assert_eq!(&bytes[1..head.len() + 1], &head[..]);
    let map = [8, 2, 0, 0, 0, 0, 0, 0, 0, 0, 5, 0, 0, 0, 0, 0, 0, 0, 0];
    assert_eq!(&bytes[head.len() + 1..], &map[..]);
}

#[test]
fn voting_is_tracked() {
    let mut shared = SharedVoterSetState::new(live());
    assert_eq!(shared.voting_on(1), None);
    shared.started_voting_on(1, [3; 32]);
    shared.started_voting_on(2, [4; 32]);
    assert_eq!(shared.voting_on(1), Some([3; 32]));
    shared.finished_voting_on(1);
    assert_eq!(shared.voting_on(1), None);
    assert_eq!(shared.voting_on(2), Some([4; 32]));
    assert_eq!(shared.read(), &live());
}

#[test]
fn vote_of_a_live_view() {
    let mut current = BTreeMap::new();
    current.insert(1, vote());
    let state =
        VoterSetState::Live { completed_views: live().completed_views(), current_views: current };
    let shared = SharedVoterSetState::new(state);
    assert_eq!(shared.has_voted(1), vote());
    assert_eq!(shared.has_voted(2), HasVoted::No);
    let paused = VoterSetState::Paused { completed_views: live().completed_views() };
    assert_eq!(SharedVoterSetState::new(paused).has_voted(1), HasVoted::No);
}

#[test]
fn update_sets_the_state_on_success_only() {
    let mut shared = SharedVoterSetState::new(live());
    let nothing = |_: &VoterSetState| -> Result<Option<VoterSetState>, Error> { Ok(None) };
    assert_eq!(shared.update_voter_set_state(nothing), Ok(None));
    let fails = |_: &VoterSetState| -> Result<Option<VoterSetState>, Error> {
        Err(Error::Signing("no".to_string()))
    };
    assert_eq!(
        shared.update_voter_set_state(fails),
        Err(Error::Signing("no".to_string())),
    );
    assert_eq!(shared.read(), &live());
    let keeps = |state: &VoterSetState| -> Result<Option<VoterSetState>, Error> {
        Ok(Some(VoterSetState::Live {
            completed_views: state.completed_views(),
            current_views: BTreeMap::new(),
        }))
    };
    assert_eq!(shared.update_voter_set_state(keeps), Ok(Some(0)));
    let pauses = |state: &VoterSetState| -> Result<Option<VoterSetState>, Error> {
        Ok(Some(VoterSetState::Paused { completed_views: state.completed_views() }))
    };
    assert_eq!(shared.update_voter_set_state(pauses), Ok(None));
    assert!(matches!(shared.read(), VoterSetState::Paused { .. }));
}

#[test]
fn states_are_shared_with_no_view_voted_on() {
    let shared = SharedVoterSetState::from(live());
    assert_eq!(shared.read(), &live());
    assert_eq!(shared.voting_on(1), None);
    let shared: SharedVoterSetState = live().into();
    assert_eq!(shared.read(), &live());
}

#[test]
fn failures_inside_states_name_the_fields() {
    let mut current = BTreeMap::new();
    current.insert(2, vote());
    let state =
        VoterSetState::Live { completed_views: live().completed_views(), current_views: current };
    let bytes = state.encode();
    assert_eq!(
        VoterSetState::decode(&bytes[..bytes.len() - 1]),
        Err("Could not decode `VoterSetState::Live::current_views`:\n\
            \tCould not decode `HasVoted::Yes.1`:\n\
            \t\tCould not decode `Vote::Prepare.1`:\n\
            \t\t\tCould not decode `Prepare::target_number`:\n\
            \t\t\t\tNot enough data to fill buffer\n"
            .to_string()),
    );
    assert_eq!(
        VoterSetState::decode(&bytes[..3]),
        Err("Could not decode `VoterSetState::Live::completed_views`:\n\
            \tCould not decode `CompletedView::number`:\n\
            \t\tNot enough data to fill buffer\n"
            .to_string()),
    );
}
