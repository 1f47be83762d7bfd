use finality_pbft::authorities::AuthoritySet;
use finality_pbft::aux_schema::{
    first_persistent, load_decode, load_kept, load_persistent, load_set_state, load_version,
    stored_persistent, write_voter_set_state, AuxRead, AuxWrite, AUTHORITY_SET_KEY,
    CURRENT_VERSION, SET_STATE_KEY, VERSION_KEY,
};
use finality_pbft::error::ClientError;
use finality_pbft::scale::encode;
use finality_pbft::voter_set_state::VoterSetState;
use std::cell::RefCell;
use std::collections::HashMap;

type Db = RefCell<HashMap<&'static str, Vec<u8>>>;

fn write(db: &Db, writes: Vec<AuxWrite>) -> Result<(), ClientError> {
    for write in writes {
        db.borrow_mut().insert(write.key, write.value);
    }
    Ok(())
}

/// Starts on the database; what is to be written is written.
fn load(db: &Db, ids: Vec<[u8; 32]>) -> Result<(AuthoritySet, VoterSetState), ClientError> {
    let read = |key: &'static str| -> AuxRead { Ok(db.borrow().get(key).cloned()) };
    let (data, writes) = load_persistent(read, [7; 32], 0, || Ok(ids))?;
    if let Some(writes) = writes {
        write(db, writes)?;
    }
    let state = VoterSetState::decode(&data.set_state.read().encode()).unwrap();
    Ok((data.authority_set, state))
}

fn live(set: &AuthoritySet) -> VoterSetState {
    VoterSetState::live(set.set_id, set, ([7; 32], 0))
}

#[test]
fn first_start_writes_the_genesis_set() {
    let db = Db::default();
    let (set, state) = load(&db, vec![[1; 32]]).unwrap();
    assert_eq!(set.current(), (0, &[[1u8; 32]][..]));
    assert_eq!(state, live(&set));
    let db = db.into_inner();
    assert_eq!(db.len(), 2);
    assert_eq!(db[AUTHORITY_SET_KEY], encode(&set));
    assert_eq!(db[SET_STATE_KEY], live(&set).encode());
    assert_eq!((AUTHORITY_SET_KEY, SET_STATE_KEY), ("pbft_voters", "pbft_completed_round"));
    assert_eq!((VERSION_KEY, CURRENT_VERSION), ("pbft_schema_version", 3));
}

#[test]
fn restart_restores_what_was_kept() {
    let db = Db::default();
    load(&db, vec![[1; 32]]).unwrap();
    let (first, state) = load(&db, vec![[9; 32]]).unwrap();
    assert_eq!(first.current(), (0, &[[1u8; 32]][..]));
    assert_eq!(state, live(&first));
    let mut set = AuthoritySet::genesis(vec![[5; 32], [6; 32]]).unwrap();
    set.set_id = 2;
    let paused = VoterSetState::Paused { completed_views: live(&set).completed_views() };
    db.borrow_mut().insert(AUTHORITY_SET_KEY, encode(&set));
    write(&db, vec![write_voter_set_state(&paused)]).unwrap();
    for version in [None, Some(vec![3, 0, 0, 0])] {
        if let Some(version) = version {
            db.borrow_mut().insert(VERSION_KEY, version);
        }
        let (read, state) = load(&db, vec![[9; 32]]).unwrap();
        assert_eq!(encode(&read), encode(&set));
        assert_eq!(state, paused);
    }
}

#[test]
fn set_without_a_state_starts_at_genesis() {
    let db = Db::default();
    let mut set = AuthoritySet::genesis(vec![[5; 32]]).unwrap();
    set.set_id = 2;
    db.borrow_mut().insert(VERSION_KEY, vec![3, 0, 0, 0]);
    db.borrow_mut().insert(AUTHORITY_SET_KEY, encode(&set));
    let (read, state) = load(&db, vec![[9; 32]]).unwrap();
    assert_eq!(encode(&read), encode(&set));
    assert_eq!(state, live(&set));
}

#[test]
fn current_version_without_a_set_is_a_first_start() {
    let db = Db::default();
    db.borrow_mut().insert(VERSION_KEY, vec![3, 0, 0, 0]);
    let (set, _) = load(&db, vec![[9; 32]]).unwrap();
    assert_eq!(set.current(), (0, &[[9u8; 32]][..]));
}

#[test]
fn other_versions_are_refused() {
    let db = Db::default();
    db.borrow_mut().insert(VERSION_KEY, vec![2, 1, 0, 0]);
    assert_eq!(
        load(&db, vec![[9; 32]]).err(),
        Some(ClientError::Backend("Unsupported GRANDPA DB version: 258".to_string())),
    );
}

#[test]
fn what_cannot_be_read_is_corrupted() {
    let corrupted = |reason: &str| {
        Some(ClientError::Backend(format!("GRANDPA DB is corrupted: {}", reason)))
    };
    let short = "Not enough data to fill buffer";
    let db = Db::default();
    db.borrow_mut().insert(VERSION_KEY, vec![3, 0, 0]);
    assert_eq!(load(&db, vec![[9; 32]]).err(), corrupted(short));
    db.borrow_mut().insert(VERSION_KEY, vec![3, 0, 0, 0]);
    db.borrow_mut().insert(AUTHORITY_SET_KEY, vec![4]);
    let reason = "Could not decode `AuthoritySet::current_authorities`:\n\
        \tCould not decode `Public.0`:\n\
        \t\tCould not decode `Public.0`:\n\
        \t\t\tNot enough data to fill buffer\n";
    assert_eq!(load(&db, vec![[9; 32]]).err(), corrupted(reason));
    let set = AuthoritySet::genesis(vec![[5; 32]]).unwrap();
    db.borrow_mut().insert(AUTHORITY_SET_KEY, encode(&set));
    db.borrow_mut().insert(SET_STATE_KEY, vec![9]);
    let reason = "Could not decode `VoterSetState`, variant doesn't exist";
    assert_eq!(load(&db, vec![[9; 32]]).err(), corrupted(reason));
    db.borrow_mut().insert(SET_STATE_KEY, Vec::new());
    let reason = "Could not decode `VoterSetState`, failed to read variant byte:\n\
        \tNot enough data to fill buffer\n";
    assert_eq!(load(&db, vec![[9; 32]]).err(), corrupted(reason));
    db.borrow_mut().insert(SET_STATE_KEY, vec![1]);
    let reason = "Could not decode `VoterSetState::Paused::completed_views`:\n\
        \tNot enough data to fill buffer\n";
    assert_eq!(load(&db, vec![[9; 32]]).err(), corrupted(reason));
}

#[test]
fn values_are_decoded_if_they_are_there() {
    assert_eq!(load_decode::<u64>(None), Ok(None));
    assert_eq!(load_decode::<u64>(Some(vec![9, 0, 0, 0, 0, 0, 0, 0])), Ok(Some(9)));
    assert!(load_decode::<u64>(Some(vec![9])).is_err());
    assert_eq!(load_version(None), Ok(None));
    assert_eq!(load_version(Some(vec![2, 1, 0, 0])), Ok(Some(258)));
    assert!(load_version(Some(Vec::new())).is_err());
    let state = live(&AuthoritySet::genesis(vec![[5; 32]]).unwrap());
    assert_eq!(load_set_state(None), Ok(None));
    assert_eq!(load_set_state(Some(state.encode())), Ok(Some(state)));
    assert!(load_set_state(Some(Vec::new())).is_err());
}

#[test]
fn what_is_stored_goes_with_the_set() {
    let set = AuthoritySet::genesis(vec![[5; 32]]).unwrap();
    let (writes, first) = first_persistent(vec![[5; 32]], ([7; 32], 0));
    assert_eq!(writes.len(), 2);
    assert_eq!((writes[0].key, &writes[0].value), (AUTHORITY_SET_KEY, &encode(&set)));
    assert_eq!((writes[1].key, &writes[1].value), (SET_STATE_KEY, &live(&set).encode()));
    assert_eq!(first.set_state.read(), &live(&set));
    let paused = VoterSetState::Paused { completed_views: live(&set).completed_views() };
    let stored = stored_persistent(set.clone(), Some(paused.encode()), ([7; 32], 0)).unwrap();
    assert_eq!(stored.set_state.read(), &paused);
    let stored = stored_persistent(set.clone(), None, ([7; 32], 0)).unwrap();
    assert_eq!(stored.set_state.read(), &live(&set));
    assert!(stored_persistent(set, Some(vec![7]), ([7; 32], 0)).is_err());
}

#[test]
fn failures_of_the_client_are_handed_on() {
    let failure = || ClientError::Other("gone".to_string());
    let read = |_: &'static str| -> AuxRead { Err(failure()) };
    let r = load_persistent(read, [7; 32], 0, || Ok(vec![[1; 32]]));
    assert_eq!(r.err(), Some(failure()));
    let empty = |_: &'static str| -> AuxRead { Ok(None) };
    let r = load_persistent(empty, [7; 32], 0, || Err(failure()));
    assert_eq!(r.err(), Some(failure()));
}

#[test]
fn what_is_kept_is_loaded_without_writing_or_asking() {
    let db = Db::default();
    load(&db, vec![[1; 32]]).unwrap();
    let read = |key: &'static str| -> AuxRead { Ok(db.borrow().get(key).cloned()) };
    let never = || -> Result<Vec<[u8; 32]>, ClientError> { panic!("nothing is asked") };
    let (data, writes) = load_persistent(read, [8; 32], 5, never).unwrap();
    assert!(writes.is_none());
    assert_eq!(data.authority_set.current(), (0, &[[1u8; 32]][..]));
    let kept = load_kept(&read, ([8; 32], 5)).unwrap().unwrap();
    assert_eq!(encode(&kept.authority_set), encode(&data.authority_set));
    db.borrow_mut().insert(VERSION_KEY, vec![2, 0, 0, 0]);
    assert_eq!(
        load_persistent(read, [8; 32], 5, never).err(),
        Some(ClientError::Backend("Unsupported GRANDPA DB version: 2".to_string())),
    );
    let empty = |_: &'static str| -> AuxRead { Ok(None) };
    assert!(load_kept(&empty, ([8; 32], 5)).unwrap().is_none());
}
