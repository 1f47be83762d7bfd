//! Schema for stuff in the aux-db.
use crate::authorities::{genesis_set, AuthoritySet, AuthoritySetView};
use crate::decimal::{append_decimal, decimal_chars};
use crate::error::ClientError;
use crate::messages::{AuthorityId, AuthorityList, BlockHash, BlockNumber};
use crate::scale::{
    begins, decode, decode_u32, encode, law_read_back, le_bytes, lemma_le4, lemma_u32_unique, Codec,
    TOO_SHORT,
};
use crate::voter_set_state::{
    law_live_state, law_state_read_back, lemma_live_record, live_state, record_bytes, record_error,
    record_fits, record_of, state_of, RecordView, SharedVoterSetState, SharedVoterSetStateView,
    VoterSetState, VoterSetStateView,
};
use crate::votes::ViewState;
use vstd::prelude::*;
use vstd::string::StringExecFns;

verus! {

/// Where the version of the schema is kept.
pub const VERSION_KEY: &'static str = "pbft_schema_version";

/// Where the voter set state is kept.
pub const SET_STATE_KEY: &'static str = "pbft_completed_round";

/// Where the authority set is kept.
pub const AUTHORITY_SET_KEY: &'static str = "pbft_voters";

/// The version of the schema.
pub const CURRENT_VERSION: u32 = 3;

/// What a read of the database gives.
pub type AuxRead = Result<Option<Vec<u8>>, ClientError>;

/// A value to be written under a key.
#[derive(Debug)]
pub struct AuxWrite {
    /// The key.
    pub key: &'static str,
    /// The value.
    pub value: Vec<u8>,
}

/// The error for a value that cannot be read, with the reason.
pub open spec fn corrupted_by(e: ClientError, reason: Seq<char>) -> bool {
    e matches ClientError::Backend(m) && m@ == "GRANDPA DB is corrupted: "@ + reason
}

/// The error for a schema that is not known.
pub open spec fn unsupported(e: ClientError, version: u32) -> bool {
    e matches ClientError::Backend(m) && m@ == "Unsupported GRANDPA DB version: "@ + decimal_chars(
        version as nat,
    )
}

fn corrupted_error(reason: &str) -> (r: ClientError)
    ensures
        corrupted_by(r, reason@),
{
    let mut message = "GRANDPA DB is corrupted: ".to_string();
    message.append(reason);
    ClientError::Backend(message)
}

/// Decodes what was read under a key, if anything was.
pub fn load_decode<T: Codec>(read: Option<Vec<u8>>) -> (r: Result<Option<T>, ClientError>)
    ensures
        match read {
            None => r matches Ok(None),
            Some(bytes) => match r {
                Ok(Some(x)) => T::fits(x.value()) && begins(bytes@, T::bytes(x.value())),
                Ok(None) => false,
                Err(e) => {
                    &&& forall|v: T::Value|
                        T::fits(v) ==> !begins(bytes@, #[trigger] T::bytes(v))
                    &&& corrupted_by(e, T::error(bytes@))
                },
            },
        },
{
    match read {
        None => Ok(None),
        Some(bytes) => match decode::<T>(bytes.as_slice()) {
            Ok(x) => Ok(Some(x)),
            Err(e) => Err(corrupted_error(e.as_str())),
        },
    }
}

/// Decodes the version of the schema, if there is one.
pub fn load_version(read: Option<Vec<u8>>) -> (r: Result<Option<u32>, ClientError>)
    ensures
        match read {
            None => r matches Ok(None),
            Some(bytes) => if bytes@.len() >= 4 {
                r matches Ok(Some(version)) && begins(bytes@, le_bytes(version as nat, 4))
            } else {
                r matches Err(e) && corrupted_by(e, TOO_SHORT@)
            },
        },
{
    match read {
        None => Ok(None),
        Some(bytes) => match decode_u32(bytes.as_slice()) {
            Ok(version) => Ok(Some(version)),
            Err(e) => Err(corrupted_error(e.as_str())),
        },
    }
}

/// Decodes the voter set state, if there is one.
pub fn load_set_state(read: Option<Vec<u8>>) -> (r: Result<Option<VoterSetState>, ClientError>)
    ensures
        match read {
            None => r matches Ok(None),
            Some(bytes) => match r {
                Ok(Some(state)) => is_state_of(bytes@, state@),
                Ok(None) => false,
                Err(e) => no_state(bytes@) && corrupted_by(e, record_error(bytes@)),
            },
        },
{
    match read {
        None => Ok(None),
        Some(bytes) => match VoterSetState::decode(bytes.as_slice()) {
            Ok(state) => Ok(Some(state)),
            Err(e) => Err(corrupted_error(e.as_str())),
        },
    }
}

/// `bytes` begins with an encoding that is read as `state`.
pub open spec fn is_state_of(bytes: Seq<u8>, state: VoterSetStateView) -> bool {
    exists|record: RecordView|
        {
            &&& record_fits(record)
            &&& begins(bytes, #[trigger] record_bytes(record))
            &&& state == state_of(record)
        }
}

/// `bytes` begins with no encoding of a state.
pub open spec fn no_state(bytes: Seq<u8>) -> bool {
    forall|record: RecordView|
        record_fits(record) ==> !begins(bytes, #[trigger] record_bytes(record))
}

/// Persistent data kept between runs.
#[derive(Debug)]
pub struct PersistentData {
    /// The authority set.
    pub authority_set: AuthoritySet,
    /// The voter set state.
    pub set_state: SharedVoterSetState,
}

/// What is known between runs.
pub struct PersistentDataView {
    /// The authority set.
    pub authority_set: AuthoritySetView,
    /// The voter set state, and the views that are voted on.
    pub set_state: SharedVoterSetStateView,
}

impl View for PersistentData {
    type V = PersistentDataView;

    open spec fn view(&self) -> PersistentDataView {
        PersistentDataView { authority_set: self.authority_set@, set_state: self.set_state@ }
    }
}

/// No authority set can be read from `bytes`.
pub open spec fn no_set(bytes: Seq<u8>) -> bool {
    forall|set: AuthoritySetView|
        AuthoritySet::fits(set) ==> !begins(bytes, #[trigger] AuthoritySet::bytes(set))
}

/// What goes with a stored authority set: the state that was stored, or else the state in which
/// the set starts at the genesis block.
pub fn stored_persistent(
    authority_set: AuthoritySet,
    state: Option<Vec<u8>>,
    genesis: (BlockHash, BlockNumber),
) -> (r: Result<PersistentData, ClientError>)
    ensures
        stored(authority_set@, state, genesis, r),
{
    let set_state = match load_set_state(state) {
        Ok(Some(state)) => state,
        Ok(None) => {
            let base = genesis_base(genesis);
            VoterSetState::live(authority_set.set_id, &authority_set, base)
        },
        Err(e) => {
            return Err(e);
        },
    };
    Ok(PersistentData { authority_set, set_state: SharedVoterSetState::from(set_state) })
}

/// The block that voting starts from: what a view at genesis has as its prevote ghost.
fn genesis_base(genesis: (BlockHash, BlockNumber)) -> (r: (BlockHash, BlockNumber))
    ensures
        r == genesis,
{
    let state = ViewState::genesis(genesis);
    match state.prevote_ghost {
        Some(base) => base,
        None => genesis,
    }
}

/// The outcome `r` of reading what goes with a stored authority set.
pub open spec fn stored(
    authority_set: AuthoritySetView,
    state: Option<Vec<u8>>,
    genesis: (BlockHash, BlockNumber),
    r: Result<PersistentData, ClientError>,
) -> bool {
    match r {
        Ok(data) => {
            &&& data.authority_set@ == authority_set
            &&& data.set_state@.voting == Map::<u64, AuthorityId>::empty()
            &&& match state {
                Some(bytes) => is_state_of(bytes@, data.set_state@.state),
                None => data.set_state@.state == live_state(
                    authority_set.set_id,
                    authority_set.current_authorities,
                    genesis,
                ),
            }
        },
        Err(e) => state matches Some(bytes) && no_state(bytes@) && corrupted_by(
            e,
            record_error(bytes@),
        ),
    }
}

/// What is written at the first start: the genesis set and the state in which it starts.
pub open spec fn first_writes(
    writes: Seq<AuxWrite>,
    authorities: Seq<AuthorityId>,
    genesis: (BlockHash, BlockNumber),
) -> bool {
    &&& writes.len() == 2
    &&& writes[0].key@ == AUTHORITY_SET_KEY@
    &&& writes[0].value@ == AuthoritySet::bytes(genesis_set(authorities))
    &&& writes[1].key@ == SET_STATE_KEY@
    &&& writes[1].value@ == record_bytes(record_of(live_state(0, authorities, genesis)))
}

/// What is held after the first start.
pub open spec fn first_data(
    data: PersistentData,
    authorities: Seq<AuthorityId>,
    genesis: (BlockHash, BlockNumber),
) -> bool {
    &&& data.authority_set@ == genesis_set(authorities)
    &&& data.set_state@ == SharedVoterSetStateView {
        state: live_state(0, authorities, genesis),
        voting: Map::empty(),
    }
}

/// What to write and to hold at the first start with the given authorities.
pub fn first_persistent(authorities: AuthorityList, genesis: (BlockHash, BlockNumber)) -> (r: (
    Vec<AuxWrite>,
    PersistentData,
))
    requires
        0 < authorities@.len() <= u32::MAX,
    ensures
        first_writes(r.0@, authorities@, genesis),
        first_data(r.1, authorities@, genesis),
{
    let ghost ids = authorities@;
    let genesis_set = AuthoritySet::genesis(authorities).unwrap();
    let base = genesis_base(genesis);
    let genesis_state = VoterSetState::live(0, &genesis_set, base);
    proof {
        lemma_live_record(0, ids, genesis);
    }
    let mut writes: Vec<AuxWrite> = Vec::new();
    writes.push(AuxWrite { key: AUTHORITY_SET_KEY, value: encode(&genesis_set) });
    writes.push(AuxWrite { key: SET_STATE_KEY, value: genesis_state.encode() });
    (
        writes,
        PersistentData {
            authority_set: genesis_set,
            set_state: SharedVoterSetState::from(genesis_state),
        },
    )
}

/// The schema is known: it has the current version, or none was noted.
pub open spec fn known_version(version: Option<Vec<u8>>) -> bool {
    match version {
        Some(bytes) => bytes@.len() >= 4 && begins(
            bytes@,
            le_bytes(CURRENT_VERSION as nat, 4),
        ),
        None => true,
    }
}

/// The outcome `r` of reading what is kept, with a schema that is known: what goes with the
/// authority set that is stored, or nothing if none is.
pub open spec fn set_loaded<R: Fn(&'static str) -> AuxRead>(
    read: R,
    genesis: (BlockHash, BlockNumber),
    r: Result<Option<PersistentData>, ClientError>,
) -> bool {
    exists|set: AuxRead|
        {
            &&& #[trigger] call_ensures(read, (AUTHORITY_SET_KEY,), set)
            &&& match set {
                Err(e) => r == Err::<Option<PersistentData>, ClientError>(e),
                Ok(None) => r matches Ok(None),
                Ok(Some(bytes)) => {
                    ||| no_set(bytes@) && (r matches Err(e) && corrupted_by(
                        e,
                        AuthoritySet::error(bytes@),
                    ))
                    ||| exists|authority_set: AuthoritySetView, state: AuxRead|
                        {
                            &&& AuthoritySet::fits(authority_set)
                            &&& begins(bytes@, #[trigger] AuthoritySet::bytes(authority_set))
                            &&& #[trigger] call_ensures(read, (SET_STATE_KEY,), state)
                            &&& match (state, r) {
                                (Err(e), _) => r == Err::<Option<PersistentData>, ClientError>(e),
                                (Ok(state), Ok(Some(data))) => stored(
                                    authority_set,
                                    state,
                                    genesis,
                                    Ok(data),
                                ),
                                (Ok(state), Ok(None)) => false,
                                (Ok(state), Err(e)) => stored(
                                    authority_set,
                                    state,
                                    genesis,
                                    Err(e),
                                ),
                            }
                        }
                },
            }
        }
}

/// The outcome `r` of reading what is kept. A schema that is not known is an error.
pub open spec fn kept<R: Fn(&'static str) -> AuxRead>(
    read: R,
    genesis: (BlockHash, BlockNumber),
    r: Result<Option<PersistentData>, ClientError>,
) -> bool {
    exists|version: AuxRead|
        {
            &&& #[trigger] call_ensures(read, (VERSION_KEY,), version)
            &&& match version {
                Err(e) => r == Err::<Option<PersistentData>, ClientError>(e),
                Ok(version) => if known_version(version) {
                    set_loaded(read, genesis, r)
                } else {
                    &&& version matches Some(bytes)
                    &&& if bytes@.len() < 4 {
                        r matches Err(e) && corrupted_by(e, TOO_SHORT@)
                    } else {
                        exists|other: u32|
                            begins(bytes@, #[trigger] le_bytes(other as nat, 4)) && (r matches Err(
                                e,
                            ) && unsupported(e, other))
                    }
                },
            }
        }
}

/// The schema may be known and no authority set stored, by what the database answers.
pub open spec fn starts_anew<R: Fn(&'static str) -> AuxRead>(read: R) -> bool {
    exists|version: AuxRead, set: AuxRead|
        {
            &&& #[trigger] call_ensures(read, (VERSION_KEY,), version)
            &&& #[trigger] call_ensures(read, (AUTHORITY_SET_KEY,), set)
            &&& version matches Ok(version) && known_version(version)
            &&& set matches Ok(None)
        }
}

/// Reads what is kept in the database, which `read` reads: nothing if no authority set is stored.
pub fn load_kept<R: Fn(&'static str) -> AuxRead>(
    read: &R,
    genesis: (BlockHash, BlockNumber),
) -> (r: Result<Option<PersistentData>, ClientError>)
    requires
        forall|key: &'static str| call_requires(*read, (key,)),
    ensures
        kept(*read, genesis, r),
        r matches Ok(None) ==> starts_anew(*read),
{
    let version = match read(VERSION_KEY) {
        Ok(version) => version,
        Err(e) => {
            return Err(e);
        },
    };
    let ghost answer = version;
    match load_version(version) {
        Ok(Some(version)) => {
            if version != CURRENT_VERSION {
                let mut message = "Unsupported GRANDPA DB version: ".to_string();
                append_decimal(&mut message, version as u64);
                proof {
                    lemma_u32_unique(version, CURRENT_VERSION);
                }
                return Err(ClientError::Backend(message));
            }
        },
        Ok(None) => {},
        Err(e) => {
            return Err(e);
        },
    }
    assert(known_version(answer));
    let set = match read(AUTHORITY_SET_KEY) {
        Ok(read) => match load_decode::<AuthoritySet>(read) {
            Ok(set) => set,
            Err(e) => {
                return Err(e);
            },
        },
        Err(e) => {
            return Err(e);
        },
    };
    let set = match set {
        Some(set) => set,
        None => {
            return Ok(None);
        },
    };
    let state = match read(SET_STATE_KEY) {
        Ok(state) => state,
        Err(e) => {
            return Err(e);
        },
    };
    match stored_persistent(set, state, genesis) {
        Ok(data) => Ok(Some(data)),
        Err(e) => Err(e),
    }
}

/// The outcome `r` of loading: what is kept, with nothing to write, or else a first start, for
/// which the authorities are asked for, and the genesis set and state are held and are to be
/// written.
pub open spec fn loaded<
    R: Fn(&'static str) -> AuxRead,
    G: FnOnce() -> Result<AuthorityList, ClientError>,
>(
    read: R,
    genesis: (BlockHash, BlockNumber),
    genesis_authorities: G,
    r: Result<(PersistentData, Option<Vec<AuxWrite>>), ClientError>,
) -> bool {
    exists|found: Result<Option<PersistentData>, ClientError>| #[trigger]
        kept(read, genesis, found) && (match found {
            Err(e) => r == Err::<(PersistentData, Option<Vec<AuxWrite>>), ClientError>(e),
            Ok(Some(data)) => r == Ok::<(PersistentData, Option<Vec<AuxWrite>>), ClientError>(
                (data, None),
            ),
            Ok(None) => exists|answer: Result<AuthorityList, ClientError>| #[trigger]
                call_ensures(genesis_authorities, (), answer) && (match answer {
                    Err(e) => r == Err::<(PersistentData, Option<Vec<AuxWrite>>), ClientError>(e),
                    Ok(authorities) => {
                        &&& r matches Ok((data, Some(writes)))
                        &&& first_data(data, authorities@, genesis)
                        &&& first_writes(writes@, authorities@, genesis)
                    },
                }),
        })
}

/// Load or initialize persistent data from the database, which `read` reads. Also gives what is
/// to be written, which is something at a first start only. The authorities at genesis can be
/// asked for only where the database may hold no authority set.
pub fn load_persistent<
    R: Fn(&'static str) -> AuxRead,
    G: FnOnce() -> Result<AuthorityList, ClientError>,
>(
    read: R,
    genesis_hash: BlockHash,
    genesis_number: BlockNumber,
    genesis_authorities: G,
) -> (r: Result<(PersistentData, Option<Vec<AuxWrite>>), ClientError>)
    requires
        forall|key: &'static str| call_requires(read, (key,)),
        starts_anew(read) ==> call_requires(genesis_authorities, ()),
        forall|authorities: AuthorityList|
            call_ensures(genesis_authorities, (), Ok(authorities)) ==> 0 < authorities@.len()
                <= u32::MAX,
    ensures
        loaded(read, (genesis_hash, genesis_number), genesis_authorities, r),
{
    let genesis = (genesis_hash, genesis_number);
    let found = load_kept(&read, genesis);
    assert(kept(read, genesis, found));
    match found {
        Err(e) => Err(e),
        Ok(Some(data)) => Ok((data, None)),
        Ok(None) => match genesis_authorities() {
            Err(e) => Err(e),
            Ok(authorities) => {
                let (writes, data) = first_persistent(authorities, genesis);
                Ok((data, Some(writes)))
            },
        },
    }
}

/// What to write to keep the voter set state.
pub fn write_voter_set_state(state: &VoterSetState) -> (r: AuxWrite)
    requires
        record_fits(record_of(state@)),
    ensures
        r.key@ == SET_STATE_KEY@,
        r.value@ == record_bytes(record_of(state@)),
{
    AuxWrite { key: SET_STATE_KEY, value: state.encode() }
}

/// From the encodings of an authority set and of a voter set state nothing else can be read than
/// that set and that state.
pub proof fn law_restart_restores(set: AuthoritySetView, state: VoterSetStateView)
    requires
        AuthoritySet::fits(set),
        record_fits(record_of(state)),
        state matches VoterSetStateView::Live { current, .. } ==> current.dom().finite(),
    ensures
        !no_set(AuthoritySet::bytes(set)),
        forall|read: AuthoritySetView|
            AuthoritySet::fits(read) && begins(
                AuthoritySet::bytes(set),
                #[trigger] AuthoritySet::bytes(read),
            ) ==> read == set,
        !no_state(record_bytes(record_of(state))),
        forall|read: VoterSetStateView| #[trigger]
            is_state_of(record_bytes(record_of(state)), read) ==> read == state,
{
    let (b, none) = (AuthoritySet::bytes(set), Seq::<u8>::empty());
    assert(b + none =~= b);
    law_read_back::<AuthoritySet>(set, none, set);
    assert forall|read: AuthoritySetView|
        AuthoritySet::fits(read) && begins(b, #[trigger] AuthoritySet::bytes(read)) implies read
        == set by {
        law_read_back::<AuthoritySet>(set, none, read);
    }
    let c = record_bytes(record_of(state));
    assert(c + none =~= c);
    law_state_read_back(state, none, record_of(state));
    assert forall|read: VoterSetStateView| #[trigger] is_state_of(c, read) implies read
        == state by {
        let record = choose|record: RecordView|
            {
                &&& record_fits(record)
                &&& begins(c, #[trigger] record_bytes(record))
                &&& read == state_of(record)
            };
        law_state_read_back(state, none, record);
    }
}

/// The database answers a read of the key with the bytes.
pub open spec fn answers_with<R: Fn(&'static str) -> AuxRead>(
    read: R,
    key: &'static str,
    bytes: Seq<u8>,
) -> bool {
    forall|answer: AuxRead| #[trigger]
        call_ensures(read, (key,), answer) ==> (answer matches Ok(Some(found)) && found@ == bytes)
}

/// The database notes no version of the schema, or the current one.
pub open spec fn answers_known_version<R: Fn(&'static str) -> AuxRead>(read: R) -> bool {
    forall|answer: AuxRead| #[trigger]
        call_ensures(read, (VERSION_KEY,), answer) ==> (answer matches Ok(version)
            && known_version(version))
}

/// Loading from a database gives back the authority set and the voter set state that were
/// written to it, whatever the genesis block and its authorities, and nothing is to be written.
pub proof fn law_load_gives_back<
    R: Fn(&'static str) -> AuxRead,
    G: FnOnce() -> Result<AuthorityList, ClientError>,
>(
    read: R,
    genesis: (BlockHash, BlockNumber),
    genesis_authorities: G,
    set: AuthoritySetView,
    state: VoterSetStateView,
    r: Result<(PersistentData, Option<Vec<AuxWrite>>), ClientError>,
)
    requires
        loaded(read, genesis, genesis_authorities, r),
        AuthoritySet::fits(set),
        record_fits(record_of(state)),
        state matches VoterSetStateView::Live { current, .. } ==> current.dom().finite(),
        answers_known_version(read),
        answers_with(read, AUTHORITY_SET_KEY, AuthoritySet::bytes(set)),
        answers_with(read, SET_STATE_KEY, record_bytes(record_of(state))),
    ensures
        r matches Ok((data, writes)) && data.authority_set@ == set && data.set_state@.state
            == state && data.set_state@.voting.dom() == Set::<u64>::empty() && writes is None,
{
    law_restart_restores(set, state);
}

/// What the first start writes is what a later run loads: the genesis set, and the state in
/// which it starts. It is not written again.
pub proof fn law_first_start_is_kept<
    R: Fn(&'static str) -> AuxRead,
    G: FnOnce() -> Result<AuthorityList, ClientError>,
>(
    writes: Seq<AuxWrite>,
    authorities: Seq<AuthorityId>,
    genesis: (BlockHash, BlockNumber),
    read: R,
    later_genesis: (BlockHash, BlockNumber),
    later_authorities: G,
    r: Result<(PersistentData, Option<Vec<AuxWrite>>), ClientError>,
)
    requires
        first_writes(writes, authorities, genesis),
        authorities.len() <= u32::MAX,
        answers_known_version(read),
        answers_with(read, AUTHORITY_SET_KEY, writes[0].value@),
        answers_with(read, SET_STATE_KEY, writes[1].value@),
        loaded(read, later_genesis, later_authorities, r),
    ensures
        r matches Ok((data, again)) && first_data(data, authorities, genesis) && again is None,
{
    let (set, state) = (genesis_set(authorities), live_state(0, authorities, genesis));
    lemma_live_record(0, authorities, genesis);
    assert(AuthoritySet::fits(set));
    law_load_gives_back(read, later_genesis, later_authorities, set, state, r);
}



/// Every answer of the database for the key is `answer`, by what a value holds.
pub open spec fn answers_only<R: Fn(&'static str) -> AuxRead>(
    read: R,
    key: &'static str,
    answer: Result<Option<Seq<u8>>, ClientError>,
) -> bool {
    forall|found: AuxRead| #[trigger]
        call_ensures(read, (key,), found) ==> (match found {
            Ok(Some(bytes)) => answer == Ok::<Option<Seq<u8>>, ClientError>(Some(bytes@)),
            Ok(None) => answer == Ok::<Option<Seq<u8>>, ClientError>(None),
            Err(e) => answer == Err::<Option<Seq<u8>>, ClientError>(e),
        })
}

/// No version of the schema is noted, or its four bytes are those of the current one.
pub open spec fn is_current(version: Option<Seq<u8>>) -> bool {
    version matches Some(bytes) ==> bytes.len() >= 4 && bytes.subrange(0, 4) == le_bytes(
        CURRENT_VERSION as nat,
        4,
    )
}

proof fn lemma_version_len()
    ensures
        le_bytes(CURRENT_VERSION as nat, 4).len() == 4,
{
    lemma_le4(CURRENT_VERSION);
}

proof fn lemma_current(bytes: Vec<u8>)
    ensures
        known_version(Some(bytes)) <==> is_current(Some(bytes@)),
        known_version(None) && is_current(None),
{
    lemma_version_len();
}

/// On a database without an authority set, and without a version of the schema or with the current
/// one, the authorities at genesis are asked for, and their failure is that of loading. They make
/// up the set, with id 0 and without changes, and the voter is live on top of the genesis block,
/// with no view voted on. Both are to be written, as they are held, each under its key.
pub proof fn law_first_start<
    R: Fn(&'static str) -> AuxRead,
    G: FnOnce() -> Result<AuthorityList, ClientError>,
>(
    read: R,
    genesis: (BlockHash, BlockNumber),
    genesis_authorities: G,
    version: Option<Seq<u8>>,
    authorities: Result<Seq<AuthorityId>, ClientError>,
    r: Result<(PersistentData, Option<Vec<AuxWrite>>), ClientError>,
)
    requires
        call_ensures(
            load_persistent::<R, G>,
            (read, genesis.0, genesis.1, genesis_authorities),
            r,
        ),
        answers_only(read, VERSION_KEY, Ok(version)),
        is_current(version),
        answers_only(read, AUTHORITY_SET_KEY, Ok(None)),
        forall|answer: Result<AuthorityList, ClientError>| #[trigger]
            call_ensures(genesis_authorities, (), answer) ==> (match answer {
                Ok(list) => authorities == Ok::<Seq<AuthorityId>, ClientError>(list@),
                Err(e) => authorities == Err::<Seq<AuthorityId>, ClientError>(e),
            }),
    ensures
        match authorities {
            Err(e) => r == Err::<(PersistentData, Option<Vec<AuxWrite>>), ClientError>(e),
            Ok(ids) => {
                &&& r matches Ok((data, Some(writes)))
                &&& data.authority_set@.current_authorities == ids
                &&& data.authority_set@.set_id == 0
                &&& data.authority_set@.pending_standard_changes.roots.len() == 0
                &&& data.authority_set@.pending_standard_changes.best is None
                &&& data.authority_set@.pending_forced_changes.len() == 0
                &&& data.authority_set@.authority_set_changes.len() == 0
                &&& data.set_state@.voting.dom() == Set::<u64>::empty()
                &&& is_live_at(data.set_state@.state, 0, ids, genesis)
                &&& writes@.len() == 2
                &&& writes@[0].key@ == AUTHORITY_SET_KEY@
                &&& writes@[0].value@ == AuthoritySet::bytes(data.authority_set@)
                &&& writes@[1].key@ == SET_STATE_KEY@
                &&& writes@[1].value@ == record_bytes(record_of(data.set_state@.state))
            },
        },
{
    lemma_versions();
    if let Ok(ids) = authorities {
        law_live_state(0, ids, genesis);
    }
}

proof fn lemma_versions()
    ensures
        forall|bytes: Vec<u8>| #[trigger]
            known_version(Some(bytes)) <==> is_current(Some(bytes@)),
        known_version(None) && is_current(None),
{
    assert forall|bytes: Vec<u8>| #[trigger] known_version(Some(bytes)) <==> is_current(
        Some(bytes@),
    ) by {
        lemma_current(bytes);
    }
}

/// The voter is live in the set, on top of the block: view 0 is completed, with no votes and with
/// everything at the block, and view 1 runs with no vote cast.
pub open spec fn is_live_at(
    state: VoterSetStateView,
    set_id: u64,
    voters: Seq<AuthorityId>,
    block: (BlockHash, BlockNumber),
) -> bool {
    &&& state matches VoterSetStateView::Live { completed, current }
    &&& completed.set_id == set_id
    &&& completed.voters == voters
    &&& completed.views.len() == 1
    &&& completed.views[0].number == 0
    &&& completed.views[0].base == block
    &&& completed.views[0].votes.len() == 0
    &&& completed.views[0].state.prevote_ghost == Some(block)
    &&& completed.views[0].state.finalized == Some(block)
    &&& completed.views[0].state.estimate == Some(block)
    &&& completed.views[0].state.completable
    &&& forall|view: u64| #[trigger] current.contains_key(view) <==> view == 1
    &&& current[1] is No
}

/// A database with an authority set but no voter set state gives the set, and the voter is live in
/// it on top of the genesis block. Nothing is to be written.
pub proof fn law_set_without_state<
    R: Fn(&'static str) -> AuxRead,
    G: FnOnce() -> Result<AuthorityList, ClientError>,
>(
    read: R,
    genesis: (BlockHash, BlockNumber),
    genesis_authorities: G,
    version: Option<Seq<u8>>,
    set: AuthoritySetView,
    behind: Seq<u8>,
    r: Result<(PersistentData, Option<Vec<AuxWrite>>), ClientError>,
)
    requires
        call_ensures(
            load_persistent::<R, G>,
            (read, genesis.0, genesis.1, genesis_authorities),
            r,
        ),
        answers_only(read, VERSION_KEY, Ok(version)),
        is_current(version),
        AuthoritySet::fits(set),
        answers_only(read, AUTHORITY_SET_KEY, Ok(Some(AuthoritySet::bytes(set) + behind))),
        answers_only(read, SET_STATE_KEY, Ok(None)),
    ensures
        r matches Ok((data, writes)) && {
            &&& writes is None
            &&& data.authority_set@ == set
            &&& data.set_state@.voting.dom() == Set::<u64>::empty()
            &&& is_live_at(data.set_state@.state, set.set_id, set.current_authorities, genesis)
        },
{
    lemma_versions();
    lemma_only_this_set(set, behind);
    law_live_state(set.set_id, set.current_authorities, genesis);
}

proof fn lemma_only_this_set(set: AuthoritySetView, behind: Seq<u8>)
    requires
        AuthoritySet::fits(set),
    ensures
        begins(AuthoritySet::bytes(set) + behind, AuthoritySet::bytes(set)),
        !no_set(AuthoritySet::bytes(set) + behind),
        forall|other: AuthoritySetView|
            AuthoritySet::fits(other) && begins(
                AuthoritySet::bytes(set) + behind,
                #[trigger] AuthoritySet::bytes(other),
            ) ==> other == set,
{
    law_read_back::<AuthoritySet>(set, behind, set);
    assert forall|other: AuthoritySetView|
        AuthoritySet::fits(other) && begins(
            AuthoritySet::bytes(set) + behind,
            #[trigger] AuthoritySet::bytes(other),
        ) implies other == set by {
        law_read_back::<AuthoritySet>(set, behind, other);
    }
}

/// What is kept is given back, whatever stands behind it in the database, with no view voted on,
/// and nothing is to be written.
pub proof fn law_kept_is_loaded<
    R: Fn(&'static str) -> AuxRead,
    G: FnOnce() -> Result<AuthorityList, ClientError>,
>(
    read: R,
    genesis: (BlockHash, BlockNumber),
    genesis_authorities: G,
    version: Option<Seq<u8>>,
    set: AuthoritySetView,
    state: VoterSetStateView,
    behind: (Seq<u8>, Seq<u8>),
    r: Result<(PersistentData, Option<Vec<AuxWrite>>), ClientError>,
)
    requires
        call_ensures(
            load_persistent::<R, G>,
            (read, genesis.0, genesis.1, genesis_authorities),
            r,
        ),
        answers_only(read, VERSION_KEY, Ok(version)),
        is_current(version),
        AuthoritySet::fits(set),
        record_fits(record_of(state)),
        state matches VoterSetStateView::Live { current, .. } ==> current.dom().finite(),
        answers_only(read, AUTHORITY_SET_KEY, Ok(Some(AuthoritySet::bytes(set) + behind.0))),
        answers_only(
            read,
            SET_STATE_KEY,
            Ok(Some(record_bytes(record_of(state)) + behind.1)),
        ),
    ensures
        r matches Ok((data, writes)) && {
            &&& writes is None
            &&& data.authority_set@ == set
            &&& data.set_state@.state == state
            &&& data.set_state@.voting.dom() == Set::<u64>::empty()
        },
{
    lemma_versions();
    lemma_only_this_set(set, behind.0);
    lemma_only_this_state(state, behind.1);
}

proof fn lemma_only_this_state(state: VoterSetStateView, behind: Seq<u8>)
    requires
        record_fits(record_of(state)),
        state matches VoterSetStateView::Live { current, .. } ==> current.dom().finite(),
    ensures
        !no_state(record_bytes(record_of(state)) + behind),
        forall|other: VoterSetStateView| #[trigger]
            is_state_of(record_bytes(record_of(state)) + behind, other) ==> other == state,
{
    let c = record_bytes(record_of(state)) + behind;
    law_state_read_back(state, behind, record_of(state));
    assert forall|other: VoterSetStateView| #[trigger] is_state_of(c, other) implies other
        == state by {
        let record = choose|record: RecordView|
            {
                &&& record_fits(record)
                &&& begins(c, #[trigger] record_bytes(record))
                &&& other == state_of(record)
            };
        law_state_read_back(state, behind, record);
    }
}

/// What cannot be loaded gives an error: that of the database if it fails to read the version, the
/// set or the state; one that names the version if that is another; and one that names what could
/// not be read if what is there is no version, no set or no state.
pub proof fn law_load_fails<
    R: Fn(&'static str) -> AuxRead,
    G: FnOnce() -> Result<AuthorityList, ClientError>,
>(
    read: R,
    genesis: (BlockHash, BlockNumber),
    genesis_authorities: G,
    version: Result<Option<Seq<u8>>, ClientError>,
    set: Result<Option<Seq<u8>>, ClientError>,
    state: Result<Option<Seq<u8>>, ClientError>,
    other: u32,
    r: Result<(PersistentData, Option<Vec<AuxWrite>>), ClientError>,
)
    requires
        call_ensures(
            load_persistent::<R, G>,
            (read, genesis.0, genesis.1, genesis_authorities),
            r,
        ),
        answers_only(read, VERSION_KEY, version),
        answers_only(read, AUTHORITY_SET_KEY, set),
        answers_only(read, SET_STATE_KEY, state),
    ensures
        version matches Err(e) ==> r == Err::<
            (PersistentData, Option<Vec<AuxWrite>>),
            ClientError,
        >(e),
        version matches Ok(Some(bytes)) ==> {
            &&& bytes.len() < 4 ==> (r matches Err(ClientError::Backend(m)) && m@
                == "GRANDPA DB is corrupted: "@ + TOO_SHORT@)
            &&& bytes.len() >= 4 && bytes.subrange(0, 4) == le_bytes(other as nat, 4) && other
                != CURRENT_VERSION ==> (r matches Err(ClientError::Backend(m)) && m@
                == "Unsupported GRANDPA DB version: "@ + decimal_chars(other as nat))
        },
        version matches Ok(noted) && is_current(noted) && set is Err ==> r == Err::<
            (PersistentData, Option<Vec<AuxWrite>>),
            ClientError,
        >(set->Err_0),
        version matches Ok(noted) && is_current(noted) && (set matches Ok(Some(bytes)) && no_set(
            bytes,
        )) ==> (r matches Err(ClientError::Backend(m)) && m@ == "GRANDPA DB is corrupted: "@
            + AuthoritySet::error((set->Ok_0)->Some_0)),
        version matches Ok(noted) && is_current(noted) && (set matches Ok(Some(bytes)) && !no_set(
            bytes,
        )) && state is Err ==> r == Err::<
            (PersistentData, Option<Vec<AuxWrite>>),
            ClientError,
        >(state->Err_0),
        version matches Ok(noted) && is_current(noted) && (set matches Ok(Some(bytes)) && !no_set(
            bytes,
        )) && (state matches Ok(Some(found)) && no_state(found)) ==> (r matches Err(
            ClientError::Backend(m),
        ) && m@ == "GRANDPA DB is corrupted: "@ + record_error((state->Ok_0)->Some_0)),
{
    lemma_versions();
    lemma_version_len();
    lemma_le4(other);
    lemma_u32_unique(other, CURRENT_VERSION);
    assert forall|found: u32|
        (version matches Ok(Some(bytes)) && begins(bytes, #[trigger] le_bytes(found as nat, 4))
            && begins(bytes, le_bytes(other as nat, 4))) implies found == other by {
        lemma_u32_unique(found, other);
    }
    lemma_set_read();
}

proof fn lemma_set_read()
    ensures
        forall|bytes: Seq<u8>, set: AuthoritySetView|
            AuthoritySet::fits(set) && begins(bytes, #[trigger] AuthoritySet::bytes(set))
                ==> !#[trigger] no_set(bytes),
        forall|bytes: Seq<u8>, state: VoterSetStateView| #[trigger]
            is_state_of(bytes, state) ==> !no_state(bytes),
{
}

/// What was encoded is what is decoded out of the database, and nothing is if nothing is there.
pub proof fn law_stored_value_is_decoded<T: Codec>(
    written: T::Value,
    behind: Seq<u8>,
    read: Option<Vec<u8>>,
    r: Result<Option<T>, ClientError>,
)
    requires
        call_ensures(load_decode::<T>, (read,), r),
        T::fits(written),
    ensures
        read is None ==> r matches Ok(None),
        read matches Some(bytes) && bytes@ == T::bytes(written) + behind ==> (r matches Ok(Some(x))
            && x.value() == written),
        read matches Some(bytes) && (forall|v: T::Value|
            T::fits(v) ==> !begins(bytes@, #[trigger] T::bytes(v))) ==> (r matches Err(
            ClientError::Backend(m),
        ) && m@ == "GRANDPA DB is corrupted: "@ + T::error((read->0)@)),
{
    law_read_back::<T>(written, behind, written);
    if let Ok(Some(x)) = r {
        law_read_back::<T>(written, behind, x.value());
    }
}

/// What is written to keep a state is, read again, that state.
pub proof fn law_written_state_is_loaded(
    state: VoterSetState,
    out: AuxWrite,
    read: Option<Vec<u8>>,
    r: Result<Option<VoterSetState>, ClientError>,
)
    requires
        record_fits(record_of(state@)),
        state@ matches VoterSetStateView::Live { current, .. } ==> current.dom().finite(),
        call_ensures(write_voter_set_state, (&state,), out),
        read matches Some(bytes) ==> bytes@ == out.value@,
        call_ensures(load_set_state, (read,), r),
    ensures
        out.key@ == SET_STATE_KEY@,
        read is Some ==> (r matches Ok(Some(loaded)) && loaded@ == state@),
        read is None ==> r matches Ok(None),
{
    assert(out.value@ + Seq::<u8>::empty() =~= out.value@);
    lemma_only_this_state(state@, Seq::empty());
}

/// What goes with a set that is stored: the state that was stored, or else the voter live in the
/// set on top of the genesis block; and an error that names what could not be read if what is
/// there is no state.
pub proof fn law_state_goes_with_the_set(
    set: AuthoritySet,
    state: Option<Vec<u8>>,
    genesis: (BlockHash, BlockNumber),
    kept: VoterSetStateView,
    behind: Seq<u8>,
    r: Result<PersistentData, ClientError>,
)
    requires
        call_ensures(stored_persistent, (set, state, genesis), r),
        record_fits(record_of(kept)),
        kept matches VoterSetStateView::Live { current, .. } ==> current.dom().finite(),
    ensures
        r matches Ok(data) ==> data.authority_set@ == set@ && data.set_state@.voting.dom()
            == Set::<u64>::empty(),
        state is None ==> (r matches Ok(data) && is_live_at(
            data.set_state@.state,
            set@.set_id,
            set@.current_authorities,
            genesis,
        )),
        state matches Some(bytes) && bytes@ == record_bytes(record_of(kept)) + behind ==> (
        r matches Ok(data) && data.set_state@.state == kept),
        state matches Some(bytes) && no_state(bytes@) ==> (r matches Err(ClientError::Backend(m))
            && m@ == "GRANDPA DB is corrupted: "@ + record_error((state->0)@)),
{
    lemma_only_this_state(kept, behind);
    law_live_state(set@.set_id, set@.current_authorities, genesis);
}

pub(crate) proof fn lemma_first_load<
    R: Fn(&'static str) -> AuxRead,
    G: FnOnce() -> Result<AuthorityList, ClientError>,
>(
    read: R,
    genesis: (BlockHash, BlockNumber),
    genesis_authorities: G,
    authorities: Result<Seq<AuthorityId>, ClientError>,
    r: Result<(PersistentData, Option<Vec<AuxWrite>>), ClientError>,
)
    requires
        loaded(read, genesis, genesis_authorities, r),
        answers_only(read, VERSION_KEY, Ok(None)),
        answers_only(read, AUTHORITY_SET_KEY, Ok(None)),
        forall|answer: Result<AuthorityList, ClientError>| #[trigger]
            call_ensures(genesis_authorities, (), answer) ==> (match answer {
                Ok(list) => authorities == Ok::<Seq<AuthorityId>, ClientError>(list@),
                Err(e) => authorities == Err::<Seq<AuthorityId>, ClientError>(e),
            }),
    ensures
        match authorities {
            Err(e) => r == Err::<(PersistentData, Option<Vec<AuxWrite>>), ClientError>(e),
            Ok(ids) => {
                &&& r matches Ok((data, Some(writes)))
                &&& first_data(data, ids, genesis)
                &&& first_writes(writes@, ids, genesis)
            },
        },
{
    lemma_versions();
}

pub(crate) proof fn lemma_read_fails<
    R: Fn(&'static str) -> AuxRead,
    G: FnOnce() -> Result<AuthorityList, ClientError>,
>(
    read: R,
    genesis: (BlockHash, BlockNumber),
    genesis_authorities: G,
    e: ClientError,
    r: Result<(PersistentData, Option<Vec<AuxWrite>>), ClientError>,
)
    requires
        loaded(read, genesis, genesis_authorities, r),
        answers_only(read, VERSION_KEY, Err(e)),
    ensures
        r == Err::<(PersistentData, Option<Vec<AuxWrite>>), ClientError>(e),
{
}

} // verus!
