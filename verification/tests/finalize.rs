use finality_pbft::authorities::AuthoritySet;
use finality_pbft::aux_schema::PersistentData;
use finality_pbft::config::Config;
use finality_pbft::environment::Environment;
use finality_pbft::error::{ClientError, CommandOrError, Error, NewAuthoritySet, VoterCommand};
use finality_pbft::finalize::{
    finalize_block, justification_required, new_authority_set, persisted_justification,
    ChangeStatus, ClientForPbft, FinalizedCommit, JustificationOrCommit, PbftJustification,
};
use finality_pbft::voter_set_state::{SharedVoterSetState, VoterSetState};
use std::cell::RefCell;

/// The steps that were done in an operation.
#[derive(Debug, PartialEq)]
struct Operation(Vec<String>);

/// A client that fails at one step, and notes the operations that are committed.
struct Client {
    finalized: u64,
    status: ChangeStatus,
    fails_at: &'static str,
    log: RefCell<Vec<String>>,
}

fn client() -> Client {
    Client {
        finalized: 5,
        status: ChangeStatus { changed: false, new_set_block: None },
        fails_at: "",
        log: RefCell::new(Vec::new()),
    }
}

impl Client {
    fn step(&self, op: Operation, name: &str, what: String) -> Result<Operation, ClientError> {
        if self.fails_at == name {
            return Err(ClientError::Other(name.to_string()));
        }
        let mut op = op;
        op.0.push(what);
        Ok(op)
    }
}

impl ClientForPbft for Client {
    type Operation = Operation;

    fn finalized_number(&self) -> u64 {
        self.finalized
    }

    fn hash(&self, number: u64) -> Result<Option<[u8; 32]>, ClientError> {
        if self.fails_at == "hash" {
            return Err(ClientError::Other("hash".to_string()));
        }
        Ok(Some([number as u8; 32]))
    }

    fn apply_standard_changes(
        &self,
        op: Operation,
        set: AuthoritySet,
        hash: [u8; 32],
        number: u64,
        initial_sync: bool,
    ) -> Result<(Operation, AuthoritySet, ChangeStatus), String> {
        if self.fails_at == "changes" {
            return Err("unfinalized ancestor".to_string());
        }
        let mut op = op;
        op.0.push(format!("changes {} {} {}", hash[0], number, initial_sync));
        let mut set = set;
        set.set_id += 1;
        set.current_authorities = vec![[9; 32]];
        Ok((op, set, self.status))
    }

    fn from_commit(&self, view: u64, commit: FinalizedCommit) -> Result<PbftJustification, Error> {
        if self.fails_at == "commit" {
            return Err(Error::Pbft("bad commit".to_string()));
        }
        Ok(PbftJustification { encoded: vec![view as u8, commit.target_number as u8] })
    }

    fn notify_justification(&self, op: Operation, justification: &PbftJustification) -> Operation {
        let mut op = op;
        op.0.push(format!("notify {:?}", justification.encoded));
        op
    }

    fn apply_finality(
        &self,
        op: Operation,
        hash: [u8; 32],
        persisted: Option<([u8; 4], Vec<u8>)>,
    ) -> Result<Operation, ClientError> {
        self.step(op, "finality", format!("finality {} {:?}", hash[0], persisted))
    }

    fn update_best_justification(
        &self,
        op: Operation,
        best: &PbftJustification,
    ) -> Result<Operation, ClientError> {
        self.step(op, "best", format!("best {:?}", best.encoded))
    }

    fn update_authority_set(
        &self,
        op: Operation,
        set: &AuthoritySet,
        new: &Option<NewAuthoritySet>,
    ) -> Result<Operation, ClientError> {
        self.step(op, "set", format!("set {} {}", set.set_id, new.is_some()))
    }

    fn commit(&self, op: Operation) -> Result<(), ClientError> {
        let op = self.step(op, "end", "end".to_string())?;
        self.log.borrow_mut().extend(op.0);
        Ok(())
    }
}

fn begin() -> Operation {
    Operation(Vec::new())
}

fn set() -> AuthoritySet {
    AuthoritySet::genesis(vec![[1; 32]]).unwrap()
}

fn commit() -> JustificationOrCommit {
    let commit = FinalizedCommit { target_hash: [6; 32], target_number: 6, commits: Vec::new() };
    JustificationOrCommit::from((2u64, commit))
}

fn given() -> JustificationOrCommit {
    JustificationOrCommit::from(PbftJustification { encoded: vec![7, 7] })
}

fn run(
    client: &Client,
    set: &mut AuthoritySet,
    input: JustificationOrCommit,
) -> Result<(), CommandOrError> {
    finalize_block(client, begin(), set, Some(4), [6; 32], 6, input, true).0
}

#[test]
fn period_of_justifications() {
    // another period is reached
    assert!(justification_required(false, Some(8), 16, 15));
    assert!(justification_required(false, Some(8), 30, 7));
    // the period stays the same
    assert!(!justification_required(false, Some(8), 23, 16));
    // from genesis on only the first block of the second period counts
    assert!(justification_required(false, Some(8), 8, 0));
    assert!(!justification_required(false, Some(8), 9, 0));
    assert!(!justification_required(false, None, 16, 15));
    assert!(justification_required(true, None, 1, 0));
    assert!(justification_required(true, Some(0), 1, 0));
}

#[test]
fn persisted_under_the_engine_id() {
    let justification = PbftJustification { encoded: vec![1, 2] };
    assert_eq!(persisted_justification(true, &justification), Some((*b"PBFT", vec![1, 2])));
    assert_eq!(persisted_justification(false, &justification), None);
}

#[test]
fn new_set_is_the_current_one() {
    let mut set = set();
    set.set_id = 8;
    assert_eq!(new_authority_set(None, &set), None);
    let new = new_authority_set(Some(([4; 32], 4)), &set).unwrap();
    assert_eq!((new.canon_hash, new.canon_number), ([4; 32], 4));
    assert_eq!((new.set_id, new.authorities), (8, vec![[1; 32]]));
}

#[test]
fn finalizes_without_a_change() {
    let client = client();
    let mut set = set();
    assert_eq!(run(&client, &mut set, commit()), Ok(()));
    assert_eq!(set.set_id, 1);
    assert_eq!(
        *client.log.borrow(),
        vec!["changes 6 6 true", "notify [2, 6]", "finality 6 None", "best [2, 6]", "end"],
    );
}

#[test]
fn given_justification_is_stored() {
    let client = client();
    let mut set = set();
    assert_eq!(run(&client, &mut set, given()), Ok(()));
    assert_eq!(client.log.borrow()[2], "finality 6 Some(([80, 66, 70, 84], [7, 7]))");
}

#[test]
fn period_stores_a_justification() {
    let client = Client { finalized: 3, ..client() };
    assert_eq!(run(&client, &mut set(), commit()), Ok(()));
    assert_eq!(client.log.borrow()[2], "finality 6 Some(([80, 66, 70, 84], [2, 6]))");
}

#[test]
fn new_set_is_announced() {
    let status = ChangeStatus { changed: true, new_set_block: Some(([4; 32], 4)) };
    let client = Client { status, ..client() };
    let mut set = set();
    let new = NewAuthoritySet {
        canon_number: 4,
        canon_hash: [4; 32],
        set_id: 1,
        authorities: vec![[9; 32]],
    };
    assert_eq!(
        run(&client, &mut set, commit()),
        Err(CommandOrError::VoterCommand(VoterCommand::ChangeAuthorities(new))),
    );
    assert_eq!(set.current(), (1, &[[9u8; 32]][..]));
    assert_eq!(client.log.borrow()[2], "finality 6 Some(([80, 66, 70, 84], [2, 6]))");
    assert_eq!(client.log.borrow()[4], "set 1 true");
}

#[test]
fn change_without_a_new_set_is_stored() {
    let status = ChangeStatus { changed: true, new_set_block: None };
    let client = Client { status, ..client() };
    assert_eq!(run(&client, &mut set(), commit()), Ok(()));
    assert_eq!(client.log.borrow()[4], "set 1 false");
}

#[test]
fn finalized_block_is_left_as_it_is() {
    let client = Client { finalized: 6, ..client() };
    let mut set = set();
    let r = finalize_block(&client, begin(), &mut set, Some(4), [6; 32], 6, commit(), true);
    assert_eq!(r, (Ok(()), Some(begin())));
    assert_eq!(set.set_id, 0);
    assert!(client.log.borrow().is_empty());
}

#[test]
fn block_of_another_fork_is_not() {
    let client = Client { finalized: 6, ..client() };
    let mut set = set();
    let r = finalize_block(&client, begin(), &mut set, None, [60; 32], 6, commit(), false);
    assert_eq!(r, (Ok(()), None));
    assert_eq!(client.log.borrow()[0], "changes 60 6 false");
}

#[test]
fn failures_keep_the_set() {
    let status = ChangeStatus { changed: true, new_set_block: Some(([4; 32], 4)) };
    for fails_at in ["finality", "best", "set", "end"] {
        let client = Client { status, fails_at, ..client() };
        let mut set = set();
        assert_eq!(
            run(&client, &mut set, commit()),
            Err(CommandOrError::Error(Error::Client(ClientError::Other(fails_at.to_string())))),
        );
        assert_eq!(set.current(), (0, &[[1u8; 32]][..]));
        assert!(client.log.borrow().is_empty());
    }
}

#[test]
fn failures_before_finality() {
    let mut set = set();
    let client = Client { fails_at: "changes", ..client() };
    assert_eq!(
        run(&client, &mut set, commit()),
        Err(CommandOrError::Error(Error::Safety("unfinalized ancestor".to_string()))),
    );
    let client = Client { fails_at: "commit", ..client };
    let (r, uncommitted) =
        finalize_block(&client, begin(), &mut set, Some(4), [6; 32], 6, commit(), true);
    assert_eq!(r, Err(CommandOrError::Error(Error::Pbft("bad commit".to_string()))));
    assert_eq!(uncommitted, Some(Operation(vec!["changes 6 6 true".to_string()])));
    let client = Client { fails_at: "hash", finalized: 6, ..client };
    assert_eq!(
        run(&client, &mut set, commit()),
        Err(CommandOrError::Error(Error::Client(ClientError::Other("hash".to_string())))),
    );
    assert_eq!(set.set_id, 0);
    assert!(client.log.borrow().is_empty());
}

#[test]
fn period_of_zero_where_it_does_not_matter() {
    let status = ChangeStatus { changed: true, new_set_block: Some(([4; 32], 4)) };
    let taken_over = Client { status, ..client() };
    let r = finalize_block(&taken_over, begin(), &mut set(), Some(0), [6; 32], 6, commit(), true);
    assert!(matches!(r.0, Err(CommandOrError::VoterCommand(_))));
    let fresh = Client { finalized: 0, ..client() };
    let r = finalize_block(&fresh, begin(), &mut set(), Some(0), [6; 32], 6, commit(), true);
    assert_eq!(r, (Ok(()), None));
    assert_eq!(fresh.log.borrow()[2], "finality 6 None");
    let given = finalize_block(&client(), begin(), &mut set(), Some(0), [6; 32], 6, given(), true);
    assert_eq!(given, (Ok(()), None));
}

#[test]
fn environment_finalizes_with_its_period() {
    let state = VoterSetState::live(0, &set(), ([0; 32], 0));
    let data =
        PersistentData { authority_set: set(), set_state: SharedVoterSetState::new(state) };
    let config =
        Config { name: None, justification_period: 6, protocol_name: "/pbft/1".to_string() };
    let mut env = Environment::new(data, config);
    let client = client();
    let commit = FinalizedCommit { target_hash: [6; 32], target_number: 6, commits: Vec::new() };
    let r = env.finalize_block(&client, begin(), 2, [6; 32], 6, commit);
    assert_eq!(r, (Ok(()), None));
    assert_eq!(env.authority_set.set_id, 1);
    assert!(!env.may_propose());
    assert_eq!(client.log.borrow()[0], "changes 6 6 false");
    assert_eq!(client.log.borrow()[2], "finality 6 Some(([80, 66, 70, 84], [2, 6]))");
}
