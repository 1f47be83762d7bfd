//! What can go wrong while voting, and what the voter is told to do.
use crate::messages::{AuthorityList, BlockHash, BlockNumber, SetId};
use vstd::prelude::*;

verus! {

/// Errors of the blockchain client.
#[derive(Debug, PartialEq, Eq)]
pub enum ClientError {
    /// Something is wrong in the database.
    Backend(String),
    /// The result of a runtime call could not be read: what it was, and why not.
    CallResultDecode(String, String),
    /// Any other failure.
    Other(String),
}

/// Errors that can occur while voting in PBFT.
#[derive(Debug, PartialEq, Eq)]
pub enum Error {
    /// An error within pbft.
    Pbft(String),
    /// A network error.
    Network(String),
    /// A blockchain error.
    Blockchain(String),
    /// Could not complete a round on disk.
    Client(ClientError),
    /// Could not sign outgoing message
    Signing(String),
    /// An invariant has been violated (e.g. not finalizing pending change blocks in-order)
    Safety(String),
    /// A timer failed to fire.
    Timer(String),
    /// A runtime api request failed.
    RuntimeApi(String),
}

impl From<ClientError> for Error {
    fn from(e: ClientError) -> (r: Self) {
        Error::Client(e)
    }
}

impl vstd::std_specs::convert::FromSpecImpl<ClientError> for Error {
    open spec fn obeys_from_spec() -> bool {
        true
    }

    open spec fn from_spec(e: ClientError) -> Self {
        Error::Client(e)
    }
}

/// A new authority set along with the canonical block it changed at.
#[derive(Debug, PartialEq, Eq)]
pub struct NewAuthoritySet {
    /// The number of the block.
    pub canon_number: BlockNumber,
    /// The hash of the block.
    pub canon_hash: BlockHash,
    /// The id of the new set.
    pub set_id: SetId,
    /// The authorities of the new set.
    pub authorities: AuthorityList,
}

/// Commands issued to the voter.
#[derive(Debug, PartialEq, Eq)]
pub enum VoterCommand {
    /// Pause the voter for given reason.
    Pause(String),
    /// New authorities.
    ChangeAuthorities(NewAuthoritySet),
}

/// Signals either an early exit of a voter or an error.
#[derive(Debug, PartialEq, Eq)]
pub enum CommandOrError {
    /// An error occurred.
    Error(Error),
    /// A command to the voter.
    VoterCommand(VoterCommand),
}

impl From<Error> for CommandOrError {
    fn from(e: Error) -> (r: Self) {
        CommandOrError::Error(e)
    }
}

impl vstd::std_specs::convert::FromSpecImpl<Error> for CommandOrError {
    open spec fn obeys_from_spec() -> bool {
        true
    }

    open spec fn from_spec(e: Error) -> Self {
        CommandOrError::Error(e)
    }
}

impl From<ClientError> for CommandOrError {
    fn from(e: ClientError) -> (r: Self) {
        CommandOrError::Error(Error::Client(e))
    }
}

impl vstd::std_specs::convert::FromSpecImpl<ClientError> for CommandOrError {
    open spec fn obeys_from_spec() -> bool {
        true
    }

    open spec fn from_spec(e: ClientError) -> Self {
        CommandOrError::Error(Error::Client(e))
    }
}

impl From<VoterCommand> for CommandOrError {
    fn from(e: VoterCommand) -> (r: Self) {
        CommandOrError::VoterCommand(e)
    }
}

impl vstd::std_specs::convert::FromSpecImpl<VoterCommand> for CommandOrError {
    open spec fn obeys_from_spec() -> bool {
        true
    }

    open spec fn from_spec(e: VoterCommand) -> Self {
        CommandOrError::VoterCommand(e)
    }
}

/// An error of the client is one of the client, in voting and as the voter's outcome, and nothing
/// is lost on the way. A command is the command.
pub proof fn law_errors_are_handed_on(
    e: ClientError,
    error: Error,
    command: VoterCommand,
    voting: Error,
    outcome: CommandOrError,
    direct: CommandOrError,
    told: CommandOrError,
)
    requires
        call_ensures(<Error as From<ClientError>>::from, (e,), voting),
        call_ensures(<CommandOrError as From<Error>>::from, (error,), outcome),
        call_ensures(<CommandOrError as From<ClientError>>::from, (e,), direct),
        call_ensures(<CommandOrError as From<VoterCommand>>::from, (command,), told),
    ensures
        voting == Error::Client(e),
        outcome == CommandOrError::Error(error),
        direct == CommandOrError::Error(Error::Client(e)),
        told == CommandOrError::VoterCommand(command),
{
}

} // verus!
