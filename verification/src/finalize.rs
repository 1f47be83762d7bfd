//! Finalizing a block.
use crate::authorities::{AuthoritySet, AuthoritySetView};
use crate::error::{ClientError, CommandOrError, Error, NewAuthoritySet, VoterCommand};
use crate::keys::{ConsensusEngineId, PBFT_ENGINE_ID};
use crate::messages::{
    copy_ids, same_bytes, BlockHash, BlockNumber, SignedMessage, ViewNumber,
};
use vstd::prelude::*;

verus! {

/// A proof of the finality of a block, encoded.
#[derive(Debug, PartialEq, Eq)]
pub struct PbftJustification {
    /// The encoding.
    pub encoded: Vec<u8>,
}

/// The commits by which a block was finalized.
#[derive(Debug, PartialEq, Eq)]
pub struct FinalizedCommit {
    /// The finalized block's hash.
    pub target_hash: BlockHash,
    /// The finalized block's number.
    pub target_number: BlockNumber,
    /// The commits.
    pub commits: Vec<SignedMessage>,
}

/// What a block is finalized by: a justification that was received, or the commits of a view.
#[derive(Debug, PartialEq, Eq)]
pub enum JustificationOrCommit {
    /// A justification.
    Justification(PbftJustification),
    /// The commits of a view.
    Commit((ViewNumber, FinalizedCommit)),
}

impl From<(ViewNumber, FinalizedCommit)> for JustificationOrCommit {
    fn from(commit: (ViewNumber, FinalizedCommit)) -> (r: Self) {
        JustificationOrCommit::Commit(commit)
    }
}

impl vstd::std_specs::convert::FromSpecImpl<(ViewNumber, FinalizedCommit)> for JustificationOrCommit {
    open spec fn obeys_from_spec() -> bool {
        true
    }

    open spec fn from_spec(commit: (ViewNumber, FinalizedCommit)) -> Self {
        JustificationOrCommit::Commit(commit)
    }
}

impl From<PbftJustification> for JustificationOrCommit {
    fn from(justification: PbftJustification) -> (r: Self) {
        JustificationOrCommit::Justification(justification)
    }
}

impl vstd::std_specs::convert::FromSpecImpl<PbftJustification> for JustificationOrCommit {
    open spec fn obeys_from_spec() -> bool {
        true
    }

    open spec fn from_spec(justification: PbftJustification) -> Self {
        JustificationOrCommit::Justification(justification)
    }
}

/// What applying the pending standard changes of an authority set did.
#[derive(Clone, Copy, Debug)]
pub struct ChangeStatus {
    /// Whether internal changes were made.
    pub changed: bool,
    /// The block at which a new authority set took over, if one did.
    pub new_set_block: Option<(BlockHash, BlockNumber)>,
}

/// Whether a justification is to be stored when a block is finalized by commits: always when a
/// new authority set takes over, and otherwise whenever the finalized number passes into
/// another period. While nothing but genesis is finalized, only the first block of the second
/// period counts.
pub open spec fn needs_justification(
    new_set: bool,
    period: Option<BlockNumber>,
    number: BlockNumber,
    last_finalized: BlockNumber,
) -> bool {
    new_set || (period matches Some(p) && (last_finalized != 0 || number == p) && last_finalized / p
        != number / p)
}

/// Whether a justification is to be stored when a block is finalized by commits.
pub fn justification_required(
    new_set: bool,
    period: Option<BlockNumber>,
    number: BlockNumber,
    last_finalized: BlockNumber,
) -> (r: bool)
    requires
        period == Some(0u64) ==> new_set || (last_finalized == 0 && number != 0),
    ensures
        r == needs_justification(new_set, period, number, last_finalized),
{
    if new_set {
        return true;
    }
    match period {
        Some(period) => (last_finalized != 0 || number == period) && last_finalized / period
            != number / period,
        None => false,
    }
}

/// Once something beyond genesis is finalized, a justification is stored if and only if a new
/// set takes over or the finalized number reaches or passes a multiple of the period.
pub proof fn law_justification_every_period(
    new_set: bool,
    period: BlockNumber,
    number: BlockNumber,
    last_finalized: BlockNumber,
)
    requires
        period > 0,
        0 < last_finalized <= number,
    ensures
        needs_justification(new_set, Some(period), number, last_finalized) <==> new_set || exists|
            k: nat,
        | last_finalized < #[trigger] (k * period) <= number,
{
    let p = period as int;
    let (a, b) = (last_finalized as int, number as int);
    let (qa, qb) = (a / p, b / p);
    assert(a == qa * p + a % p && 0 <= a % p < p) by {
        vstd::arithmetic::div_mod::lemma_fundamental_div_mod(a, p);
        vstd::arithmetic::mul::lemma_mul_is_commutative(p, qa);
        vstd::arithmetic::div_mod::lemma_mod_bound(a, p);
    }
    assert(b == qb * p + b % p && 0 <= b % p < p) by {
        vstd::arithmetic::div_mod::lemma_fundamental_div_mod(b, p);
        vstd::arithmetic::mul::lemma_mul_is_commutative(p, qb);
        vstd::arithmetic::div_mod::lemma_mod_bound(b, p);
    }
    if qa != qb {
        assert(qa < qb && qb * p > a) by (nonlinear_arith)
            requires
                qa != qb,
                a <= b,
                a == qa * p + a % p,
                b == qb * p + b % p,
                0 <= a % p < p,
                0 <= b % p < p,
        ;
        assert(qb >= 0) by (nonlinear_arith)
            requires
                qb * p > a,
                a > 0,
                p > 0,
        ;
        let k = qb as nat;
        assert(last_finalized < (k * period) <= number);
    }
    assert forall|k: nat| last_finalized < #[trigger] (k * period) <= number implies qa != qb by {
        let kk = k as int;
        assert(qa < kk <= qb) by (nonlinear_arith)
            requires
                a < kk * p,
                kk * p <= b,
                a == qa * p + a % p,
                b == qb * p + b % p,
                0 <= a % p < p,
                0 <= b % p < p,
        ;
    }
}

/// What is stored with a finalized block: the justification, under the engine's id, if it is
/// required.
pub fn persisted_justification(required: bool, justification: &PbftJustification) -> (r: Option<
    (ConsensusEngineId, Vec<u8>),
>)
    ensures
        is_persisted(required, justification.encoded@, r),
{
    if required {
        let mut encoded: Vec<u8> = Vec::new();
        for i in 0..justification.encoded.len()
            invariant
                encoded@ == justification.encoded@.subrange(0, i as int),
        {
            encoded.push(justification.encoded[i]);
            assert(justification.encoded@.subrange(0, i + 1) =~= justification.encoded@.subrange(
                0,
                i as int,
            ).push(justification.encoded@[i as int]));
        }
        assert(justification.encoded@.subrange(0, justification.encoded@.len() as int)
            =~= justification.encoded@);
        Some((PBFT_ENGINE_ID, encoded))
    } else {
        None
    }
}

/// `r` is the justification under the engine's id if it is required, and nothing otherwise.
pub open spec fn is_persisted(
    required: bool,
    encoded: Seq<u8>,
    r: Option<(ConsensusEngineId, Vec<u8>)>,
) -> bool {
    match r {
        Some((id, bytes)) => required && id == PBFT_ENGINE_ID && bytes@ == encoded,
        None => !required,
    }
}

/// `r` announces the current authorities of the set as those that took over at the block, if a
/// set took over.
pub open spec fn is_new_set(
    new_set_block: Option<(BlockHash, BlockNumber)>,
    set: AuthoritySetView,
    r: Option<NewAuthoritySet>,
) -> bool {
    match new_set_block {
        Some((hash, number)) => {
            &&& r matches Some(new)
            &&& new.canon_hash == hash
            &&& new.canon_number == number
            &&& new.set_id == set.set_id
            &&& new.authorities@ == set.current_authorities
        },
        None => r is None,
    }
}

/// The authority set that took over, if one did.
pub fn new_authority_set(
    new_set_block: Option<(BlockHash, BlockNumber)>,
    set: &AuthoritySet,
) -> (r: Option<NewAuthoritySet>)
    ensures
        is_new_set(new_set_block, set@, r),
{
    match new_set_block {
        Some((canon_hash, canon_number)) => {
            let (set_id, authorities) = set.current();
            Some(
                NewAuthoritySet {
                    canon_hash,
                    canon_number,
                    set_id,
                    authorities: copy_ids(authorities),
                },
            )
        },
        None => None,
    }
}

/// What finalizing a block asks of the client that holds the chain. What is to last is done
/// within an operation on the database, which goes from step to step and which only `commit` makes
/// lasting. A step that fails gives the operation up.
pub trait ClientForPbft {
    /// An operation on the database.
    type Operation;

    /// The number of the last finalized block.
    fn finalized_number(&self) -> BlockNumber;

    /// The hash of the block of that number in the canonical chain.
    fn hash(&self, number: BlockNumber) -> Result<Option<BlockHash>, ClientError>;

    /// Applies to the set the standard changes that become effective with the block. Gives the
    /// set that results.
    fn apply_standard_changes(
        &self,
        operation: Self::Operation,
        set: AuthoritySet,
        hash: BlockHash,
        number: BlockNumber,
        initial_sync: bool,
    ) -> Result<(Self::Operation, AuthoritySet, ChangeStatus), String>;

    /// Makes a justification out of the commits of a view.
    fn from_commit(&self, view: ViewNumber, commit: FinalizedCommit) -> Result<
        PbftJustification,
        Error,
    >;

    /// Tells the subscribers of a justification.
    fn notify_justification(
        &self,
        operation: Self::Operation,
        justification: &PbftJustification,
    ) -> Self::Operation;

    /// Finalizes the block, and stores what is to persist with it.
    fn apply_finality(
        &self,
        operation: Self::Operation,
        hash: BlockHash,
        persisted: Option<(ConsensusEngineId, Vec<u8>)>,
    ) -> Result<Self::Operation, ClientError>;

    /// Stores the justification as that of the best finalized block.
    fn update_best_justification(
        &self,
        operation: Self::Operation,
        justification: &PbftJustification,
    ) -> Result<Self::Operation, ClientError>;

    /// Stores the authority set, and what follows from a new set.
    fn update_authority_set(
        &self,
        operation: Self::Operation,
        set: &AuthoritySet,
        new: &Option<NewAuthoritySet>,
    ) -> Result<Self::Operation, ClientError>;

    /// Commits the operation.
    fn commit(&self, operation: Self::Operation) -> Result<(), ClientError>;
}

/// What is asked of `finalize_block`.
pub struct FinalizeRequest {
    /// How often a justification is stored, in blocks.
    pub justification_period: Option<BlockNumber>,
    /// The hash of the block.
    pub hash: BlockHash,
    /// The number of the block.
    pub number: BlockNumber,
    /// Whether the client is in its initial sync.
    pub initial_sync: bool,
}

/// What the update of the database comes to.
pub struct Update<O> {
    /// The authority set that results and the set that took over, or an error.
    pub result: Result<(AuthoritySet, Option<NewAuthoritySet>), Error>,
    /// The operation, if it was neither committed nor given up.
    pub uncommitted: Option<O>,
}

/// The update failed, and the operation was given up.
pub open spec fn fails<O>(update: Update<O>, e: Error) -> bool {
    update.result == Err::<(AuthoritySet, Option<NewAuthoritySet>), Error>(e)
        && update.uncommitted is None
}

/// The last step of an update: the operation is committed.
pub open spec fn commits<C: ClientForPbft>(
    client: &C,
    operation: C::Operation,
    set: AuthoritySet,
    new: Option<NewAuthoritySet>,
    update: Update<C::Operation>,
) -> bool {
    exists|done: Result<(), ClientError>| #[trigger]
        call_ensures(C::commit, (client, operation), done) && (match done {
            Err(e) => fails(update, Error::Client(e)),
            Ok(_) => update.result == Ok::<(AuthoritySet, Option<NewAuthoritySet>), Error>(
                (set, new),
            ) && update.uncommitted is None,
        })
}

/// The third step of an update: the justification becomes the best one, and the set is stored
/// if it was changed.
pub open spec fn stores<C: ClientForPbft>(
    client: &C,
    operation: C::Operation,
    set: AuthoritySet,
    status: ChangeStatus,
    justification: PbftJustification,
    update: Update<C::Operation>,
) -> bool {
    exists|done: Result<C::Operation, ClientError>| #[trigger]
        call_ensures(C::update_best_justification, (client, operation, &justification), done) && (
        match done {
            Err(e) => fails(update, Error::Client(e)),
            Ok(operation) => exists|new: Option<NewAuthoritySet>| #[trigger]
                is_new_set(status.new_set_block, set@, new) && if status.changed {
                    exists|written: Result<C::Operation, ClientError>| #[trigger]
                        call_ensures(
                            C::update_authority_set,
                            (client, operation, &set, &new),
                            written,
                        ) && (match written {
                            Err(e) => fails(update, Error::Client(e)),
                            Ok(operation) => commits(client, operation, set, new, update),
                        })
                } else {
                    commits(client, operation, set, new, update)
                },
        })
}

/// The second step of an update: the subscribers are told of the justification, and the block is
/// finalized, with the justification stored if it is required.
pub open spec fn finalizes<C: ClientForPbft>(
    client: &C,
    operation: C::Operation,
    hash: BlockHash,
    set: AuthoritySet,
    status: ChangeStatus,
    required: bool,
    justification: PbftJustification,
    update: Update<C::Operation>,
) -> bool {
    exists|
        told: C::Operation,
        persisted: Option<(ConsensusEngineId, Vec<u8>)>,
        done: Result<C::Operation, ClientError>,
    |
        {
            &&& #[trigger] call_ensures(
                C::notify_justification,
                (client, operation, &justification),
                told,
            )
            &&& is_persisted(required, justification.encoded@, persisted)
            &&& #[trigger] call_ensures(C::apply_finality, (client, told, hash, persisted), done)
            &&& match done {
                Err(e) => fails(update, Error::Client(e)),
                Ok(operation) => stores(client, operation, set, status, justification, update),
            }
        }
}

/// Whether the justification made of commits is required. The last finalized number is asked for
/// only where it matters.
pub open spec fn requires_justification<C: ClientForPbft>(
    client: &C,
    request: FinalizeRequest,
    new_set: bool,
    required: bool,
) -> bool {
    if new_set || request.justification_period is None {
        required == new_set
    } else {
        exists|last: BlockNumber| #[trigger] call_ensures(C::finalized_number, (client,), last)
            && required == needs_justification(
            new_set,
            request.justification_period,
            request.number,
            last,
        )
    }
}

/// The first step of an update, once the standard changes are applied: the justification. One
/// that was given is always required. Where none can be made, the operation is not committed.
pub open spec fn justifies<C: ClientForPbft>(
    client: &C,
    operation: C::Operation,
    request: FinalizeRequest,
    input: JustificationOrCommit,
    set: AuthoritySet,
    status: ChangeStatus,
    update: Update<C::Operation>,
) -> bool {
    match input {
        JustificationOrCommit::Justification(justification) => finalizes(
            client,
            operation,
            request.hash,
            set,
            status,
            true,
            justification,
            update,
        ),
        JustificationOrCommit::Commit((view, commit)) => exists|
            required: bool,
            made: Result<PbftJustification, Error>,
        |
            {
                &&& #[trigger] requires_justification(
                    client,
                    request,
                    status.new_set_block is Some,
                    required,
                )
                &&& #[trigger] call_ensures(C::from_commit, (client, view, commit), made)
                &&& match made {
                    Err(e) => {
                        &&& update.result == Err::<
                            (AuthoritySet, Option<NewAuthoritySet>),
                            Error,
                        >(e)
                        &&& update.uncommitted == Some(operation)
                    },
                    Ok(justification) => finalizes(
                        client,
                        operation,
                        request.hash,
                        set,
                        status,
                        required,
                        justification,
                        update,
                    ),
                }
            },
    }
}

/// The update of the database, which begins with the standard changes of the authority set.
pub open spec fn updates<C: ClientForPbft>(
    client: &C,
    operation: C::Operation,
    request: FinalizeRequest,
    input: JustificationOrCommit,
    before: AuthoritySetView,
    update: Update<C::Operation>,
) -> bool {
    exists|
        given: AuthoritySet,
        outcome: Result<(C::Operation, AuthoritySet, ChangeStatus), String>,
    |
        given@ == before && #[trigger] call_ensures(
            C::apply_standard_changes,
            (client, operation, given, request.hash, request.number, request.initial_sync),
            outcome,
        ) && (match outcome {
            Err(e) => fails(update, Error::Safety(e)),
            Ok((operation, set, status)) => justifies(
                client,
                operation,
                request,
                input,
                set,
                status,
                update,
            ),
        })
}

/// What finalizing a block comes to: the outcome, and the operation if it was neither committed
/// nor given up.
pub type Finalized<O> = (Result<(), CommandOrError>, Option<O>);

/// What follows from an update. After an error the authority set is what it was before. The
/// voter is told to change authorities if a set took over.
pub open spec fn concludes<O>(
    update: Update<O>,
    before: AuthoritySetView,
    after: AuthoritySetView,
    r: Finalized<O>,
) -> bool {
    &&& r.1 == update.uncommitted
    &&& match update.result {
        Err(e) => after == before && r.0 == Err::<(), CommandOrError>(CommandOrError::Error(e)),
        Ok((set, new)) => after == set@ && r.0 == (match new {
            Some(new) => Err::<(), CommandOrError>(
                CommandOrError::VoterCommand(VoterCommand::ChangeAuthorities(new)),
            ),
            None => Ok(()),
        }),
    }
}

/// Finalizing a block: the update, and what follows from it.
pub open spec fn update_concludes<C: ClientForPbft>(
    client: &C,
    operation: C::Operation,
    request: FinalizeRequest,
    input: JustificationOrCommit,
    before: AuthoritySetView,
    after: AuthoritySetView,
    r: Finalized<C::Operation>,
) -> bool {
    exists|update: Update<C::Operation>| #[trigger]
        updates(client, operation, request, input, before, update) && concludes(
            update,
            before,
            after,
            r,
        )
}

/// Finalizing a block, where one that is finalized in the canonical chain already is left as it
/// is, with the operation unused.
pub open spec fn block_finalized<C: ClientForPbft>(
    client: &C,
    operation: C::Operation,
    request: FinalizeRequest,
    input: JustificationOrCommit,
    before: AuthoritySetView,
    after: AuthoritySetView,
    r: Finalized<C::Operation>,
) -> bool {
    exists|last: BlockNumber| #[trigger] call_ensures(C::finalized_number, (client,), last) && if
        request.number <= last {
        exists|canonical: Result<Option<BlockHash>, ClientError>| #[trigger]
            call_ensures(C::hash, (client, request.number), canonical) && (match canonical {
                Err(e) => after == before && r.1 == Some(operation) && r.0 == Err::<
                    (),
                    CommandOrError,
                >(CommandOrError::Error(Error::Client(e))),
                Ok(found) => if found == Some(request.hash) {
                    after == before && r.1 == Some(operation) && r.0 is Ok
                } else {
                    update_concludes(client, operation, request, input, before, after, r)
                },
            })
    } else {
        update_concludes(client, operation, request, input, before, after, r)
    }
}

/// By the client's answers, the block is finalized in the canonical chain already, or that cannot
/// be found out.
pub open spec fn goes_no_further<C: ClientForPbft>(client: &C, request: FinalizeRequest) -> bool {
    &&& forall|last: BlockNumber| #[trigger]
        call_ensures(C::finalized_number, (client,), last) ==> request.number <= last
    &&& forall|canonical: Result<Option<BlockHash>, ClientError>| #[trigger]
        call_ensures(C::hash, (client, request.number), canonical) ==> (canonical matches Ok(found)
            ==> found == Some(request.hash))
}

/// By the client's answers, a period of zero does not come to bear: a new set takes over, or
/// nothing but genesis is finalized and the block is another.
pub open spec fn period_is_not_used<C: ClientForPbft>(
    client: &C,
    operation: C::Operation,
    request: FinalizeRequest,
    before: AuthoritySetView,
) -> bool {
    forall|
        given: AuthoritySet,
        outcome: Result<(C::Operation, AuthoritySet, ChangeStatus), String>,
        last: BlockNumber,
    |
        {
            &&& given@ == before
            &&& #[trigger] call_ensures(
                C::apply_standard_changes,
                (client, operation, given, request.hash, request.number, request.initial_sync),
                outcome,
            )
            &&& #[trigger] call_ensures(C::finalized_number, (client,), last)
        } ==> (outcome matches Ok((_, _, status)) ==> status.new_set_block is Some || (last == 0
            && request.number != 0))
}

/// The period is not zero, or by the client's answers it does not come to bear.
pub open spec fn period_serves<C: ClientForPbft>(
    client: &C,
    operation: C::Operation,
    request: FinalizeRequest,
    input: JustificationOrCommit,
    before: AuthoritySetView,
) -> bool {
    ||| input is Justification
    ||| request.justification_period != Some(0u64)
    ||| goes_no_further(client, request)
    ||| period_is_not_used(client, operation, request, before)
}

fn store<C: ClientForPbft>(
    client: &C,
    operation: C::Operation,
    set: AuthoritySet,
    status: ChangeStatus,
    justification: &PbftJustification,
) -> (update: Update<C::Operation>)
    ensures
        stores(client, operation, set, status, *justification, update),
{
    let operation = match client.update_best_justification(operation, justification) {
        Err(e) => {
            return Update { result: Err(Error::Client(e)), uncommitted: None };
        },
        Ok(operation) => operation,
    };
    let new = new_authority_set(status.new_set_block, &set);
    let operation = if status.changed {
        match client.update_authority_set(operation, &set, &new) {
            Err(e) => {
                return Update { result: Err(Error::Client(e)), uncommitted: None };
            },
            Ok(operation) => operation,
        }
    } else {
        operation
    };
    match client.commit(operation) {
        Err(e) => Update { result: Err(Error::Client(e)), uncommitted: None },
        Ok(_) => Update { result: Ok((set, new)), uncommitted: None },
    }
}

fn finalize<C: ClientForPbft>(
    client: &C,
    operation: C::Operation,
    hash: BlockHash,
    set: AuthoritySet,
    status: ChangeStatus,
    required: bool,
    justification: PbftJustification,
) -> (update: Update<C::Operation>)
    ensures
        finalizes(client, operation, hash, set, status, required, justification, update),
{
    let told = client.notify_justification(operation, &justification);
    let persisted = persisted_justification(required, &justification);
    match client.apply_finality(told, hash, persisted) {
        Err(e) => Update { result: Err(Error::Client(e)), uncommitted: None },
        Ok(operation) => store(client, operation, set, status, &justification),
    }
}

fn run_update<C: ClientForPbft>(
    client: &C,
    operation: C::Operation,
    given: AuthoritySet,
    request: FinalizeRequest,
    input: JustificationOrCommit,
) -> (update: Update<C::Operation>)
    requires
        input is Justification || request.justification_period != Some(0u64) || period_is_not_used(
            client,
            operation,
            request,
            given@,
        ),
    ensures
        updates(client, operation, request, input, given@, update),
{
    let (operation, set, status) = match client.apply_standard_changes(
        operation,
        given,
        request.hash,
        request.number,
        request.initial_sync,
    ) {
        Err(e) => {
            return Update { result: Err(Error::Safety(e)), uncommitted: None };
        },
        Ok(outcome) => outcome,
    };
    match input {
        JustificationOrCommit::Justification(justification) => finalize(
            client,
            operation,
            request.hash,
            set,
            status,
            true,
            justification,
        ),
        JustificationOrCommit::Commit((view, commit)) => {
            let new_set = status.new_set_block.is_some();
            let required = if !new_set && request.justification_period.is_some() {
                justification_required(
                    new_set,
                    request.justification_period,
                    request.number,
                    client.finalized_number(),
                )
            } else {
                new_set
            };
            assert(requires_justification(client, request, new_set, required));
            match client.from_commit(view, commit) {
                Err(e) => Update { result: Err(e), uncommitted: Some(operation) },
                Ok(justification) => finalize(
                    client,
                    operation,
                    request.hash,
                    set,
                    status,
                    required,
                    justification,
                ),
            }
        },
    }
}

/// Finalize the given block and apply any authority set changes. If an
/// authority set change is enacted then a justification is created (if not
/// given) and stored with the block when finalizing it.
/// This method assumes that the block being finalized has already been imported.
///
/// All is done in the given operation, which is committed once, after everything else, and only
/// if all went well. It is given back where it was neither committed nor given up by a step that
/// failed.
pub fn finalize_block<C: ClientForPbft>(
    client: &C,
    operation: C::Operation,
    authority_set: &mut AuthoritySet,
    justification_period: Option<BlockNumber>,
    hash: BlockHash,
    number: BlockNumber,
    justification_or_commit: JustificationOrCommit,
    initial_sync: bool,
) -> (r: Finalized<C::Operation>)
    requires
        period_serves(
            client,
            operation,
            (FinalizeRequest { justification_period, hash, number, initial_sync }),
            justification_or_commit,
            old(authority_set)@,
        ),
    ensures
        block_finalized(
            client,
            operation,
            (FinalizeRequest { justification_period, hash, number, initial_sync }),
            justification_or_commit,
            old(authority_set)@,
            final(authority_set)@,
            r,
        ),
{
    let request = FinalizeRequest { justification_period, hash, number, initial_sync };
    if number <= client.finalized_number() {
        match client.hash(number) {
            Err(e) => {
                return (Err(CommandOrError::Error(Error::Client(e))), Some(operation));
            },
            Ok(Some(canonical)) => {
                if same_bytes(&canonical, &hash) {
                    return (Ok(()), Some(operation));
                }
            },
            Ok(None) => (),
        }
    }
    let given = authority_set.clone();
    let update = run_update(client, operation, given, request, justification_or_commit);
    assert(updates(
        client,
        operation,
        request,
        justification_or_commit,
        old(authority_set)@,
        update,
    ));
    let result = match update.result {
        Err(e) => Err(CommandOrError::Error(e)),
        Ok((set, new)) => {
            *authority_set = set;
            match new {
                Some(new) => Err(
                    CommandOrError::VoterCommand(VoterCommand::ChangeAuthorities(new)),
                ),
                None => Ok(()),
            }
        },
    };
    (result, update.uncommitted)
}

/// After an error in finalizing a block, the authority set is what it was before.
pub proof fn law_failure_keeps_the_set<C: ClientForPbft>(
    client: &C,
    operation: C::Operation,
    request: FinalizeRequest,
    input: JustificationOrCommit,
    before: AuthoritySetView,
    after: AuthoritySetView,
    r: Finalized<C::Operation>,
)
    requires
        block_finalized(client, operation, request, input, before, after, r),
        r.0 matches Err(CommandOrError::Error(_)),
    ensures
        after == before,
{
}

/// A block that is finalized in the canonical chain already is left as it is: the operation comes
/// back unused, and the authority set stays.
pub proof fn law_finalized_block_stays<C: ClientForPbft>(
    client: &C,
    operation: C::Operation,
    request: FinalizeRequest,
    input: JustificationOrCommit,
    before: AuthoritySetView,
    after: AuthoritySetView,
    r: Finalized<C::Operation>,
)
    requires
        block_finalized(client, operation, request, input, before, after, r),
        goes_no_further(client, request),
    ensures
        after == before,
        r.1 == Some(operation),
        (forall|canonical: Result<Option<BlockHash>, ClientError>| #[trigger]
            call_ensures(C::hash, (client, request.number), canonical) ==> canonical is Ok)
            ==> r.0 is Ok,
{
}

/// Finalizing a block never pauses the voter. When it tells the voter to change authorities, it
/// names the id and the authorities of the set that is current from then on.
pub proof fn law_announces_the_current_set<C: ClientForPbft>(
    client: &C,
    operation: C::Operation,
    request: FinalizeRequest,
    input: JustificationOrCommit,
    before: AuthoritySetView,
    after: AuthoritySetView,
    command: VoterCommand,
    uncommitted: Option<C::Operation>,
)
    requires
        block_finalized(
            client,
            operation,
            request,
            input,
            before,
            after,
            (Err(CommandOrError::VoterCommand(command)), uncommitted),
        ),
    ensures
        command matches VoterCommand::ChangeAuthorities(new) && new.set_id == after.set_id
            && new.authorities@ == after.current_authorities,
        uncommitted is None,
{
}

/// What is stored with the block holds a justification under the engine's id: the one given, if
/// one was.
pub open spec fn holds_justification(
    input: JustificationOrCommit,
    persisted: Option<(ConsensusEngineId, Vec<u8>)>,
) -> bool {
    &&& persisted matches Some((id, bytes))
    &&& id == PBFT_ENGINE_ID
    &&& input matches JustificationOrCommit::Justification(given) ==> bytes@ == given.encoded@
}

/// When an authority set takes over, or when a justification was given, the block is finalized
/// with a justification stored, whatever the period.
pub proof fn law_change_is_justified<C: ClientForPbft>(
    client: &C,
    operation: C::Operation,
    request: FinalizeRequest,
    input: JustificationOrCommit,
    set: AuthoritySet,
    status: ChangeStatus,
    update: Update<C::Operation>,
)
    requires
        justifies(client, operation, request, input, set, status, update),
        status.new_set_block is Some || input is Justification,
        update.result is Ok,
    ensures
        exists|
            told: C::Operation,
            persisted: Option<(ConsensusEngineId, Vec<u8>)>,
            done: Result<C::Operation, ClientError>,
        |
            holds_justification(input, persisted) && done is Ok && #[trigger] call_ensures(
                C::apply_finality,
                (client, told, request.hash, persisted),
                done,
            ),
{
}

/// Without a period a justification is stored if and only if a new set takes over. While nothing
/// but genesis is finalized, it is stored if a new set takes over, or for the block whose number
/// is the period. Otherwise it is stored if a new set takes over, or if a multiple of the period
/// lies between the two numbers: above the lower and not above the higher, whichever of the two
/// that is.
pub proof fn law_justification_is_required(
    new_set: bool,
    period: Option<BlockNumber>,
    number: BlockNumber,
    last_finalized: BlockNumber,
    r: bool,
)
    requires
        call_ensures(justification_required, (new_set, period, number, last_finalized), r),
    ensures
        new_set ==> r,
        period is None ==> r == new_set,
        period matches Some(p) ==> p > 0 && last_finalized == 0 ==> r == (new_set || number == p),
        period matches Some(p) ==> number != p && last_finalized == 0 ==> r == new_set,
        period matches Some(p) ==> p > 0 && 0 < last_finalized <= number ==> (r <==> new_set
            || exists|k: nat| last_finalized < #[trigger] (k * p) <= number),
        period matches Some(p) ==> p > 0 && number < last_finalized ==> (r <==> new_set || exists|
            k: nat,
        | number < #[trigger] (k * p) <= last_finalized),
{
    if let Some(p) = period {
        if p > 0 && 0 < last_finalized <= number {
            law_justification_every_period(new_set, p, number, last_finalized);
        }
        if p > 0 && number < last_finalized {
            lemma_other_period(p, number, last_finalized);
        }
        if p > 0 && last_finalized == 0 && number == p {
            assert(p / p == 1) by (nonlinear_arith)
                requires
                    p > 0,
            ;
        }
    }
}

proof fn lemma_other_period(p: BlockNumber, low: BlockNumber, high: BlockNumber)
    requires
        p > 0,
        low < high,
    ensures
        high / p != low / p <==> exists|k: nat| low < #[trigger] (k * p) <= high,
{
    let (a, b, q) = (low as int, high as int, p as int);
    let (qa, qb) = (a / q, b / q);
    assert(a == qa * q + a % q && 0 <= a % q < q) by {
        vstd::arithmetic::div_mod::lemma_fundamental_div_mod(a, q);
        vstd::arithmetic::mul::lemma_mul_is_commutative(q, qa);
        vstd::arithmetic::div_mod::lemma_mod_bound(a, q);
    }
    assert(b == qb * q + b % q && 0 <= b % q < q) by {
        vstd::arithmetic::div_mod::lemma_fundamental_div_mod(b, q);
        vstd::arithmetic::mul::lemma_mul_is_commutative(q, qb);
        vstd::arithmetic::div_mod::lemma_mod_bound(b, q);
    }
    if qa != qb {
        assert(qa < qb && qb * q > a && qb >= 0) by (nonlinear_arith)
            requires
                qa != qb,
                0 <= a < b,
                q > 0,
                a == qa * q + a % q,
                b == qb * q + b % q,
                0 <= a % q < q,
                0 <= b % q < q,
        ;
        let k = qb as nat;
        assert(low < (k * p) <= high);
    }
    assert forall|k: nat| low < #[trigger] (k * p) <= high implies qa != qb by {
        let kk = k as int;
        assert(qa < kk <= qb) by (nonlinear_arith)
            requires
                a < kk * q,
                kk * q <= b,
                a == qa * q + a % q,
                b == qb * q + b % q,
                0 <= a % q < q,
                0 <= b % q < q,
        ;
    }
}

/// What is stored with a block is the justification, under the engine's id, and it is stored if
/// and only if it is required.
pub proof fn law_required_justification_persists(
    required: bool,
    justification: PbftJustification,
    r: Option<(ConsensusEngineId, Vec<u8>)>,
)
    requires
        call_ensures(persisted_justification, (required, &justification), r),
    ensures
        r is Some <==> required,
        r matches Some((id, bytes)) ==> id == PBFT_ENGINE_ID && bytes@ == justification.encoded@,
{
}

/// A set that took over is announced with the block, and with its own id and authorities. There is
/// nothing to announce where none took over.
pub proof fn law_new_set_names_the_block(
    new_set_block: Option<(BlockHash, BlockNumber)>,
    set: AuthoritySet,
    r: Option<NewAuthoritySet>,
)
    requires
        call_ensures(new_authority_set, (new_set_block, &set), r),
    ensures
        r is Some <==> new_set_block is Some,
        r matches Some(new) ==> new_set_block == Some((new.canon_hash, new.canon_number))
            && new.set_id == set@.set_id && new.authorities@ == set@.current_authorities,
{
}

/// By the client's answers, the block is not finalized in the canonical chain yet: it is above the
/// last finalized block, or another block has its number.
pub open spec fn is_new_block<C: ClientForPbft>(
    client: &C,
    hash: BlockHash,
    number: BlockNumber,
) -> bool {
    ||| forall|last: BlockNumber| #[trigger]
        call_ensures(C::finalized_number, (client,), last) ==> last < number
    ||| forall|canonical: Result<Option<BlockHash>, ClientError>| #[trigger]
        call_ensures(C::hash, (client, number), canonical) ==> (canonical matches Ok(found)
            && found != Some(hash))
}

/// The new set that the outcome tells the voter of, if it does.
pub open spec fn told_to_voter(outcome: Result<(), CommandOrError>) -> Option<NewAuthoritySet> {
    match outcome {
        Err(CommandOrError::VoterCommand(VoterCommand::ChangeAuthorities(new))) => Some(new),
        _ => None,
    }
}

pub(crate) proof fn lemma_goes_on<C: ClientForPbft>(
    client: &C,
    operation: C::Operation,
    request: FinalizeRequest,
    input: JustificationOrCommit,
    before: AuthoritySetView,
    after: AuthoritySetView,
    r: Finalized<C::Operation>,
) -> (update: Update<C::Operation>)
    requires
        block_finalized(client, operation, request, input, before, after, r),
        is_new_block(client, request.hash, request.number),
    ensures
        updates(client, operation, request, input, before, update),
        concludes(update, before, after, r),
{
    assert(update_concludes(client, operation, request, input, before, after, r));
    choose|update: Update<C::Operation>| #[trigger]
        updates(client, operation, request, input, before, update) && concludes(
            update,
            before,
            after,
            r,
        )
}

/// When a new block is finalized, whatever it is finalized by, however often justifications are
/// stored, and in the initial sync or not: where the client applies the standard changes and a
/// set takes over at a block, the voter is told to change to the authorities of that set, with
/// that block, and the set is held. Where none takes over, the outcome is fine, and the set that
/// results is held. The one other outcome is an error, after which the set is what it was.
pub proof fn law_new_set_is_announced<C: ClientForPbft>(
    client: &C,
    operation: C::Operation,
    set: &mut AuthoritySet,
    period: Option<BlockNumber>,
    hash: BlockHash,
    number: BlockNumber,
    input: JustificationOrCommit,
    initial_sync: bool,
    applied: AuthoritySetView,
    new_set_block: Option<(BlockHash, BlockNumber)>,
    r: Finalized<C::Operation>,
)
    requires
        call_ensures(
            finalize_block::<C>,
            (client, operation, set, period, hash, number, input, initial_sync),
            r,
        ),
        is_new_block(client, hash, number),
        forall|
            given: AuthoritySet,
            outcome: Result<(C::Operation, AuthoritySet, ChangeStatus), String>,
        |
            given@ == old(set)@ && #[trigger] call_ensures(
                C::apply_standard_changes,
                (client, operation, given, hash, number, initial_sync),
                outcome,
            ) ==> (outcome matches Ok((_, next, status)) && next@ == applied
                && status.new_set_block == new_set_block),
    ensures
        match r.0 {
            Ok(_) => new_set_block is None && final(set)@ == applied && r.1 is None,
            Err(CommandOrError::VoterCommand(VoterCommand::ChangeAuthorities(new))) => {
                &&& new_set_block == Some((new.canon_hash, new.canon_number))
                &&& new.set_id == applied.set_id
                &&& new.authorities@ == applied.current_authorities
                &&& final(set)@ == applied
                &&& r.1 is None
            },
            Err(CommandOrError::VoterCommand(VoterCommand::Pause(_))) => false,
            Err(CommandOrError::Error(_)) => final(set)@ == old(set)@,
        },
{
    let request = FinalizeRequest { justification_period: period, hash, number, initial_sync };
    let update = lemma_goes_on(client, operation, request, input, old(set)@, final(set)@, r);
    assert(updates(client, operation, request, input, old(set)@, update));
}

/// When a new block is finalized and no step of the client fails, the outcome is no error.
pub proof fn law_finalizing_succeeds<C: ClientForPbft>(
    client: &C,
    operation: C::Operation,
    set: &mut AuthoritySet,
    period: Option<BlockNumber>,
    hash: BlockHash,
    number: BlockNumber,
    input: JustificationOrCommit,
    initial_sync: bool,
    r: Finalized<C::Operation>,
)
    requires
        call_ensures(
            finalize_block::<C>,
            (client, operation, set, period, hash, number, input, initial_sync),
            r,
        ),
        is_new_block(client, hash, number),
        forall|
            given: AuthoritySet,
            outcome: Result<(C::Operation, AuthoritySet, ChangeStatus), String>,
        | #[trigger]
            call_ensures(
                C::apply_standard_changes,
                (client, operation, given, hash, number, initial_sync),
                outcome,
            ) ==> outcome is Ok,
        forall|view: ViewNumber, commit: FinalizedCommit, made: Result<PbftJustification, Error>|
            #[trigger]
            call_ensures(C::from_commit, (client, view, commit), made) ==> made is Ok,
        forall|
            at: C::Operation,
            persisted: Option<(ConsensusEngineId, Vec<u8>)>,
            done: Result<C::Operation, ClientError>,
        | #[trigger]
            call_ensures(C::apply_finality, (client, at, hash, persisted), done) ==> done is Ok,
        forall|
            at: C::Operation,
            justification: &PbftJustification,
            done: Result<C::Operation, ClientError>,
        | #[trigger]
            call_ensures(C::update_best_justification, (client, at, justification), done)
                ==> done is Ok,
        forall|
            at: C::Operation,
            next: &AuthoritySet,
            new: &Option<NewAuthoritySet>,
            done: Result<C::Operation, ClientError>,
        | #[trigger]
            call_ensures(C::update_authority_set, (client, at, next, new), done) ==> done is Ok,
        forall|at: C::Operation, done: Result<(), ClientError>| #[trigger]
            call_ensures(C::commit, (client, at), done) ==> done is Ok,
    ensures
        !(r.0 matches Err(CommandOrError::Error(_))),
{
    let request = FinalizeRequest { justification_period: period, hash, number, initial_sync };
    let update = lemma_goes_on(client, operation, request, input, old(set)@, final(set)@, r);
    assert(updates(client, operation, request, input, old(set)@, update));
}

/// What is stored with a block by commits: a justification if a new set takes over, none without
/// that and without a period, and otherwise by the number of the last finalized block.
pub open spec fn stored_by_period<C: ClientForPbft>(
    client: &C,
    period: Option<BlockNumber>,
    number: BlockNumber,
    new_set: bool,
    stored: bool,
) -> bool {
    match period {
        Some(_) if !new_set => exists|last: BlockNumber| #[trigger]
            call_ensures(C::finalized_number, (client,), last) && (stored <==> needs_justification(
                false,
                period,
                number,
                last,
            )),
        _ => stored == new_set,
    }
}

proof fn lemma_finalizes<C: ClientForPbft>(
    client: &C,
    operation: C::Operation,
    hash: BlockHash,
    set: AuthoritySet,
    status: ChangeStatus,
    required: bool,
    justification: PbftJustification,
    update: Update<C::Operation>,
) -> (steps: (
    C::Operation,
    Option<(ConsensusEngineId, Vec<u8>)>,
    C::Operation,
    C::Operation,
    C::Operation,
    Option<NewAuthoritySet>,
))
    requires
        finalizes(client, operation, hash, set, status, required, justification, update),
        update.result is Ok,
    ensures
        ({
            let (told, persisted, second, third, fourth, new) = steps;
            &&& call_ensures(C::notify_justification, (client, operation, &justification), told)
            &&& persisted is Some <==> required
            &&& persisted matches Some((id, bytes)) ==> id == PBFT_ENGINE_ID && bytes@
                == justification.encoded@
            &&& call_ensures(C::apply_finality, (client, told, hash, persisted), Ok(second))
            &&& call_ensures(
                C::update_best_justification,
                (client, second, &justification),
                Ok(third),
            )
            &&& if status.changed {
                call_ensures(C::update_authority_set, (client, third, &set, &new), Ok(fourth))
            } else {
                fourth == third
            }
            &&& call_ensures(C::commit, (client, fourth), Ok(()))
            &&& update.result == Ok::<(AuthoritySet, Option<NewAuthoritySet>), Error>((set, new))
            &&& update.uncommitted is None
        }),
{
    let (told, persisted, done) = choose|
        told: C::Operation,
        persisted: Option<(ConsensusEngineId, Vec<u8>)>,
        done: Result<C::Operation, ClientError>,
    |
        {
            &&& #[trigger] call_ensures(
                C::notify_justification,
                (client, operation, &justification),
                told,
            )
            &&& is_persisted(required, justification.encoded@, persisted)
            &&& #[trigger] call_ensures(C::apply_finality, (client, told, hash, persisted), done)
            &&& match done {
                Err(e) => fails(update, Error::Client(e)),
                Ok(operation) => stores(client, operation, set, status, justification, update),
            }
        };
    let second = done->Ok_0;
    assert(stores(client, second, set, status, justification, update));
    let best = choose|best: Result<C::Operation, ClientError>| #[trigger]
        call_ensures(C::update_best_justification, (client, second, &justification), best) && (
        match best {
            Err(e) => fails(update, Error::Client(e)),
            Ok(operation) => exists|new: Option<NewAuthoritySet>| #[trigger]
                is_new_set(status.new_set_block, set@, new) && if status.changed {
                    exists|written: Result<C::Operation, ClientError>| #[trigger]
                        call_ensures(
                            C::update_authority_set,
                            (client, operation, &set, &new),
                            written,
                        ) && (match written {
                            Err(e) => fails(update, Error::Client(e)),
                            Ok(operation) => commits(client, operation, set, new, update),
                        })
                } else {
                    commits(client, operation, set, new, update)
                },
        });
    let third = best->Ok_0;
    let new = choose|new: Option<NewAuthoritySet>| #[trigger]
        is_new_set(status.new_set_block, set@, new) && if status.changed {
            exists|written: Result<C::Operation, ClientError>| #[trigger]
                call_ensures(C::update_authority_set, (client, third, &set, &new), written) && (
                match written {
                    Err(e) => fails(update, Error::Client(e)),
                    Ok(operation) => commits(client, operation, set, new, update),
                })
        } else {
            commits(client, third, set, new, update)
        };
    let fourth = if status.changed {
        let written = choose|written: Result<C::Operation, ClientError>| #[trigger]
            call_ensures(C::update_authority_set, (client, third, &set, &new), written) && (
            match written {
                Err(e) => fails(update, Error::Client(e)),
                Ok(operation) => commits(client, operation, set, new, update),
            });
        written->Ok_0
    } else {
        third
    };
    assert(commits(client, fourth, set, new, update));
    let committed = choose|committed: Result<(), ClientError>| #[trigger]
        call_ensures(C::commit, (client, fourth), committed) && (match committed {
            Err(e) => fails(update, Error::Client(e)),
            Ok(_) => update.result == Ok::<(AuthoritySet, Option<NewAuthoritySet>), Error>(
                (set, new),
            ) && update.uncommitted is None,
        });
    assert(committed->Ok_0 == ());
    assert(committed == Ok::<(), ClientError>(()));
    assert(call_ensures(C::apply_finality, (client, told, hash, persisted), Ok(second)));
    (told, persisted, second, third, fourth, new)
}

/// All was done, in this order and on one operation: the standard changes were applied, the
/// subscribers were told of the justification, the block was finalized, the justification became
/// the best one, the set was stored with what the voter is told of if it was changed, and the
/// operation was committed. The justification is the one given, which is then stored, or the one
/// made of the commits, which is stored if a new set takes over or the period asks for it.
pub open spec fn carried_out<C: ClientForPbft>(
    client: &C,
    operation: C::Operation,
    before: AuthoritySetView,
    after: AuthoritySetView,
    period: Option<BlockNumber>,
    hash: BlockHash,
    number: BlockNumber,
    input: JustificationOrCommit,
    initial_sync: bool,
    outcome: Result<(), CommandOrError>,
) -> bool {
    exists|
        given: AuthoritySet,
        first: C::Operation,
        next: AuthoritySet,
        status: ChangeStatus,
        justification: PbftJustification,
        told: C::Operation,
        persisted: Option<(ConsensusEngineId, Vec<u8>)>,
        second: C::Operation,
        third: C::Operation,
        fourth: C::Operation,
    |
        {
            &&& given@ == before
            &&& #[trigger] call_ensures(
                C::apply_standard_changes,
                (client, operation, given, hash, number, initial_sync),
                Ok((first, next, status)),
            )
            &&& #[trigger] call_ensures(
                C::notify_justification,
                (client, first, &justification),
                told,
            )
            &&& #[trigger] call_ensures(
                C::apply_finality,
                (client, told, hash, persisted),
                Ok(second),
            )
            &&& #[trigger] call_ensures(
                C::update_best_justification,
                (client, second, &justification),
                Ok(third),
            )
            &&& if status.changed {
                call_ensures(
                    C::update_authority_set,
                    (client, third, &next, &told_to_voter(outcome)),
                    Ok(fourth),
                )
            } else {
                fourth == third
            }
            &&& #[trigger] call_ensures(C::commit, (client, fourth), Ok(()))
            &&& after == next@
            &&& status.new_set_block is Some <==> told_to_voter(outcome) is Some
            &&& persisted matches Some((id, bytes)) ==> id == PBFT_ENGINE_ID && bytes@
                == justification.encoded@
            &&& match input {
                JustificationOrCommit::Justification(one) => justification == one
                    && persisted is Some,
                JustificationOrCommit::Commit((view, commit)) => {
                    &&& call_ensures(C::from_commit, (client, view, commit), Ok(justification))
                    &&& stored_by_period(
                        client,
                        period,
                        number,
                        status.new_set_block is Some,
                        persisted is Some,
                    )
                },
            }
        }
}

pub(crate) proof fn lemma_carried_out<C: ClientForPbft>(
    client: &C,
    operation: C::Operation,
    request: FinalizeRequest,
    input: JustificationOrCommit,
    before: AuthoritySetView,
    after: AuthoritySetView,
    r: Finalized<C::Operation>,
)
    requires
        block_finalized(client, operation, request, input, before, after, r),
        is_new_block(client, request.hash, request.number),
        !(r.0 matches Err(CommandOrError::Error(_))),
    ensures
        r.1 is None,
        carried_out(
            client,
            operation,
            before,
            after,
            request.justification_period,
            request.hash,
            request.number,
            input,
            request.initial_sync,
            r.0,
        ),
{
    let FinalizeRequest { justification_period: period, hash, number, initial_sync } = request;
    let update = lemma_goes_on(client, operation, request, input, before, after, r);
    let (given, outcome) = choose|
        given: AuthoritySet,
        outcome: Result<(C::Operation, AuthoritySet, ChangeStatus), String>,
    |
        given@ == before && #[trigger] call_ensures(
            C::apply_standard_changes,
            (client, operation, given, request.hash, request.number, request.initial_sync),
            outcome,
        ) && (match outcome {
            Err(e) => fails(update, Error::Safety(e)),
            Ok((operation, set, status)) => justifies(
                client,
                operation,
                request,
                input,
                set,
                status,
                update,
            ),
        });
    let (first, next, status) = outcome->Ok_0;
    assert(call_ensures(
        C::apply_standard_changes,
        (client, operation, given, hash, number, initial_sync),
        Ok((first, next, status)),
    ));
    match input {
        JustificationOrCommit::Justification(justification) => {
            let (told, persisted, second, third, fourth, new) = lemma_finalizes(
                client,
                first,
                hash,
                next,
                status,
                true,
                justification,
                update,
            );
            assert(told_to_voter(r.0) == new);
        },
        JustificationOrCommit::Commit((view, commit)) => {
            let (required, made) = choose|
                required: bool,
                made: Result<PbftJustification, Error>,
            |
                {
                    &&& #[trigger] requires_justification(
                        client,
                        request,
                        status.new_set_block is Some,
                        required,
                    )
                    &&& #[trigger] call_ensures(C::from_commit, (client, view, commit), made)
                    &&& match made {
                        Err(e) => {
                            &&& update.result == Err::<
                                (AuthoritySet, Option<NewAuthoritySet>),
                                Error,
                            >(e)
                            &&& update.uncommitted == Some(first)
                        },
                        Ok(justification) => finalizes(
                            client,
                            first,
                            request.hash,
                            next,
                            status,
                            required,
                            justification,
                            update,
                        ),
                    }
                };
            let justification = made->Ok_0;
            let (told, persisted, second, third, fourth, new) = lemma_finalizes(
                client,
                first,
                hash,
                next,
                status,
                required,
                justification,
                update,
            );
            assert(told_to_voter(r.0) == new);
            assert(stored_by_period(
                client,
                period,
                number,
                status.new_set_block is Some,
                persisted is Some,
            ));
        },
    }
}

/// Whenever finalizing a new block is no error, all of it was carried out, and the operation is
/// committed.
pub proof fn law_success_is_carried_out<C: ClientForPbft>(
    client: &C,
    operation: C::Operation,
    set: &mut AuthoritySet,
    period: Option<BlockNumber>,
    hash: BlockHash,
    number: BlockNumber,
    input: JustificationOrCommit,
    initial_sync: bool,
    r: Finalized<C::Operation>,
)
    requires
        call_ensures(
            finalize_block::<C>,
            (client, operation, set, period, hash, number, input, initial_sync),
            r,
        ),
        is_new_block(client, hash, number),
        !(r.0 matches Err(CommandOrError::Error(_))),
    ensures
        r.1 is None,
        carried_out(
            client,
            operation,
            old(set)@,
            final(set)@,
            period,
            hash,
            number,
            input,
            initial_sync,
            r.0,
        ),
{
    let request = FinalizeRequest { justification_period: period, hash, number, initial_sync };
    lemma_carried_out(client, operation, request, input, old(set)@, final(set)@, r);
}

/// A block that by the client's answers is finalized already is left as it is: the outcome is fine,
/// the operation comes back unused, and the set stays. Where the client cannot tell, its error is
/// the outcome, and again the operation comes back and the set stays.
pub proof fn law_finalized_block_is_left<C: ClientForPbft>(
    client: &C,
    operation: C::Operation,
    set: &mut AuthoritySet,
    period: Option<BlockNumber>,
    hash: BlockHash,
    number: BlockNumber,
    input: JustificationOrCommit,
    initial_sync: bool,
    canonical: Result<Option<BlockHash>, ClientError>,
    r: Finalized<C::Operation>,
)
    requires
        call_ensures(
            finalize_block::<C>,
            (client, operation, set, period, hash, number, input, initial_sync),
            r,
        ),
        forall|last: BlockNumber| #[trigger]
            call_ensures(C::finalized_number, (client,), last) ==> number <= last,
        forall|answer: Result<Option<BlockHash>, ClientError>| #[trigger]
            call_ensures(C::hash, (client, number), answer) ==> answer == canonical,
        canonical matches Ok(found) ==> found == Some(hash),
    ensures
        final(set)@ == old(set)@,
        r.1 == Some(operation),
        match canonical {
            Ok(_) => r.0 is Ok,
            Err(e) => r.0 == Err::<(), CommandOrError>(CommandOrError::Error(Error::Client(e))),
        },
{
}

/// Every error in finalizing a block is that of a step which failed, and leaves the set as it was.
/// The operation comes back unused if the client could not tell whether the block is finalized
/// already, and as the standard changes left it if no justification could be made of the commits.
/// The failure of any other step gives it up.
pub proof fn law_error_comes_of_a_step<C: ClientForPbft>(
    client: &C,
    operation: C::Operation,
    set: &mut AuthoritySet,
    period: Option<BlockNumber>,
    hash: BlockHash,
    number: BlockNumber,
    input: JustificationOrCommit,
    initial_sync: bool,
    error: Error,
    uncommitted: Option<C::Operation>,
)
    requires
        call_ensures(
            finalize_block::<C>,
            (client, operation, set, period, hash, number, input, initial_sync),
            (Err(CommandOrError::Error(error)), uncommitted),
        ),
    ensures
        final(set)@ == old(set)@,
        ({
            ||| exists|e: ClientError| #[trigger]
                call_ensures(C::hash, (client, number), Err(e)) && error == Error::Client(e)
                    && uncommitted == Some(operation)
            ||| exists|given: AuthoritySet, e: String| #[trigger]
                call_ensures(
                    C::apply_standard_changes,
                    (client, operation, given, hash, number, initial_sync),
                    Err(e),
                ) && given@ == old(set)@ && error == Error::Safety(e) && uncommitted is None
            ||| exists|
                given: AuthoritySet,
                first: C::Operation,
                next: AuthoritySet,
                status: ChangeStatus,
                view: ViewNumber,
                commit: FinalizedCommit,
            |
                {
                    &&& given@ == old(set)@
                    &&& #[trigger] call_ensures(
                        C::apply_standard_changes,
                        (client, operation, given, hash, number, initial_sync),
                        Ok((first, next, status)),
                    )
                    &&& input == JustificationOrCommit::Commit((view, commit))
                    &&& #[trigger] call_ensures(
                        C::from_commit,
                        (client, view, commit),
                        Err(error),
                    )
                    &&& uncommitted == Some(first)
                }
            ||| exists|
                at: C::Operation,
                persisted: Option<(ConsensusEngineId, Vec<u8>)>,
                e: ClientError,
            | #[trigger]
                call_ensures(C::apply_finality, (client, at, hash, persisted), Err(e)) && error
                    == Error::Client(e) && uncommitted is None
            ||| exists|at: C::Operation, justification: PbftJustification, e: ClientError|
                #[trigger]
                call_ensures(C::update_best_justification, (client, at, &justification), Err(e))
                    && error == Error::Client(e) && uncommitted is None
            ||| exists|
                at: C::Operation,
                next: AuthoritySet,
                new: Option<NewAuthoritySet>,
                e: ClientError,
            | #[trigger]
                call_ensures(C::update_authority_set, (client, at, &next, &new), Err(e)) && error
                    == Error::Client(e) && uncommitted is None
            ||| exists|at: C::Operation, e: ClientError| #[trigger]
                call_ensures(C::commit, (client, at), Err(e)) && error == Error::Client(e)
                    && uncommitted is None
        }),
{
    let request = FinalizeRequest { justification_period: period, hash, number, initial_sync };
    let r = (Err::<(), CommandOrError>(CommandOrError::Error(error)), uncommitted);
    assert(block_finalized(client, operation, request, input, old(set)@, final(set)@, r));
    if update_concludes(client, operation, request, input, old(set)@, final(set)@, r) {
        let update = choose|update: Update<C::Operation>| #[trigger]
            updates(client, operation, request, input, old(set)@, update) && concludes(
                update,
                old(set)@,
                final(set)@,
                r,
            );
        assert(updates(client, operation, request, input, old(set)@, update));
    }
}

} // verus!
