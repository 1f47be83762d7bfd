//! What the voter runs on: the voters, the authority set, and what was voted and completed.
use crate::authorities::{AuthoritySet, AuthoritySetView};
use crate::aux_schema::{write_voter_set_state, AuxWrite, PersistentData, SET_STATE_KEY};
use crate::completed::CompletedView;
use crate::config::Config;
use crate::error::{ClientError, CommandOrError, Error, NewAuthoritySet, VoterCommand};
use crate::finalize::{
    block_finalized, carried_out, finalize_block, is_new_block, law_announces_the_current_set,
    lemma_carried_out, lemma_goes_on,
    period_serves, updates, ChangeStatus, ClientForPbft, FinalizeRequest, Finalized,
    FinalizedCommit, JustificationOrCommit,
};
use crate::gossip::{
    global_communication, is_global_communication, law_key_holder_sends, view_communication,
    GlobalCommunication,
    OutgoingMessages, ViewCommunication,
};
use crate::ids;
use crate::messages::{same_bytes, AuthorityId, BlockHash, BlockNumber, SetId, ViewNumber};
use crate::topics::{blake2_256, view_text, view_topic, TopicHash};
use crate::voter_set_state::{
    law_live_state, live_state, record_bytes, record_fits, record_of, SharedVoterSetState,
    SharedVoterSetStateView, VoterSetState, VoterSetStateView,
};
use crate::voters::{
    denied_before, in_order, is_local_id, lemma_times_listed_counts, listed_weights,
    local_authority_id, voter_ids, voter_weights, voters_of,
};
use crate::votes::{HasVoted, Vote};
use finality_grandpa::voter_set::VoterSet;
use vstd::prelude::*;
use vstd::utf8::encode_utf8;

verus! {

/// The environment we run PBFT in.
pub struct Environment {
    /// The voters of the set that is voted in.
    pub voters: VoterSet<AuthorityId>,
    /// The id of the set that is voted in.
    pub set_id: SetId,
    /// The authority set, which can be ahead of the set that is voted in.
    pub authority_set: AuthoritySet,
    /// What was voted and completed.
    pub voter_set_state: SharedVoterSetState,
    /// The configuration.
    pub config: Config,
}

/// The voters of a set are its authorities, in order, each with the weight of its listings.
pub open spec fn are_voters(voters: VoterSet<AuthorityId>, authorities: Seq<AuthorityId>) -> bool {
    &&& in_order(voter_ids(voters))
    &&& forall|id: AuthorityId| #[trigger]
        voter_ids(voters).contains(id) <==> authorities.contains(id)
    &&& voter_weights(voters) == listed_weights(authorities)
}

/// What is needed to vote in a view.
pub struct RoundData {
    /// Who we vote as, if anyone.
    pub voter_id: Option<AuthorityId>,
    /// What we have voted already, under the same id.
    pub has_voted: HasVoted,
    /// The topic and the key of the view.
    pub communication: ViewCommunication,
}

/// The vote to take up again: the one that was cast, if it was cast under the local id.
pub open spec fn own_vote(cast: HasVoted, local_id: Option<AuthorityId>) -> HasVoted {
    match cast {
        HasVoted::Yes(id, vote) => if local_id == Some(id) {
            cast
        } else {
            HasVoted::No
        },
        HasVoted::No => HasVoted::No,
    }
}

/// What the voter is to be started with.
pub enum VoterPlan {
    /// The voter runs on top of the last completed view.
    Run {
        /// What the global messages go through.
        global: GlobalCommunication,
        /// The last completed view.
        last_completed: CompletedView,
        /// The last finalized block.
        last_finalized: (BlockHash, BlockNumber),
    },
    /// The voter does nothing.
    Pending,
}

impl Environment {
    /// The environment for the data of an earlier run, or of the first.
    pub fn new(persistent_data: PersistentData, config: Config) -> (r: Self)
        requires
            persistent_data@.authority_set.current_authorities.len() > 0,
        ensures
            are_voters(r.voters, persistent_data@.authority_set.current_authorities),
            r.set_id == persistent_data@.authority_set.set_id,
            r.authority_set@ == persistent_data@.authority_set,
            r.voter_set_state@ == persistent_data.set_state@,
            r.config == config,
    {
        let voters = persistent_data.authority_set.current_voters().unwrap();
        Environment {
            voters,
            set_id: persistent_data.authority_set.set_id,
            authority_set: persistent_data.authority_set,
            voter_set_state: persistent_data.set_state,
            config,
        }
    }

    /// Begins a view: finds the local id among the voters, notes that we vote under it, and
    /// takes up the vote that was cast under it before, if any.
    pub fn round_data<F: Fn(&AuthorityId) -> bool>(
        &mut self,
        view: ViewNumber,
        keystore: Option<F>,
    ) -> (r: RoundData)
        requires
            keystore matches Some(has_keys) ==> forall|id: &AuthorityId|
                call_requires(has_keys, (id,)),
        ensures
            is_local_id(voter_ids(old(self).voters), keystore, r.voter_id),
            r.has_voted == own_vote(old(self).voter_set_state@.state.vote_in(view), r.voter_id),
            r.communication.voters@ == voter_ids(old(self).voters),
            r.communication.outgoing == (OutgoingMessages {
                view,
                set_id: old(self).set_id,
                signer: r.voter_id,
                has_voted: r.has_voted,
            }),
            r.communication.topic@ == blake2_256(
                encode_utf8(view_text(view, old(self).set_id)),
            ),
            final(self).voters == old(self).voters,
            final(self).set_id == old(self).set_id,
            final(self).authority_set == old(self).authority_set,
            final(self).config == old(self).config,
            final(self).voter_set_state@ == (SharedVoterSetStateView {
                voting: match r.voter_id {
                    Some(id) => old(self).voter_set_state@.voting.insert(view, id),
                    None => old(self).voter_set_state@.voting,
                },
                ..old(self).voter_set_state@
            }),
    {
        let local_id = local_authority_id(&self.voters, keystore);
        let has_voted = match self.voter_set_state.has_voted(view) {
            HasVoted::Yes(id, vote) => {
                let same = match &local_id {
                    Some(local) => same_bytes(local, &id),
                    None => false,
                };
                if same {
                    HasVoted::Yes(id, vote)
                } else {
                    HasVoted::No
                }
            },
            HasVoted::No => HasVoted::No,
        };
        if let Some(id) = local_id {
            self.voter_set_state.started_voting_on(view, id);
        }
        let communication = view_communication(
            local_id,
            ids::View(view),
            ids::SetId(self.set_id),
            &self.voters,
            has_voted,
        );
        RoundData { voter_id: local_id, has_voted, communication }
    }

    /// Finalizes a block by the commits of a view, with the configured period of justifications.
    pub fn finalize_block<C: ClientForPbft>(
        &mut self,
        client: &C,
        operation: C::Operation,
        view: ViewNumber,
        hash: BlockHash,
        number: BlockNumber,
        f_commit: FinalizedCommit,
    ) -> (r: Finalized<C::Operation>)
        requires
            period_serves(
                client,
                operation,
                (FinalizeRequest {
                    justification_period: Some(old(self).config.justification_period as u64),
                    hash,
                    number,
                    initial_sync: false,
                }),
                JustificationOrCommit::Commit((view, f_commit)),
                old(self).authority_set@,
            ),
        ensures
            block_finalized(
                client,
                operation,
                (FinalizeRequest {
                    justification_period: Some(old(self).config.justification_period as u64),
                    hash,
                    number,
                    initial_sync: false,
                }),
                JustificationOrCommit::Commit((view, f_commit)),
                old(self).authority_set@,
                final(self).authority_set@,
                r,
            ),
            final(self).voters == old(self).voters,
            final(self).set_id == old(self).set_id,
            final(self).voter_set_state == old(self).voter_set_state,
            final(self).config == old(self).config,
    {
        finalize_block(
            client,
            operation,
            &mut self.authority_set,
            Some(self.config.justification_period as u64),
            hash,
            number,
            JustificationOrCommit::from((view, f_commit)),
            false,
        )
    }

    /// Whether a proposal may be made. When an authority set change is finalized through the
    /// sync protocol, the authority set is ahead of the set that is voted in until the voter
    /// is told; meanwhile nothing is proposed.
    pub fn may_propose(&self) -> (r: bool)
        ensures
            r == (self.set_id == self.authority_set@.set_id),
    {
        self.set_id == self.authority_set.set_id
    }

    /// What the voter is to be rebuilt with. This method should be called when we know that the
    /// authority set has changed (e.g. as signalled by a voter command).
    pub fn rebuild_voter<F: Fn(&AuthorityId) -> bool>(
        &self,
        last_finalized: (BlockHash, BlockNumber),
        keystore: Option<F>,
    ) -> (r: VoterPlan)
        requires
            self.voter_set_state@.state is Live
                ==> self.voter_set_state@.state.completed_views().views.len() > 0,
            keystore matches Some(has_keys) ==> forall|id: &AuthorityId|
                call_requires(has_keys, (id,)),
        ensures
            match self.voter_set_state@.state {
                VoterSetStateView::Live { completed, .. } => {
                    &&& r matches VoterPlan::Run { global, last_completed, last_finalized: last }
                    &&& is_global_communication(self.set_id, self.voters, keystore, global)
                    &&& last_completed@ == completed.views.first()
                    &&& last == last_finalized
                },
                VoterSetStateView::Paused { .. } => r is Pending,
            },
    {
        match self.voter_set_state.read() {
            VoterSetState::Live { completed_views, .. } => VoterPlan::Run {
                global: global_communication(ids::SetId(self.set_id), &self.voters, keystore),
                last_completed: completed_views.last().clone(),
                last_finalized,
            },
            VoterSetState::Paused { .. } => VoterPlan::Pending,
        }
    }

    /// Carries out a command to the voter: the new voter set state is written, and held once it
    /// is. Gives what a change of the state gives. The voter is to be rebuilt afterwards.
    pub fn handle_voter_command<W: FnOnce(AuxWrite) -> Result<(), ClientError>>(
        &mut self,
        command: VoterCommand,
        write: W,
    ) -> (r: Result<Option<ViewNumber>, Error>)
        requires
            forall|write_out: AuxWrite| call_requires(write, (write_out,)),
            record_fits(
                record_of(
                    state_after(
                        command,
                        old(self).authority_set@,
                        old(self).voter_set_state@.state,
                    ),
                ),
            ),
            command matches VoterCommand::ChangeAuthorities(new) ==> new.authorities@.len() > 0,
        ensures
            final(self).authority_set == old(self).authority_set,
            final(self).config == old(self).config,
            exists|write_out: AuxWrite, done: Result<(), ClientError>|
                {
                    let state = state_after(
                        command,
                        old(self).authority_set@,
                        old(self).voter_set_state@.state,
                    );
                    &&& write_out.key@ == SET_STATE_KEY@
                    &&& write_out.value@ == record_bytes(record_of(state))
                    &&& #[trigger] call_ensures(write, (write_out,), done)
                    &&& match done {
                        Ok(_) => {
                            &&& r == Ok::<Option<ViewNumber>, Error>(
                                match command {
                                    VoterCommand::ChangeAuthorities(_) => Some(0u64),
                                    VoterCommand::Pause(_) => None,
                                },
                            )
                            &&& final(self).voter_set_state@ == SharedVoterSetStateView {
                                state,
                                ..old(self).voter_set_state@
                            }
                            &&& match command {
                                VoterCommand::ChangeAuthorities(new) => {
                                    &&& are_voters(final(self).voters, new.authorities@)
                                    &&& final(self).set_id == new.set_id
                                },
                                VoterCommand::Pause(_) => {
                                    &&& final(self).voters == old(self).voters
                                    &&& final(self).set_id == old(self).set_id
                                },
                            }
                        },
                        Err(e) => {
                            &&& r == Err::<Option<ViewNumber>, Error>(Error::Client(e))
                            &&& final(self).voter_set_state@ == old(self).voter_set_state@
                            &&& final(self).voters == old(self).voters
                            &&& final(self).set_id == old(self).set_id
                        },
                    }
                },
    {
        let set_state = match &command {
            // start the new authority set using the block where the
            // set changed (not where the signal happened!) as the base.
            VoterCommand::ChangeAuthorities(new) => VoterSetState::live(
                new.set_id,
                &self.authority_set,
                (new.canon_hash, new.canon_number),
            ),
            VoterCommand::Pause(_) => VoterSetState::Paused {
                completed_views: self.voter_set_state.read().completed_views(),
            },
        };
        let write_out = write_voter_set_state(&set_state);
        match write(write_out) {
            Ok(_) => {},
            Err(e) => {
                return Err(Error::from(e));
            },
        }
        let replace = move |_state: &VoterSetState| -> (r: Result<Option<VoterSetState>, Error>)
            ensures
                r matches Ok(Some(state)) && state == set_state,
        { Ok(Some(set_state)) };
        let highest = self.voter_set_state.update_voter_set_state(replace);
        if let VoterCommand::ChangeAuthorities(new) = command {
            self.voters = voters_of(&new.authorities).unwrap();
            self.set_id = new.set_id;
        }
        highest
    }
}

/// The voter set state that a command asks for: the start of the new set at the block where the
/// set changed, or a pause that keeps what is completed.
pub open spec fn state_after(
    command: VoterCommand,
    authority_set: AuthoritySetView,
    state: VoterSetStateView,
) -> VoterSetStateView {
    match command {
        VoterCommand::ChangeAuthorities(new) => live_state(
            new.set_id,
            authority_set.current_authorities,
            (new.canon_hash, new.canon_number),
        ),
        VoterCommand::Pause(_) => VoterSetStateView::Paused { completed: state.completed_views() },
    }
}

/// Once the command that finalizing a block gives is carried out, the voter is in step with the
/// authority set: it votes in the current set, with the current authorities, starting from the
/// block at which the set took over.
pub proof fn law_voter_follows_the_set<C: ClientForPbft>(
    client: &C,
    operation: C::Operation,
    request: FinalizeRequest,
    input: JustificationOrCommit,
    before: AuthoritySetView,
    after: AuthoritySetView,
    new: NewAuthoritySet,
    uncommitted: Option<C::Operation>,
    state: VoterSetStateView,
    voters: VoterSet<AuthorityId>,
    set_id: SetId,
)
    requires
        block_finalized(
            client,
            operation,
            request,
            input,
            before,
            after,
            (
                Err(CommandOrError::VoterCommand(VoterCommand::ChangeAuthorities(new))),
                uncommitted,
            ),
        ),
        are_voters(voters, new.authorities@),
        set_id == new.set_id,
    ensures
        set_id == after.set_id,
        are_voters(voters, after.current_authorities),
        state_after(VoterCommand::ChangeAuthorities(new), after, state) == live_state(
            after.set_id,
            after.current_authorities,
            (new.canon_hash, new.canon_number),
        ),
{
    law_announces_the_current_set(
        client,
        operation,
        request,
        input,
        before,
        after,
        VoterCommand::ChangeAuthorities(new),
        uncommitted,
    );
}

/// A vote that was cast in a view is taken up again in that view under the same key, and under
/// no other.
pub proof fn law_vote_is_taken_up(
    state: VoterSetStateView,
    view: ViewNumber,
    id: AuthorityId,
    vote: Vote,
    local_id: Option<AuthorityId>,
)
    requires
        state matches VoterSetStateView::Live { current, .. } && current.contains_key(view)
            && current[view] == HasVoted::Yes(id, vote),
    ensures
        own_vote(state.vote_in(view), local_id) == (if local_id == Some(id) {
            HasVoted::Yes(id, vote)
        } else {
            HasVoted::No
        }),
{
}

/// A pause keeps the completed views, and pausing again changes nothing.
pub proof fn law_pause_keeps_completed(
    reason: String,
    again: String,
    authority_set: AuthoritySetView,
    state: VoterSetStateView,
)
    ensures
        ({
            let paused = state_after(VoterCommand::Pause(reason), authority_set, state);
            &&& paused.completed_views() == state.completed_views()
            &&& state_after(VoterCommand::Pause(again), authority_set, paused) == paused
        }),
{
}

/// When a view begins, the node votes as a voter of the set whose key the keystore has, and
/// whenever the keystore has the key of a voter, whichever that is, the node votes. Its signer is
/// who it votes as, and it is noted to vote on the view under that id.
pub proof fn law_holder_of_a_key_votes<F: Fn(&AuthorityId) -> bool>(
    env: &mut Environment,
    view: ViewNumber,
    has_keys: F,
    own: AuthorityId,
    r: RoundData,
)
    requires
        call_ensures(Environment::round_data::<F>, (env, view, Some(has_keys)), r),
    ensures
        r.communication.outgoing.signer == r.voter_id,
        r.voter_id matches Some(id) ==> {
            &&& voter_ids(old(env).voters).contains(id)
            &&& call_ensures(has_keys, (&id,), true)
            &&& final(env).voter_set_state@.voting.contains_key(view)
            &&& final(env).voter_set_state@.voting[view] == id
        },
        r.voter_id is None ==> {
            &&& voter_ids(old(env).voters).contains(own) ==> call_ensures(has_keys, (&own,), false)
            &&& final(env).voter_set_state@.voting == old(env).voter_set_state@.voting
        },
        voter_ids(old(env).voters).contains(own) && !call_ensures(has_keys, (&own,), false)
            ==> r.voter_id is Some,
{
    let ids = voter_ids(old(env).voters);
    assert(is_local_id(ids, Some(has_keys), r.voter_id));
    if ids.contains(own) {
        let m = choose|m: int| 0 <= m < ids.len() && ids[m] == own;
        assert(ids[m] == own);
    }
    if let Some(id) = r.voter_id {
        let n = choose|n: int|
            {
                &&& 0 <= n < ids.len()
                &&& #[trigger] ids[n] == id
                &&& call_ensures(has_keys, (&id,), true)
                &&& denied_before(has_keys, ids, n)
            };
        assert(ids.contains(id));
    }
}

/// Without a keystore the node does not vote.
pub proof fn law_no_keystore_no_vote<F: Fn(&AuthorityId) -> bool>(
    env: &mut Environment,
    view: ViewNumber,
    r: RoundData,
)
    requires
        call_ensures(Environment::round_data::<F>, (env, view, None), r),
    ensures
        r.voter_id is None,
        r.communication.outgoing.signer is None,
        r.has_voted is No,
        final(env).voter_set_state@ == old(env).voter_set_state@,
{
}

/// When a view begins, the vote that is taken up is one that the live state notes for the view, and
/// was cast under the id that the node votes as. Every such vote is taken up. It is handed on to
/// where the votes of the view go out, for the view and the set that is voted in.
pub proof fn law_earlier_vote_is_taken_up<F: Fn(&AuthorityId) -> bool>(
    env: &mut Environment,
    view: ViewNumber,
    keystore: Option<F>,
    id: AuthorityId,
    vote: Vote,
    r: RoundData,
)
    requires
        call_ensures(Environment::round_data::<F>, (env, view, keystore), r),
    ensures
        r.has_voted == HasVoted::Yes(id, vote) <==> r.voter_id == Some(id) && (
        old(env).voter_set_state@.state matches VoterSetStateView::Live { current, .. }
            && current.contains_key(view) && current[view] == HasVoted::Yes(id, vote)),
        r.communication.outgoing.has_voted == r.has_voted,
        r.communication.outgoing.view == view,
        r.communication.outgoing.set_id == old(env).set_id,
        r.communication.voters@ == voter_ids(old(env).voters),
        forall|topic: TopicHash| #[trigger]
            call_ensures(view_topic, (view, old(env).set_id), topic) ==> r.communication.topic@
                == topic@,
{
}

/// Beginning a view leaves the environment as it is, but for what is voted on in that view.
pub proof fn law_view_begins_by_itself<F: Fn(&AuthorityId) -> bool>(
    env: &mut Environment,
    view: ViewNumber,
    keystore: Option<F>,
    other: ViewNumber,
    r: RoundData,
)
    requires
        call_ensures(Environment::round_data::<F>, (env, view, keystore), r),
        other != view,
    ensures
        final(env).voters == old(env).voters,
        final(env).set_id == old(env).set_id,
        final(env).authority_set == old(env).authority_set,
        final(env).config == old(env).config,
        final(env).voter_set_state@.state == old(env).voter_set_state@.state,
        final(env).voter_set_state@.voting.contains_key(other)
            == old(env).voter_set_state@.voting.contains_key(other),
        final(env).voter_set_state@.voting[other] == old(env).voter_set_state@.voting[other],
{
}

/// A change of authorities that is carried out is one whose state was written. The voter then votes
/// in the new set, with the new authorities as the voters. It starts at the block of the change:
/// the one completed view, view 0, has no votes, is completable and has everything at that block,
/// and view 1 runs with no vote cast. Where the write failed, its error is given and nothing
/// changes.
pub proof fn law_change_starts_at_the_block<W: FnOnce(AuxWrite) -> Result<(), ClientError>>(
    env: &mut Environment,
    new: NewAuthoritySet,
    write: W,
    r: Result<Option<ViewNumber>, Error>,
    id: AuthorityId,
)
    requires
        call_ensures(
            Environment::handle_voter_command::<W>,
            (env, VoterCommand::ChangeAuthorities(new), write),
            r,
        ),
    ensures
        final(env).authority_set == old(env).authority_set,
        final(env).config == old(env).config,
        final(env).voter_set_state@.voting == old(env).voter_set_state@.voting,
        match r {
            Ok(highest) => {
                &&& highest == Some(0u64)
                &&& final(env).set_id == new.set_id
                &&& voter_ids(final(env).voters).contains(id) <==> new.authorities@.contains(id)
                &&& new.authorities@.contains(id) ==> voter_weights(final(env).voters)[id]
                    == new.authorities@.to_multiset().count(id)
                &&& final(env).voter_set_state@.state matches VoterSetStateView::Live {
                    completed,
                    current,
                }
                &&& completed.set_id == new.set_id
                &&& completed.voters == old(env).authority_set@.current_authorities
                &&& completed.views.len() == 1
                &&& completed.views[0].number == 0
                &&& completed.views[0].votes.len() == 0
                &&& completed.views[0].base == (new.canon_hash, new.canon_number)
                &&& completed.views[0].state.prevote_ghost == Some(
                    (new.canon_hash, new.canon_number),
                )
                &&& completed.views[0].state.finalized == Some((new.canon_hash, new.canon_number))
                &&& completed.views[0].state.estimate == Some((new.canon_hash, new.canon_number))
                &&& completed.views[0].state.completable
                &&& forall|view: ViewNumber| #[trigger] current.contains_key(view) <==> view == 1
                &&& current[1] == HasVoted::No
                &&& exists|out: AuxWrite| #[trigger]
                    call_ensures(write, (out,), Ok(())) && is_written(
                        out,
                        final(env).voter_set_state@.state,
                    )
            },
            Err(e) => {
                &&& final(env).set_id == old(env).set_id
                &&& final(env).voters == old(env).voters
                &&& final(env).voter_set_state@.state == old(env).voter_set_state@.state
                &&& e matches Error::Client(failure)
                &&& exists|out: AuxWrite| #[trigger] call_ensures(write, (out,), Err(failure))
            },
        },
{
    lemma_times_listed_counts(new.authorities@, id);
    law_live_state(
        new.set_id,
        old(env).authority_set@.current_authorities,
        (new.canon_hash, new.canon_number),
    );
    lemma_done(write);
}

/// What is written under the key of the voter set state is that state.
pub open spec fn is_written(out: AuxWrite, state: VoterSetStateView) -> bool {
    out.key@ == SET_STATE_KEY@ && out.value@ == record_bytes(record_of(state))
}

proof fn lemma_done<W: FnOnce(AuxWrite) -> Result<(), ClientError>>(write: W)
    ensures
        forall|out: AuxWrite, done: Result<(), ClientError>| #[trigger]
            call_ensures(write, (out,), done) && done is Ok ==> call_ensures(
                write,
                (out,),
                Ok(()),
            ),
{
    assert forall|out: AuxWrite, done: Result<(), ClientError>| #[trigger]
        call_ensures(write, (out,), done) && done is Ok implies call_ensures(
        write,
        (out,),
        Ok(()),
    ) by {
        assert(done->Ok_0 == ());
        assert(done == Ok::<(), ClientError>(()));
    }
}

/// A pause that is carried out is one that was written. What is completed stays, the voter is
/// paused, and the voters and the set that is voted in stay. Where the write failed, its error is
/// given and nothing changes.
pub proof fn law_pause_is_kept<W: FnOnce(AuxWrite) -> Result<(), ClientError>>(
    env: &mut Environment,
    reason: String,
    write: W,
    r: Result<Option<ViewNumber>, Error>,
)
    requires
        call_ensures(
            Environment::handle_voter_command::<W>,
            (env, VoterCommand::Pause(reason), write),
            r,
        ),
    ensures
        final(env).authority_set == old(env).authority_set,
        final(env).config == old(env).config,
        final(env).set_id == old(env).set_id,
        final(env).voters == old(env).voters,
        final(env).voter_set_state@.voting == old(env).voter_set_state@.voting,
        match r {
            Ok(highest) => {
                &&& highest is None
                &&& final(env).voter_set_state@.state matches VoterSetStateView::Paused {
                    completed,
                }
                &&& match old(env).voter_set_state@.state {
                    VoterSetStateView::Live { completed: before, .. } => completed == before,
                    VoterSetStateView::Paused { completed: before } => completed == before,
                }
                &&& exists|out: AuxWrite| #[trigger]
                    call_ensures(write, (out,), Ok(())) && is_written(
                        out,
                        final(env).voter_set_state@.state,
                    )
            },
            Err(e) => {
                &&& final(env).voter_set_state@.state == old(env).voter_set_state@.state
                &&& e matches Error::Client(failure)
                &&& exists|out: AuxWrite| #[trigger] call_ensures(write, (out,), Err(failure))
            },
        },
{
    lemma_done(write);
}

/// A proposal may be made from the start. It may no longer be made once the authority set has gone
/// on to another id, until a change of authorities to that set is carried out.
pub proof fn law_proposals_wait_for_the_change<W: FnOnce(AuxWrite) -> Result<(), ClientError>>(
    data: PersistentData,
    config: Config,
    started: Environment,
    at_start: bool,
    env: &mut Environment,
    new: NewAuthoritySet,
    write: W,
    highest: Option<ViewNumber>,
    before: bool,
    after: bool,
)
    requires
        call_ensures(Environment::new, (data, config), started),
        call_ensures(Environment::may_propose, (&started,), at_start),
        call_ensures(
            Environment::handle_voter_command::<W>,
            (env, VoterCommand::ChangeAuthorities(new), write),
            Ok(highest),
        ),
        new.set_id == old(env).authority_set@.set_id,
        call_ensures(Environment::may_propose, (&*old(env),), before),
        call_ensures(Environment::may_propose, (&*final(env),), after),
    ensures
        at_start,
        before <==> old(env).set_id == old(env).authority_set@.set_id,
        after,
{
}

/// A new environment votes in the set that the data holds, with its current authorities as the
/// voters, and holds the data as it is.
pub proof fn law_new_environment(
    data: PersistentData,
    config: Config,
    r: Environment,
    id: AuthorityId,
)
    requires
        call_ensures(Environment::new, (data, config), r),
    ensures
        r.set_id == data.authority_set@.set_id,
        voter_ids(r.voters).contains(id) <==> data.authority_set@.current_authorities.contains(id),
        data.authority_set@.current_authorities.contains(id) ==> voter_weights(r.voters)[id]
            == data.authority_set@.current_authorities.to_multiset().count(id),
        r.authority_set@ == data.authority_set@,
        r.voter_set_state@ == data.set_state@,
        r.config == config,
{
    lemma_times_listed_counts(data.authority_set@.current_authorities, id);
}

/// The voter of a live set runs on top of its last completed view and the last finalized block. It
/// sends global messages of the set if the node has the key of a voter, and does not without a
/// keystore. A paused voter does nothing.
pub proof fn law_live_voter_runs<F: Fn(&AuthorityId) -> bool>(
    env: Environment,
    last_finalized: (BlockHash, BlockNumber),
    keystore: Option<F>,
    own: AuthorityId,
    r: VoterPlan,
)
    requires
        call_ensures(Environment::rebuild_voter::<F>, (&env, last_finalized, keystore), r),
    ensures
        r is Pending <==> env.voter_set_state@.state is Paused,
        r matches VoterPlan::Run { global, last_completed, last_finalized: last } ==> {
            &&& last == last_finalized
            &&& env.voter_set_state@.state matches VoterSetStateView::Live { completed, .. }
            &&& last_completed@ == completed.views[0]
            &&& global.voters@ == voter_ids(env.voters)
            &&& global.outgoing.set() == env.set_id
            &&& keystore is None ==> !global.outgoing.voter()
            &&& keystore matches Some(has_keys) ==> {
                &&& voter_ids(env.voters).contains(own) && !call_ensures(has_keys, (&own,), false)
                    ==> global.outgoing.voter()
                &&& global.outgoing.voter() ==> exists|id: AuthorityId| #[trigger]
                    voter_ids(env.voters).contains(id) && call_ensures(has_keys, (&id,), true)
            }
        },
{
    if let VoterPlan::Run { global, .. } = r {
        law_key_holder_sends(env.set_id, env.voters, keystore, own, global);
    }
}

/// When a new block is finalized by the commits of a view and a set takes over, the voter is told
/// to change to that set, with the block at which it took over, unless a step fails. What is voted
/// in stays until the voter does, and so does what was voted and completed.
pub proof fn law_voter_is_told_of_the_set<C: ClientForPbft>(
    env: &mut Environment,
    client: &C,
    operation: C::Operation,
    view: ViewNumber,
    hash: BlockHash,
    number: BlockNumber,
    commit: FinalizedCommit,
    applied: AuthoritySetView,
    new_set_block: Option<(BlockHash, BlockNumber)>,
    r: Finalized<C::Operation>,
)
    requires
        call_ensures(
            Environment::finalize_block::<C>,
            (env, client, operation, view, hash, number, commit),
            r,
        ),
        is_new_block(client, hash, number),
        forall|
            given: AuthoritySet,
            outcome: Result<(C::Operation, AuthoritySet, ChangeStatus), String>,
        |
            given@ == old(env).authority_set@ && #[trigger] call_ensures(
                C::apply_standard_changes,
                (client, operation, given, hash, number, false),
                outcome,
            ) ==> (outcome matches Ok((_, next, status)) && next@ == applied
                && status.new_set_block == new_set_block),
    ensures
        final(env).voters == old(env).voters,
        final(env).set_id == old(env).set_id,
        final(env).voter_set_state == old(env).voter_set_state,
        final(env).config == old(env).config,
        match r.0 {
            Ok(_) => new_set_block is None && final(env).authority_set@ == applied,
            Err(CommandOrError::VoterCommand(VoterCommand::ChangeAuthorities(new))) => {
                &&& new_set_block == Some((new.canon_hash, new.canon_number))
                &&& new.set_id == applied.set_id
                &&& new.authorities@ == applied.current_authorities
                &&& final(env).authority_set@ == applied
            },
            Err(CommandOrError::VoterCommand(VoterCommand::Pause(_))) => false,
            Err(CommandOrError::Error(_)) => final(env).authority_set@ == old(env).authority_set@,
        },
{
    let request = FinalizeRequest {
        justification_period: Some(old(env).config.justification_period as u64),
        hash,
        number,
        initial_sync: false,
    };
    let input = JustificationOrCommit::Commit((view, commit));
    let (before, after) = (old(env).authority_set@, final(env).authority_set@);
    let update = lemma_goes_on(client, operation, request, input, before, after, r);
    assert(updates(client, operation, request, input, before, update));
}

/// Whenever finalizing a new block by the commits of a view is no error, all of it was carried out:
/// outside of the initial sync, and with a justification made of those commits, which is stored as
/// the configured period asks.
pub proof fn law_commits_finalize_the_block<C: ClientForPbft>(
    env: &mut Environment,
    client: &C,
    operation: C::Operation,
    view: ViewNumber,
    hash: BlockHash,
    number: BlockNumber,
    commit: FinalizedCommit,
    r: Finalized<C::Operation>,
)
    requires
        call_ensures(
            Environment::finalize_block::<C>,
            (env, client, operation, view, hash, number, commit),
            r,
        ),
        is_new_block(client, hash, number),
        !(r.0 matches Err(CommandOrError::Error(_))),
    ensures
        r.1 is None,
        carried_out(
            client,
            operation,
            old(env).authority_set@,
            final(env).authority_set@,
            Some(old(env).config.justification_period as u64),
            hash,
            number,
            JustificationOrCommit::Commit((view, commit)),
            false,
            r.0,
        ),
{
    let request = FinalizeRequest {
        justification_period: Some(old(env).config.justification_period as u64),
        hash,
        number,
        initial_sync: false,
    };
    let input = JustificationOrCommit::Commit((view, commit));
    let (before, after) = (old(env).authority_set@, final(env).authority_set@);
    lemma_carried_out(client, operation, request, input, before, after, r);
}

} // verus!
