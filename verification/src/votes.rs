//! The state of a view, and the votes that this node has cast in it.
use crate::messages::{AuthorityId, BlockHash, BlockNumber, Commit, IdCode, PrePrepare, Prepare};
use crate::fields::{
    Field, HAS_VOTED_YES_0, HAS_VOTED_YES_1, PUBLIC_0, STATE_COMPLETABLE, STATE_ESTIMATE,
    STATE_FINALIZED, STATE_PREVOTE_GHOST, VOTE_COMMIT_0, VOTE_COMMIT_1, VOTE_COMMIT_2,
    VOTE_PRE_PREPARE_0, VOTE_PREPARE_0, VOTE_PREPARE_1,
};
use crate::scale::{
    begins, chained, lemma_tagged, no_variant, no_variant_byte, unknown, unknown_variant, Codec,
    TOO_SHORT,
};
use finality_grandpa::round::State;
use vstd::prelude::*;

verus! {

/// The state of a view.
#[derive(Clone, Copy, Debug, PartialEq, Eq)]
pub struct ViewState {
    /// The prevote-GHOST block.
    pub prevote_ghost: Option<(BlockHash, BlockNumber)>,
    /// The finalized block.
    pub finalized: Option<(BlockHash, BlockNumber)>,
    /// The new estimate.
    pub estimate: Option<(BlockHash, BlockNumber)>,
    /// Whether the view is completable.
    pub completable: bool,
}

/// The state that a view starts from: everything is at the given block.
pub open spec fn genesis_view_state(genesis: (BlockHash, BlockNumber)) -> ViewState {
    ViewState {
        prevote_ghost: Some(genesis),
        finalized: Some(genesis),
        estimate: Some(genesis),
        completable: true,
    }
}

/// `State::genesis` of `finality_grandpa`: a completable state in which all blocks are the
/// given one.
#[verifier::external_body]
fn round_state_genesis(genesis: (BlockHash, BlockNumber)) -> (r: ViewState)
    ensures
        r == genesis_view_state(genesis),
{
    let state = State::genesis(genesis);
    ViewState {
        prevote_ghost: state.prevote_ghost,
        finalized: state.finalized,
        estimate: state.estimate,
        completable: state.completable,
    }
}

impl ViewState {
    /// The state that a view starts from.
    pub fn genesis(genesis: (BlockHash, BlockNumber)) -> (r: Self)
        ensures
            r == genesis_view_state(genesis),
    {
        round_state_genesis(genesis)
    }
}

/// A block that may be missing.
type MaybeBlock = Option<(BlockHash, BlockNumber)>;

/// The fields of a state, in order.
type StateRow = (
    Field<STATE_PREVOTE_GHOST, MaybeBlock>,
    (
        Field<STATE_FINALIZED, MaybeBlock>,
        (Field<STATE_ESTIMATE, MaybeBlock>, Field<STATE_COMPLETABLE, bool>),
    ),
);

/// The row of the state.
pub open spec fn state_row(v: ViewState) -> (
    Option<(BlockHash, BlockNumber)>,
    (Option<(BlockHash, BlockNumber)>, (Option<(BlockHash, BlockNumber)>, bool)),
) {
    (v.prevote_ghost, (v.finalized, (v.estimate, v.completable)))
}

/// The fields in order.
impl Codec for ViewState {
    type Value = ViewState;

    open spec fn value(&self) -> ViewState {
        *self
    }

    open spec fn fits(v: ViewState) -> bool {
        StateRow::fits(state_row(v))
    }

    open spec fn bytes(v: ViewState) -> Seq<u8> {
        StateRow::bytes(state_row(v))
    }

    open spec fn error(s: Seq<u8>) -> Seq<char> {
        StateRow::error(s)
    }

    proof fn unique(s: Seq<u8>, a: ViewState, b: ViewState) {
        StateRow::unique(s, state_row(a), state_row(b));
    }

    fn encode_to(&self, out: &mut Vec<u8>) {
        (self.prevote_ghost, (self.finalized, (self.estimate, self.completable))).encode_to(out);
    }

    fn decode_at(input: &[u8], at: usize) -> (r: Result<(Self, usize), String>) {
        match StateRow::decode_at(input, at) {
            Ok(((prevote_ghost, (finalized, (estimate, completable))), end)) => Ok(
                (
                    ViewState {
                        prevote_ghost: prevote_ghost.value,
                        finalized: finalized.value,
                        estimate: estimate.value,
                        completable: completable.value,
                    },
                    end,
                ),
            ),
            Err(e) => {
                proof {
                    assert forall|v: ViewState| Self::fits(v) implies !begins(
                        input@.subrange(at as int, input@.len() as int),
                        #[trigger] Self::bytes(v),
                    ) by {
                        assert(Self::bytes(v) == StateRow::bytes(state_row(v)));
                    }
                }
                Err(e)
            },
        }
    }
}

/// The votes cast by this voter already during a prior run of the program.
#[derive(Clone, Copy, Debug, PartialEq, Eq)]
pub enum Vote {
    /// Has cast a proposal.
    PrePrepare(PrePrepare),
    /// Has cast a prevote.
    Prepare(Option<PrePrepare>, Prepare),
    /// Has cast a precommit (implies prevote.)
    Commit(Option<PrePrepare>, Prepare, Commit),
}

/// Whether we've voted already during a prior run of the program.
#[derive(Clone, Copy, Debug, PartialEq, Eq)]
pub enum HasVoted {
    /// Has not voted already in this view.
    No,
    /// Has voted in this view.
    Yes(AuthorityId, Vote),
}

impl HasVoted {
    /// The proposal that was cast, if any.
    pub open spec fn proposal_cast(self) -> Option<PrePrepare> {
        match self {
            HasVoted::Yes(_, Vote::PrePrepare(propose)) => Some(propose),
            HasVoted::Yes(_, Vote::Prepare(propose, _)) => propose,
            HasVoted::Yes(_, Vote::Commit(propose, _, _)) => propose,
            HasVoted::No => None,
        }
    }

    /// The prevote that was cast, if any.
    pub open spec fn prepare_cast(self) -> Option<Prepare> {
        match self {
            HasVoted::Yes(_, Vote::Prepare(_, prepare)) => Some(prepare),
            HasVoted::Yes(_, Vote::Commit(_, prepare, _)) => Some(prepare),
            _ => None,
        }
    }

    /// The precommit that was cast, if any.
    pub open spec fn commit_cast(self) -> Option<Commit> {
        match self {
            HasVoted::Yes(_, Vote::Commit(_, _, commit)) => Some(commit),
            _ => None,
        }
    }

    /// Returns the proposal we should vote with (if any.)
    pub fn pre_prepare(&self) -> (r: Option<&PrePrepare>)
        ensures
            match r {
                Some(x) => self.proposal_cast() == Some(*x),
                None => self.proposal_cast() is None,
            },
    {
        match self {
            HasVoted::Yes(_, Vote::PrePrepare(propose)) => Some(propose),
            HasVoted::Yes(_, Vote::Prepare(propose, _)) => propose.as_ref(),
            HasVoted::Yes(_, Vote::Commit(propose, _, _)) => propose.as_ref(),
            HasVoted::No => None,
        }
    }

    /// Returns the prevote we should vote with (if any.)
    pub fn prepare(&self) -> (r: Option<&Prepare>)
        ensures
            match r {
                Some(x) => self.prepare_cast() == Some(*x),
                None => self.prepare_cast() is None,
            },
    {
        match self {
            HasVoted::Yes(_, Vote::Prepare(_, prepare)) => Some(prepare),
            HasVoted::Yes(_, Vote::Commit(_, prepare, _)) => Some(prepare),
            _ => None,
        }
    }

    /// Returns the precommit we should vote with (if any.)
    pub fn commit(&self) -> (r: Option<&Commit>)
        ensures
            match r {
                Some(x) => self.commit_cast() == Some(*x),
                None => self.commit_cast() is None,
            },
    {
        match self {
            HasVoted::Yes(_, Vote::Commit(_, _, commit)) => Some(commit),
            _ => None,
        }
    }

    /// Returns true if the voter can still propose, false otherwise.
    pub fn can_pre_prepare(&self) -> (r: bool)
        ensures
            r == (self.proposal_cast() is None),
    {
        self.pre_prepare().is_none()
    }

    /// Returns true if the voter can still prevote, false otherwise.
    pub fn can_prepare(&self) -> (r: bool)
        ensures
            r == (self.prepare_cast() is None),
    {
        self.prepare().is_none()
    }

    /// Returns true if the voter can still precommit, false otherwise.
    pub fn can_commit(&self) -> (r: bool)
        ensures
            r == (self.commit_cast() is None),
    {
        self.commit().is_none()
    }
}

/// A precommit implies a prevote: a voter that can no longer precommit can no longer prevote,
/// and a voter that has not voted can do everything.
pub proof fn law_commit_implies_prepare(voted: HasVoted)
    ensures
        voted.commit_cast() is Some ==> voted.prepare_cast() is Some,
        voted is No ==> voted.proposal_cast() is None && voted.prepare_cast() is None
            && voted.commit_cast() is None,
        voted is Yes ==> voted.proposal_cast() is Some || voted.prepare_cast() is Some,
{
}

/// A proposal.
type ProposalRow = Field<VOTE_PRE_PREPARE_0, PrePrepare>;

/// A proposal, if there is one, and a prevote.
type PrepareRow = (Field<VOTE_PREPARE_0, Option<PrePrepare>>, Field<VOTE_PREPARE_1, Prepare>);

/// A proposal, if there is one, a prevote, and a precommit.
type CommitRow = (
    Field<VOTE_COMMIT_0, Option<PrePrepare>>,
    (Field<VOTE_COMMIT_1, Prepare>, Field<VOTE_COMMIT_2, Commit>),
);

spec fn vote_tag(v: Vote) -> u8 {
    match v {
        Vote::PrePrepare(_) => 0,
        Vote::Prepare(_, _) => 1,
        Vote::Commit(_, _, _) => 2,
    }
}

spec fn vote_payload(v: Vote) -> Seq<u8> {
    match v {
        Vote::PrePrepare(x) => ProposalRow::bytes(x),
        Vote::Prepare(x, y) => PrepareRow::bytes((x, y)),
        Vote::Commit(x, y, z) => CommitRow::bytes((x, (y, z))),
    }
}

proof fn lemma_vote_begins(s: Seq<u8>, v: Vote)
    ensures
        begins(s, Vote::bytes(v)) <==> s.len() > 0 && s[0] == vote_tag(v) && begins(
            s.subrange(1, s.len() as int),
            vote_payload(v),
        ),
{
    lemma_tagged(s, vote_tag(v), vote_payload(v));
}

/// A byte that tells the kind, and the votes cast.
impl Codec for Vote {
    type Value = Vote;

    open spec fn value(&self) -> Vote {
        *self
    }

    open spec fn fits(v: Vote) -> bool {
        true
    }

    open spec fn bytes(v: Vote) -> Seq<u8> {
        match v {
            Vote::PrePrepare(x) => seq![0u8] + ProposalRow::bytes(x),
            Vote::Prepare(x, y) => seq![1u8] + PrepareRow::bytes((x, y)),
            Vote::Commit(x, y, z) => seq![2u8] + CommitRow::bytes(
                (x, (y, z)),
            ),
        }
    }

    open spec fn error(s: Seq<u8>) -> Seq<char> {
        let rest = s.subrange(1, s.len() as int);
        if s.len() == 0 {
            no_variant("Vote"@)
        } else if s[0] == 0 {
            ProposalRow::error(rest)
        } else if s[0] == 1 {
            PrepareRow::error(rest)
        } else if s[0] == 2 {
            CommitRow::error(rest)
        } else {
            unknown("Vote"@)
        }
    }

    proof fn unique(s: Seq<u8>, a: Vote, b: Vote) {
        lemma_vote_begins(s, a);
        lemma_vote_begins(s, b);
        let t = s.subrange(1, s.len() as int);
        match (a, b) {
            (Vote::PrePrepare(x), Vote::PrePrepare(y)) => ProposalRow::unique(t, x, y),
            (Vote::Prepare(x1, x2), Vote::Prepare(y1, y2)) => {
                PrepareRow::unique(t, (x1, x2), (y1, y2))
            },
            (Vote::Commit(x1, x2, x3), Vote::Commit(y1, y2, y3)) => {
                CommitRow::unique(
                    t,
                    (x1, (x2, x3)),
                    (y1, (y2, y3)),
                )
            },
            _ => {},
        }
    }

    fn encode_to(&self, out: &mut Vec<u8>) {
        let ghost before = out@;
        match self {
            Vote::PrePrepare(x) => {
                out.push(0);
                x.encode_to(out);
            },
            Vote::Prepare(x, y) => {
                out.push(1);
                x.encode_to(out);
                y.encode_to(out);
            },
            Vote::Commit(x, y, z) => {
                out.push(2);
                x.encode_to(out);
                y.encode_to(out);
                z.encode_to(out);
            },
        }
        assert(out@ =~= before + Self::bytes(*self));
    }

    fn decode_at(input: &[u8], at: usize) -> (r: Result<(Self, usize), String>) {
        let ghost rest = input@.subrange(at as int, input@.len() as int);
        proof {
            assert forall|v: Vote| begins(rest, #[trigger] Self::bytes(v)) implies rest.len() > 0
                && rest[0] == vote_tag(v) && begins(
                input@.subrange(at + 1, input@.len() as int),
                vote_payload(v),
            ) by {
                lemma_vote_begins(rest, v);
                assert(rest.subrange(1, rest.len() as int) =~= input@.subrange(
                    at + 1,
                    input@.len() as int,
                ));
            }
        }
        if at >= input.len() {
            return Err(no_variant_byte("Vote"));
        }
        let tag: u8 = input[at];
        assert(rest.subrange(1, rest.len() as int) =~= input@.subrange(
            at + 1,
            input@.len() as int,
        ));
        let found = if tag == 0 {
            match ProposalRow::decode_at(input, at + 1) {
                Ok((x, end)) => Ok((Vote::PrePrepare(x.value), end)),
                Err(e) => Err(e),
            }
        } else if tag == 1 {
            match PrepareRow::decode_at(input, at + 1) {
                Ok(((x, y), end)) => Ok((Vote::Prepare(x.value, y.value), end)),
                Err(e) => Err(e),
            }
        } else if tag == 2 {
            match CommitRow::decode_at(input, at + 1) {
                Ok(((x, (y, z)), end)) => Ok(
                    (Vote::Commit(x.value, y.value, z.value), end),
                ),
                Err(e) => Err(e),
            }
        } else {
            Err(unknown_variant("Vote"))
        };
        proof {
            if let Ok((v, end)) = found {
                assert(input@.subrange(at as int, end as int) =~= seq![tag] + input@.subrange(
                    at + 1,
                    end as int,
                ));
            }
        }
        found
    }
}

/// Who voted, and what.
type VotedRow = (Field<HAS_VOTED_YES_0, IdCode>, Field<HAS_VOTED_YES_1, Vote>);

/// A byte that tells whether there is a vote, and the voter and vote.
impl Codec for HasVoted {
    type Value = HasVoted;

    open spec fn value(&self) -> HasVoted {
        *self
    }

    open spec fn fits(v: HasVoted) -> bool {
        true
    }

    open spec fn bytes(v: HasVoted) -> Seq<u8> {
        match v {
            HasVoted::No => seq![0u8],
            HasVoted::Yes(id, vote) => seq![1u8] + VotedRow::bytes((id, vote)),
        }
    }

    open spec fn error(s: Seq<u8>) -> Seq<char> {
        if s.len() == 0 {
            no_variant("HasVoted"@)
        } else if s[0] == 1 {
            VotedRow::error(s.subrange(1, s.len() as int))
        } else {
            unknown("HasVoted"@)
        }
    }

    proof fn unique(s: Seq<u8>, a: HasVoted, b: HasVoted) {
        lemma_voted_begins(s, a);
        lemma_voted_begins(s, b);
        if let (HasVoted::Yes(a1, a2), HasVoted::Yes(b1, b2)) = (a, b) {
            VotedRow::unique(s.subrange(1, s.len() as int), (a1, a2), (b1, b2));
        }
    }

    fn encode_to(&self, out: &mut Vec<u8>) {
        let ghost before = out@;
        match self {
            HasVoted::No => {
                out.push(0);
            },
            HasVoted::Yes(id, vote) => {
                out.push(1);
                id.encode_to(out);
                vote.encode_to(out);
            },
        }
        assert(out@ =~= before + Self::bytes(*self));
    }

    fn decode_at(input: &[u8], at: usize) -> (r: Result<(Self, usize), String>) {
        let ghost rest = input@.subrange(at as int, input@.len() as int);
        let ghost tail = input@.subrange(at + 1, input@.len() as int);
        proof {
            assert forall|v: HasVoted| begins(rest, #[trigger] Self::bytes(v)) implies rest.len()
                > 0 && rest[0] == voted_tag(v) && (v matches HasVoted::Yes(id, vote) ==> begins(
                tail,
                VotedRow::bytes((id, vote)),
            )) by {
                lemma_voted_begins(rest, v);
                assert(rest.subrange(1, rest.len() as int) =~= tail);
            }
        }
        if at >= input.len() {
            return Err(no_variant_byte("HasVoted"));
        }
        let tag: u8 = input[at];
        assert(rest.subrange(1, rest.len() as int) =~= tail);
        assert(input@.subrange(at as int, at + 1) =~= seq![tag]);
        if tag == 0 {
            Ok((HasVoted::No, at + 1))
        } else if tag == 1 {
            match VotedRow::decode_at(input, at + 1) {
                Ok(((id, vote), end)) => {
                    assert(input@.subrange(at as int, end as int) =~= seq![tag] + input@.subrange(
                        at + 1,
                        end as int,
                    ));
                    Ok((HasVoted::Yes(id.value.value.value, vote.value), end))
                },
                Err(e) => Err(e),
            }
        } else {
            Err(unknown_variant("HasVoted"))
        }
    }
}

spec fn voted_tag(v: HasVoted) -> u8 {
    match v {
        HasVoted::No => 0,
        HasVoted::Yes(_, _) => 1,
    }
}

proof fn lemma_voted_begins(s: Seq<u8>, v: HasVoted)
    ensures
        begins(s, HasVoted::bytes(v)) ==> s.len() > 0 && s[0] == voted_tag(v) && (
        v matches HasVoted::Yes(id, vote) ==> begins(
            s.subrange(1, s.len() as int),
            VotedRow::bytes((id, vote)),
        )),
{
    match v {
        HasVoted::No => {
            if begins(s, HasVoted::bytes(v)) {
                assert(s.subrange(0, 1)[0] == s[0]);
            }
        },
        HasVoted::Yes(id, vote) => lemma_tagged(s, 1u8, VotedRow::bytes((id, vote))),
    }
}

/// Each vote that was cast is given again, whoever cast it: a proposal as the proposal, a prevote
/// with the proposal before it, and a precommit with the prevote and the proposal before it. What
/// was not cast is not given, and can still be cast.
pub proof fn law_votes_cast_are_given(
    voted: HasVoted,
    proposal: Option<&PrePrepare>,
    prepare: Option<&Prepare>,
    commit: Option<&Commit>,
    can: (bool, bool, bool),
)
    requires
        call_ensures(HasVoted::pre_prepare, (&voted,), proposal),
        call_ensures(HasVoted::prepare, (&voted,), prepare),
        call_ensures(HasVoted::commit, (&voted,), commit),
        call_ensures(HasVoted::can_pre_prepare, (&voted,), can.0),
        call_ensures(HasVoted::can_prepare, (&voted,), can.1),
        call_ensures(HasVoted::can_commit, (&voted,), can.2),
    ensures
        can == (proposal is None, prepare is None, commit is None),
        voted is No ==> can == (true, true, true),
        voted matches HasVoted::Yes(_, Vote::PrePrepare(p)) ==> proposal == Some(&p)
            && prepare is None && commit is None,
        voted matches HasVoted::Yes(_, Vote::Prepare(o, v)) ==> {
            &&& o matches Some(p) ==> proposal == Some(&p)
            &&& o is None ==> proposal is None
            &&& prepare == Some(&v)
            &&& commit is None
        },
        voted matches HasVoted::Yes(_, Vote::Commit(o, v, c)) ==> {
            &&& o matches Some(p) ==> proposal == Some(&p)
            &&& o is None ==> proposal is None
            &&& prepare == Some(&v)
            &&& commit == Some(&c)
        },
{
}

/// A view that starts from a block has its prevote ghost, its finalized block and its estimate
/// there, and is completable.
pub proof fn law_view_starts_from_a_block(block: (BlockHash, BlockNumber), r: ViewState)
    requires
        call_ensures(ViewState::genesis, (block,), r),
    ensures
        r.prevote_ghost == Some(block),
        r.finalized == Some(block),
        r.estimate == Some(block),
        r.completable,
{
}

/// The encodings of the state of a view and of what was voted: the fields one behind the other,
/// with a byte in front that counts the variants.
pub proof fn law_vote_encodings(
    state: ViewState,
    id: AuthorityId,
    vote: Vote,
    p: PrePrepare,
    o: Option<PrePrepare>,
    v: Prepare,
    c: Commit,
)
    ensures
        ViewState::bytes(state) == Option::<(BlockHash, BlockNumber)>::bytes(state.prevote_ghost)
            + Option::<(BlockHash, BlockNumber)>::bytes(state.finalized) + Option::<
            (BlockHash, BlockNumber),
        >::bytes(state.estimate) + bool::bytes(state.completable),
        Vote::bytes(Vote::PrePrepare(p)) == seq![0u8] + PrePrepare::bytes(p),
        Vote::bytes(Vote::Prepare(o, v)) == seq![1u8] + Option::<PrePrepare>::bytes(o)
            + Prepare::bytes(v),
        Vote::bytes(Vote::Commit(o, v, c)) == seq![2u8] + Option::<PrePrepare>::bytes(o)
            + Prepare::bytes(v) + Commit::bytes(c),
        HasVoted::bytes(HasVoted::No) == seq![0u8],
        HasVoted::bytes(HasVoted::Yes(id, vote)) == seq![1u8] + id@ + Vote::bytes(vote),
        ViewState::fits(state) && Vote::fits(vote) && HasVoted::fits(HasVoted::Yes(id, vote)),
{
    assert(ViewState::bytes(state) =~= Option::<(BlockHash, BlockNumber)>::bytes(
        state.prevote_ghost,
    ) + Option::<(BlockHash, BlockNumber)>::bytes(state.finalized) + Option::<
        (BlockHash, BlockNumber),
    >::bytes(state.estimate) + bool::bytes(state.completable));
    assert(Vote::bytes(Vote::Prepare(o, v)) =~= seq![1u8] + Option::<PrePrepare>::bytes(o)
        + Prepare::bytes(v));
    assert(Vote::bytes(Vote::Commit(o, v, c)) =~= seq![2u8] + Option::<PrePrepare>::bytes(o)
        + Prepare::bytes(v) + Commit::bytes(c));
    assert(HasVoted::bytes(HasVoted::Yes(id, vote)) =~= seq![1u8] + id@ + Vote::bytes(vote));
}

/// What is said of bytes that hold no state of a view: which of its fields cannot be read, the
/// first one at fault, and what is said of that field.
pub proof fn law_view_state_errors(s: Seq<u8>)
    ensures
        ViewState::error(s)
            == <(
                Field<STATE_PREVOTE_GHOST, Option<(BlockHash, BlockNumber)>>,
                (
                    Field<STATE_FINALIZED, Option<(BlockHash, BlockNumber)>>,
                    (
                        Field<
                            STATE_ESTIMATE,
                            Option<(BlockHash, BlockNumber)>,
                        >,
                        Field<STATE_COMPLETABLE, bool>,
                    ),
                ),
            )>::error(s),
{
}

/// What is said of bytes that hold no vote: that the first byte is missing or stands for nothing,
/// or which field behind it cannot be read, and what is said of that field.
pub proof fn law_vote_errors(s: Seq<u8>)
    ensures
        Vote::error(Seq::empty()) == chained(
            "Could not decode `"@ + "Vote"@ + "`, failed to read variant byte"@,
            TOO_SHORT@,
        ),
        s.len() > 0 && s[0] != 0 && s[0] != 1 && s[0] != 2 ==> Vote::error(s)
            == "Could not decode `"@ + "Vote"@ + "`, variant doesn't exist"@,
        s.len() > 0 && s[0] == 0 ==> Vote::error(s)
            == Field::<VOTE_PRE_PREPARE_0, PrePrepare>::error(s.subrange(1, s.len() as int)),
        s.len() > 0 && s[0] == 1 ==> Vote::error(s)
            == <(
                Field<VOTE_PREPARE_0, Option<PrePrepare>>,
                Field<VOTE_PREPARE_1, Prepare>,
            )>::error(s.subrange(1, s.len() as int)),
        s.len() > 0 && s[0] == 2 ==> Vote::error(s)
            == <(
                Field<VOTE_COMMIT_0, Option<PrePrepare>>,
                (
                    Field<VOTE_COMMIT_1, Prepare>,
                    Field<VOTE_COMMIT_2, Commit>,
                ),
            )>::error(s.subrange(1, s.len() as int)),
{
}

/// What is said of bytes that hold no note of a vote: that the first byte is missing or stands
/// for nothing, or which field behind it cannot be read, and what is said of that field.
pub proof fn law_has_voted_errors(s: Seq<u8>)
    ensures
        HasVoted::error(Seq::empty()) == chained(
            "Could not decode `"@ + "HasVoted"@ + "`, failed to read variant byte"@,
            TOO_SHORT@,
        ),
        s.len() > 0 && s[0] != 0 && s[0] != 1 ==> HasVoted::error(s)
            == "Could not decode `"@ + "HasVoted"@ + "`, variant doesn't exist"@,
        s.len() > 0 && s[0] == 1 ==> HasVoted::error(s)
            == <(
                Field<
                    HAS_VOTED_YES_0,
                    Field<PUBLIC_0, Field<PUBLIC_0, AuthorityId>>,
                >,
                Field<HAS_VOTED_YES_1, Vote>,
            )>::error(s.subrange(1, s.len() as int)),
{
}

} // verus!
