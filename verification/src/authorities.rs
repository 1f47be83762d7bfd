//! The set of authorities and its changes.
use crate::fields::{
    Field, AUTHORITY_SET_AUTHORITY_SET_CHANGES, AUTHORITY_SET_CHANGES_0,
    AUTHORITY_SET_CURRENT_AUTHORITIES, AUTHORITY_SET_PENDING_FORCED_CHANGES,
    AUTHORITY_SET_PENDING_STANDARD_CHANGES, AUTHORITY_SET_SET_ID,
};
use crate::messages::{
    copy_ids, AuthorityId, AuthorityList, BlockHash, BlockNumber, Ids, SetId,
};
use crate::pending::{
    views_of, PendingChange, PendingChangeView, PendingForest, PendingTree,
};
use crate::scale::{begins, le_bytes, Codec};
use crate::voters::{
    in_order, lemma_times_listed_counts, listed_weights, voter_ids, voter_weights, voters_of,
};
use finality_grandpa::voter_set::VoterSet;
use vstd::prelude::*;

verus! {

/// Tracks historical authority set changes. We store the block numbers for the last block
/// of each authority set, once they have been finalized. These blocks are guaranteed to
/// have a justification unless they were triggered by a forced change.
#[derive(Clone, Debug, PartialEq, Eq)]
pub struct AuthoritySetChanges<N>(pub Vec<(u64, N)>);

/// A set of authorities.
#[derive(Debug)]
pub struct AuthoritySet {
    /// The current active authorities.
    pub current_authorities: AuthorityList,
    /// The current set id.
    pub set_id: SetId,
    /// Tree of pending standard changes across forks. Standard changes are
    /// enacted on finality and must be enacted (i.e. finalized) in-order across
    /// a given branch
    pub pending_standard_changes: PendingTree,
    /// Pending forced changes across different forks (at most one per fork).
    /// Forced changes are enacted on block depth (not finality), for this
    /// reason only one forced change should exist per fork.
    pub pending_forced_changes: Vec<PendingChange<BlockHash, BlockNumber>>,
    /// Track at which blocks the set id changed. This is useful when we need to prove finality
    /// for a given block since we can figure out what set the block belongs to and when the
    /// set started/ended.
    pub authority_set_changes: AuthoritySetChanges<BlockNumber>,
}

/// What an authority set holds.
#[verifier::ext_equal]
pub struct AuthoritySetView {
    /// The current active authorities.
    pub current_authorities: Seq<AuthorityId>,
    /// The current set id.
    pub set_id: SetId,
    /// The pending standard changes.
    pub pending_standard_changes: PendingForest,
    /// The pending forced changes.
    pub pending_forced_changes: Seq<PendingChangeView<BlockHash, BlockNumber>>,
    /// The last blocks of the earlier sets.
    pub authority_set_changes: Seq<(u64, BlockNumber)>,
}

impl View for AuthoritySet {
    type V = AuthoritySetView;

    open spec fn view(&self) -> AuthoritySetView {
        AuthoritySetView {
            current_authorities: self.current_authorities@,
            set_id: self.set_id,
            pending_standard_changes: self.pending_standard_changes@,
            pending_forced_changes: views_of(self.pending_forced_changes@),
            authority_set_changes: self.authority_set_changes.0@,
        }
    }
}

/// The set to start with: the given authorities, with no change pending or made.
pub open spec fn genesis_set(initial: Seq<AuthorityId>) -> AuthoritySetView {
    AuthoritySetView {
        current_authorities: initial,
        set_id: 0,
        pending_standard_changes: PendingForest { roots: Seq::empty(), best: None },
        pending_forced_changes: Seq::empty(),
        authority_set_changes: Seq::empty(),
    }
}

impl AuthoritySet {
    /// The set to start with. There is none without authorities.
    pub fn genesis(initial: AuthorityList) -> (r: Option<Self>)
        ensures
            r is Some <==> initial@.len() > 0,
            r matches Some(set) ==> set@ == genesis_set(initial@),
    {
        if initial.len() == 0 {
            return None;
        }
        let set = AuthoritySet {
            current_authorities: initial,
            set_id: 0,
            pending_standard_changes: PendingTree::new(),
            pending_forced_changes: Vec::new(),
            authority_set_changes: AuthoritySetChanges(Vec::new()),
        };
        assert(set@ =~= genesis_set(initial@));
        Some(set)
    }

    /// The current set id and authorities.
    pub fn current(&self) -> (r: (SetId, &[AuthorityId]))
        ensures
            r.0 == self@.set_id,
            r.1@ == self@.current_authorities,
    {
        (self.set_id, self.current_authorities.as_slice())
    }

    /// The current authorities as voters. There are none without authorities.
    pub fn current_voters(&self) -> (r: Option<VoterSet<AuthorityId>>)
        ensures
            r is Some <==> self@.current_authorities.len() > 0,
            r matches Some(voters) ==> {
                &&& in_order(voter_ids(voters))
                &&& forall|id: AuthorityId| #[trigger]
                    voter_ids(voters).contains(id) <==> self@.current_authorities.contains(id)
                &&& voter_weights(voters) == listed_weights(self@.current_authorities)
            },
    {
        voters_of(&self.current_authorities)
    }
}

fn copy_changes(changes: &Vec<PendingChange<BlockHash, BlockNumber>>) -> (r: Vec<
    PendingChange<BlockHash, BlockNumber>,
>)
    ensures
        views_of(r@) == views_of(changes@),
{
    let mut copy: Vec<PendingChange<BlockHash, BlockNumber>> = Vec::new();
    for i in 0..changes.len()
        invariant
            copy@.len() == i,
            forall|j: int| 0 <= j < i ==> (#[trigger] copy@[j])@ == changes@[j]@,
    {
        copy.push(changes[i].clone());
    }
    assert(views_of(copy@) =~= views_of(changes@));
    copy
}

fn copy_pairs(pairs: &Vec<(u64, BlockNumber)>) -> (r: Vec<(u64, BlockNumber)>)
    ensures
        r@ == pairs@,
{
    let mut copy: Vec<(u64, BlockNumber)> = Vec::new();
    for i in 0..pairs.len()
        invariant
            copy@.len() == i,
            forall|j: int| 0 <= j < i ==> #[trigger] copy@[j] == pairs@[j],
    {
        copy.push(pairs[i]);
    }
    assert(copy@ =~= pairs@);
    copy
}

impl Clone for AuthoritySet {
    fn clone(&self) -> (r: Self)
        ensures
            r@ == self@,
    {
        AuthoritySet {
            current_authorities: copy_ids(self.current_authorities.as_slice()),
            set_id: self.set_id,
            pending_standard_changes: self.pending_standard_changes.clone(),
            pending_forced_changes: copy_changes(&self.pending_forced_changes),
            authority_set_changes: AuthoritySetChanges(copy_pairs(&self.authority_set_changes.0)),
        }
    }
}

/// The fields of an authority set in the order in which they are written.
type SetRow = (
    Field<AUTHORITY_SET_CURRENT_AUTHORITIES, Ids>,
    (
        Field<AUTHORITY_SET_SET_ID, SetId>,
        (
            Field<AUTHORITY_SET_PENDING_STANDARD_CHANGES, PendingTree>,
            (
                Field<
                    AUTHORITY_SET_PENDING_FORCED_CHANGES,
                    Vec<PendingChange<BlockHash, BlockNumber>>,
                >,
                Field<
                    AUTHORITY_SET_AUTHORITY_SET_CHANGES,
                    Field<AUTHORITY_SET_CHANGES_0, Vec<(u64, BlockNumber)>>,
                >,
            ),
        ),
    ),
);

/// What the fields stand for.
pub open spec fn set_row(v: AuthoritySetView) -> (
    Seq<AuthorityId>,
    (
        SetId,
        (PendingForest, (Seq<PendingChangeView<BlockHash, BlockNumber>>, Seq<(u64, BlockNumber)>)),
    ),
) {
    (
        v.current_authorities,
        (
            v.set_id,
            (
                v.pending_standard_changes,
                (v.pending_forced_changes, v.authority_set_changes),
            ),
        ),
    )
}

/// The fields in order.
impl Codec for AuthoritySet {
    type Value = AuthoritySetView;

    open spec fn value(&self) -> AuthoritySetView {
        self@
    }

    open spec fn fits(v: AuthoritySetView) -> bool {
        SetRow::fits(set_row(v))
    }

    open spec fn bytes(v: AuthoritySetView) -> Seq<u8> {
        SetRow::bytes(set_row(v))
    }

    open spec fn error(s: Seq<u8>) -> Seq<char> {
        SetRow::error(s)
    }

    proof fn unique(s: Seq<u8>, a: AuthoritySetView, b: AuthoritySetView) {
        SetRow::unique(s, set_row(a), set_row(b));
    }

    fn encode_to(&self, out: &mut Vec<u8>) {
        let ghost before = out@;
        proof {
            assert(self.current_authorities.value() =~= self.current_authorities@);
            assert(self.pending_forced_changes.value() =~= views_of(self.pending_forced_changes@));
            assert(self.authority_set_changes.0.value() =~= self.authority_set_changes.0@);
        }
        self.current_authorities.encode_to(out);
        self.set_id.encode_to(out);
        self.pending_standard_changes.encode_to(out);
        self.pending_forced_changes.encode_to(out);
        self.authority_set_changes.0.encode_to(out);
        assert(out@ =~= before + Self::bytes(self@));
    }

    fn decode_at(input: &[u8], at: usize) -> (r: Result<(Self, usize), String>) {
        match SetRow::decode_at(input, at) {
            Ok((row, end)) => {
                proof {
                    let (forced, changes) = row.1.1.1;
                    assert(forced.value.value() =~= views_of(forced.value@));
                    assert(changes.value.value.value() =~= changes.value.value@);
                }
                let (authorities, (set_id, (tree, (forced, changes)))) = row;
                let set = AuthoritySet {
                    current_authorities: authorities.value.ids,
                    set_id: set_id.value,
                    pending_standard_changes: tree.value,
                    pending_forced_changes: forced.value,
                    authority_set_changes: AuthoritySetChanges(changes.value.value),
                };
                assert(set_row(set@) == row.value());
                Ok((set, end))
            },
            Err(e) => {
                proof {
                    assert forall|v: AuthoritySetView| Self::fits(v) implies !begins(
                        input@.subrange(at as int, input@.len() as int),
                        #[trigger] Self::bytes(v),
                    ) by {
                        assert(Self::bytes(v) == SetRow::bytes(set_row(v)));
                    }
                }
                Err(e)
            },
        }
    }
}

/// The set to start with has the given authorities, in their order, has the id 0, and has no
/// change pending or made. There is none without authorities.
pub proof fn law_set_to_start_with(
    initial: AuthorityList,
    r: Option<AuthoritySet>,
    current: (SetId, &[AuthorityId]),
)
    requires
        call_ensures(AuthoritySet::genesis, (initial,), r),
        r matches Some(set) ==> call_ensures(AuthoritySet::current, (&set,), current),
    ensures
        r is None <==> initial@.len() == 0,
        r matches Some(set) ==> {
            &&& current.0 == 0
            &&& current.1@ == initial@
            &&& set@.current_authorities == initial@
            &&& set@.set_id == 0
            &&& set@.pending_standard_changes.roots.len() == 0
            &&& set@.pending_standard_changes.best is None
            &&& set@.pending_forced_changes.len() == 0
            &&& set@.authority_set_changes.len() == 0
        },
{
}

/// The voters of the set are its current authorities, each with the weight of its listings.
pub proof fn law_current_authorities_vote(
    set: AuthoritySet,
    r: Option<VoterSet<AuthorityId>>,
    id: AuthorityId,
)
    requires
        call_ensures(AuthoritySet::current_voters, (&set,), r),
    ensures
        r is None <==> set@.current_authorities.len() == 0,
        r matches Some(voters) ==> {
            &&& voter_ids(voters).contains(id) <==> set@.current_authorities.contains(id)
            &&& set@.current_authorities.contains(id) ==> voter_weights(voters)[id]
                == set@.current_authorities.to_multiset().count(id)
        },
{
    lemma_times_listed_counts(set@.current_authorities, id);
}

/// The encoding of a set: the authorities, the id, the pending standard changes, the pending forced
/// changes, and the changes made.
pub proof fn law_set_encoding(v: AuthoritySetView)
    ensures
        AuthoritySet::bytes(v) == Vec::<AuthorityId>::bytes(v.current_authorities) + le_bytes(
            v.set_id as nat,
            8,
        ) + PendingTree::bytes(v.pending_standard_changes) + Vec::<
            PendingChange<BlockHash, BlockNumber>,
        >::bytes(v.pending_forced_changes) + Vec::<(u64, BlockNumber)>::bytes(
            v.authority_set_changes,
        ),
        AuthoritySet::fits(v) <==> v.current_authorities.len() <= u32::MAX && PendingTree::fits(
            v.pending_standard_changes,
        ) && Vec::<PendingChange<BlockHash, BlockNumber>>::fits(v.pending_forced_changes)
            && v.authority_set_changes.len() <= u32::MAX,
{
    assert(AuthoritySet::bytes(v) =~= Vec::<AuthorityId>::bytes(v.current_authorities) + le_bytes(
        v.set_id as nat,
        8,
    ) + PendingTree::bytes(v.pending_standard_changes) + Vec::<
        PendingChange<BlockHash, BlockNumber>,
    >::bytes(v.pending_forced_changes) + Vec::<(u64, BlockNumber)>::bytes(
        v.authority_set_changes,
    ));
}

/// What is said of bytes that hold no authority set: which of its fields cannot be read, the
/// first one at fault, and what is said of that field.
pub proof fn law_authority_set_errors(s: Seq<u8>)
    ensures
        AuthoritySet::error(s)
            == <(
                Field<AUTHORITY_SET_CURRENT_AUTHORITIES, Ids>,
                (
                    Field<AUTHORITY_SET_SET_ID, SetId>,
                    (
                        Field<
                            AUTHORITY_SET_PENDING_STANDARD_CHANGES,
                            PendingTree,
                        >,
                        (
                            Field<
                                AUTHORITY_SET_PENDING_FORCED_CHANGES,
                                Vec<PendingChange<BlockHash, BlockNumber>>,
                            >,
                            Field<
                                AUTHORITY_SET_AUTHORITY_SET_CHANGES,
                                Field<
                                    AUTHORITY_SET_CHANGES_0,
                                    Vec<(u64, BlockNumber)>,
                                >,
                            >,
                        ),
                    ),
                ),
            )>::error(s),
{
}

/// A clone of a set holds what the set holds.
pub proof fn law_cloned_set(set: AuthoritySet, r: AuthoritySet)
    requires
        call_ensures(<AuthoritySet as Clone>::clone, (&set,), r),
    ensures
        r@.current_authorities == set@.current_authorities,
        r@.set_id == set@.set_id,
        r@.pending_standard_changes == set@.pending_standard_changes,
        r@.pending_forced_changes == set@.pending_forced_changes,
        r@.authority_set_changes == set@.authority_set_changes,
{
}

} // verus!
