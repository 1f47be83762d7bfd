//! The set of voters of a view.
use crate::messages::{AuthorityId, AuthorityList};
use finality_grandpa::voter_set::VoterSet;
use vstd::prelude::*;

verus! {

/// `VoterSet` of `finality_grandpa`: a non-empty set of voters, each with a weight.
#[verifier::external_type_specification]
#[verifier::external_body]
#[verifier::reject_recursive_types(Id)]
pub struct ExVoterSet<Id: Eq + Ord>(VoterSet<Id>);

/// The voters of a set, in the order in which the set keeps them.
pub uninterp spec fn voter_ids(set: VoterSet<AuthorityId>) -> Seq<AuthorityId>;

/// The weight of each voter of a set.
pub uninterp spec fn voter_weights(set: VoterSet<AuthorityId>) -> Map<AuthorityId, nat>;

/// The order of byte strings by their first differing byte.
pub open spec fn bytes_less(a: Seq<u8>, b: Seq<u8>) -> bool {
    exists|i: int|
        {
            &&& 0 <= i < a.len()
            &&& i < b.len()
            &&& a.subrange(0, i) == b.subrange(0, i)
            &&& a[i] < #[trigger] b[i]
        }
}

/// The voters come in increasing order of their keys, so none comes twice.
pub open spec fn in_order(ids: Seq<AuthorityId>) -> bool {
    forall|i: int, j: int|
        0 <= i < j < ids.len() ==> bytes_less(#[trigger] ids[i]@, #[trigger] ids[j]@)
}

/// The sum of the weights.
pub open spec fn total_weight(weights: Seq<(AuthorityId, u64)>) -> nat
    decreases weights.len(),
{
    if weights.len() == 0 {
        0
    } else {
        total_weight(weights.drop_last()) + weights.last().1 as nat
    }
}

/// `id` comes with a weight other than zero.
pub open spec fn has_weight(weights: Seq<(AuthorityId, u64)>, id: AuthorityId) -> bool {
    exists|i: int| 0 <= i < weights.len() && (#[trigger] weights[i]).0 == id && weights[i].1 != 0
}

/// The sum of the weights that come with `id`.
pub open spec fn weight_of(weights: Seq<(AuthorityId, u64)>, id: AuthorityId) -> nat
    decreases weights.len(),
{
    if weights.len() == 0 {
        0
    } else if weights.last().0 == id {
        weight_of(weights.drop_last(), id) + weights.last().1 as nat
    } else {
        weight_of(weights.drop_last(), id)
    }
}

/// For each id that comes with a weight other than zero, the sum of its weights.
pub open spec fn weights_by_id(weights: Seq<(AuthorityId, u64)>) -> Map<AuthorityId, nat> {
    Map::new(|id: AuthorityId| has_weight(weights, id), |id: AuthorityId| weight_of(weights, id))
}

/// The weights make up a set: one of them is not zero, and a `u64` holds their sum.
pub open spec fn valid_weights(weights: Seq<(AuthorityId, u64)>) -> bool {
    &&& exists|id: AuthorityId| has_weight(weights, id)
    &&& total_weight(weights) <= u64::MAX
}

/// `VoterSet::new` of `finality_grandpa`: the ids that come with a weight other than zero, in
/// increasing order and each once, with the sum of the weights that come with it. There is no set
/// if there is no such id, or if the weights add up to more than `u64::MAX`.
#[verifier::external_body]
fn voter_set_new(weights: Vec<(AuthorityId, u64)>) -> (r: Option<VoterSet<AuthorityId>>)
    ensures
        r is Some <==> valid_weights(weights@),
        r matches Some(set) ==> in_order(voter_ids(set)) && (forall|id: AuthorityId| #[trigger]
            voter_ids(set).contains(id) <==> has_weight(weights@, id)),
        r matches Some(set) ==> voter_weights(set) == weights_by_id(weights@),
{
    VoterSet::new(weights)
}

/// `VoterSet::nth` of `finality_grandpa`: the voter at position `n` of the set's order, which is
/// kept in a vector.
#[verifier::external_body]
fn voter_set_nth(set: &VoterSet<AuthorityId>, n: usize) -> (r: Option<AuthorityId>)
    ensures
        r == (if n < voter_ids(*set).len() {
            Some(voter_ids(*set)[n as int])
        } else {
            None
        }),
        r is Some ==> voter_ids(*set).len() <= usize::MAX,
{
    set.nth(n).map(|voter| *voter.0)
}

/// `VoterSet::contains` of `finality_grandpa`: whether the id is among the voters.
#[verifier::external_body]
fn voter_set_contains(set: &VoterSet<AuthorityId>, id: &AuthorityId) -> (r: bool)
    ensures
        r == voter_ids(*set).contains(*id),
{
    set.contains(id)
}

proof fn lemma_unit_weights(weights: Seq<(AuthorityId, u64)>)
    requires
        forall|i: int| 0 <= i < weights.len() ==> (#[trigger] weights[i]).1 == 1,
    ensures
        total_weight(weights) == weights.len(),
    decreases weights.len(),
{
    if weights.len() > 0 {
        lemma_unit_weights(weights.drop_last());
    }
}

/// How often `id` is listed.
pub open spec fn times_listed(ids: Seq<AuthorityId>, id: AuthorityId) -> nat
    decreases ids.len(),
{
    if ids.len() == 0 {
        0
    } else if ids.last() == id {
        times_listed(ids.drop_last(), id) + 1
    } else {
        times_listed(ids.drop_last(), id)
    }
}

proof fn lemma_times_listed(
    weights: Seq<(AuthorityId, u64)>,
    ids: Seq<AuthorityId>,
    id: AuthorityId,
)
    requires
        weights.len() == ids.len(),
        forall|i: int| 0 <= i < ids.len() ==> #[trigger] weights[i] == (ids[i], 1u64),
    ensures
        weight_of(weights, id) == times_listed(ids, id),
    decreases ids.len(),
{
    if ids.len() > 0 {
        lemma_times_listed(weights.drop_last(), ids.drop_last(), id);
    }
}

/// The listed authorities weigh as often as they are listed.
pub open spec fn listed_weights(ids: Seq<AuthorityId>) -> Map<AuthorityId, nat> {
    Map::new(|id: AuthorityId| ids.contains(id), |id: AuthorityId| times_listed(ids, id))
}

/// Where no authority is listed twice, all have the same weight.
pub proof fn law_equal_weights(ids: Seq<AuthorityId>, id: AuthorityId)
    requires
        ids.no_duplicates(),
        ids.contains(id),
    ensures
        listed_weights(ids).contains_key(id),
        listed_weights(ids)[id] == 1,
{
    lemma_listed_once(ids, id);
}

proof fn lemma_listed_once(ids: Seq<AuthorityId>, id: AuthorityId)
    requires
        ids.no_duplicates(),
    ensures
        times_listed(ids, id) == (if ids.contains(id) {
            1nat
        } else {
            0nat
        }),
    decreases ids.len(),
{
    if ids.len() > 0 {
        let front = ids.drop_last();
        lemma_listed_once(front, id);
        assert(ids == front.push(ids.last()));
        if ids.last() == id {
            assert(ids[ids.len() - 1] == id);
            if front.contains(id) {
                let i = choose|i: int| 0 <= i < front.len() && front[i] == id;
                assert(ids[i] == id);
            }
        } else if ids.contains(id) {
            let i = choose|i: int| 0 <= i < ids.len() && ids[i] == id;
            assert(front[i] == id);
        } else if front.contains(id) {
            let i = choose|i: int| 0 <= i < front.len() && front[i] == id;
            assert(ids[i] == id);
        }
    }
}

/// The set of the listed authorities, each with a weight of one for every time it is listed.
/// There is none for an empty list.
pub fn voters_of(authorities: &AuthorityList) -> (r: Option<VoterSet<AuthorityId>>)
    ensures
        r is Some <==> authorities@.len() > 0,
        r matches Some(set) ==> {
            &&& in_order(voter_ids(set))
            &&& forall|id: AuthorityId| #[trigger]
                voter_ids(set).contains(id) <==> authorities@.contains(id)
            &&& voter_weights(set) == listed_weights(authorities@)
        },
{
    let mut weights: Vec<(AuthorityId, u64)> = Vec::new();
    for i in 0..authorities.len()
        invariant
            weights@.len() == i,
            forall|j: int|
                0 <= j < i ==> #[trigger] weights@[j] == (authorities@[j], 1u64),
    {
        weights.push((authorities[i], 1));
    }
    proof {
        lemma_unit_weights(weights@);
        assert(weights@.len() <= usize::MAX);
        assert forall|id: AuthorityId| #[trigger]
            has_weight(weights@, id) <==> authorities@.contains(id) by {
            if authorities@.contains(id) {
                let i = choose|i: int| 0 <= i < authorities@.len() && authorities@[i] == id;
                assert(weights@[i].0 == id);
            }
        }
        assert forall|id: AuthorityId| #[trigger]
            weight_of(weights@, id) == times_listed(authorities@, id) by {
            lemma_times_listed(weights@, authorities@, id);
        }
        assert(weights_by_id(weights@) =~= listed_weights(authorities@));
        if authorities@.len() > 0 {
            assert(authorities@.contains(authorities@[0]));
            assert(has_weight(weights@, authorities@[0]));
        }
    }
    voter_set_new(weights)
}

/// Whether the id is among the voters.
pub fn is_voter(voters: &VoterSet<AuthorityId>, id: &AuthorityId) -> (r: bool)
    ensures
        r == voter_ids(*voters).contains(*id),
{
    voter_set_contains(voters, id)
}

/// The voters of the set, in its order.
pub fn voter_list(voters: &VoterSet<AuthorityId>) -> (r: AuthorityList)
    ensures
        r@ == voter_ids(*voters),
{
    let mut list: AuthorityList = Vec::new();
    let ghost ids = voter_ids(*voters);
    loop
        invariant
            ids == voter_ids(*voters),
            list@.len() <= ids.len(),
            list@ == ids.subrange(0, list@.len() as int),
        decreases ids.len() - list@.len(),
    {
        let ghost n = list@.len() as int;
        match voter_set_nth(voters, list.len()) {
            Some(id) => {
                list.push(id);
                assert(ids.subrange(0, n + 1) =~= ids.subrange(0, n).push(ids[n]));
            },
            None => {
                assert(ids.subrange(0, n) =~= ids);
                return list;
            },
        }
    }
}

/// Asked in the order of the voters, `has_keys` denied all before position `n`.
pub open spec fn denied_before<F: Fn(&AuthorityId) -> bool>(
    has_keys: F,
    ids: Seq<AuthorityId>,
    n: int,
) -> bool {
    forall|m: int| 0 <= m < n ==> call_ensures(has_keys, (&#[trigger] ids[m],), false)
}

/// `r` is the first of the ids for which the keystore has keys, if there is a keystore and one
/// for which it has.
pub open spec fn is_local_id<F: Fn(&AuthorityId) -> bool>(
    ids: Seq<AuthorityId>,
    keystore: Option<F>,
    r: Option<AuthorityId>,
) -> bool {
    match keystore {
        None => r is None,
        Some(has_keys) => match r {
            Some(id) => exists|n: int|
                {
                    &&& 0 <= n < ids.len()
                    &&& #[trigger] ids[n] == id
                    &&& call_ensures(has_keys, (&id,), true)
                    &&& denied_before(has_keys, ids, n)
                },
            None => denied_before(has_keys, ids, ids.len() as int),
        },
    }
}

/// Checks if this node has any available keys in the keystore for any authority id in the given
/// voter set. Returns the first authority id for which `has_keys`, the keystore, says that keys
/// are available, or `None` if there is none or no keystore.
pub fn local_authority_id<F: Fn(&AuthorityId) -> bool>(
    voters: &VoterSet<AuthorityId>,
    keystore: Option<F>,
) -> (r: Option<AuthorityId>)
    requires
        keystore matches Some(has_keys) ==> forall|id: &AuthorityId|
            call_requires(has_keys, (id,)),
    ensures
        is_local_id(voter_ids(*voters), keystore, r),
{
    let has_keys = match keystore {
        Some(has_keys) => has_keys,
        None => {
            return None;
        },
    };
    let ghost ids = voter_ids(*voters);
    let mut n: usize = 0;
    loop
        invariant
            ids == voter_ids(*voters),
            n <= ids.len(),
            denied_before(has_keys, ids, n as int),
            forall|id: &AuthorityId| call_requires(has_keys, (id,)),
            keystore == Some(has_keys),
        decreases ids.len() - n,
    {
        match voter_set_nth(voters, n) {
            Some(id) => {
                if has_keys(&id) {
                    assert(ids[n as int] == id);
                    return Some(id);
                }
            },
            None => {
                return None;
            },
        }
        n = n + 1;
    }
}

/// Who is found as the local voter is a voter of the set whose key the keystore has, and it denied
/// every voter before. Nobody is found only if the keystore denied every voter. Where it has the
/// key of a voter, whichever that is, somebody is found, no later in the order than that voter.
pub proof fn law_local_voter_is_found<F: Fn(&AuthorityId) -> bool>(
    voters: VoterSet<AuthorityId>,
    has_keys: F,
    r: Option<AuthorityId>,
    own: int,
)
    requires
        call_ensures(local_authority_id::<F>, (&voters, Some(has_keys)), r),
    ensures
        r matches Some(id) ==> exists|n: int|
            {
                &&& 0 <= n < voter_ids(voters).len()
                &&& #[trigger] voter_ids(voters)[n] == id
                &&& call_ensures(has_keys, (&id,), true)
                &&& forall|m: int|
                    0 <= m < n ==> call_ensures(
                        has_keys,
                        (&#[trigger] voter_ids(voters)[m],),
                        false,
                    )
            },
        r is None ==> forall|id: AuthorityId| #[trigger]
            voter_ids(voters).contains(id) ==> call_ensures(has_keys, (&id,), false),
        0 <= own < voter_ids(voters).len() && !call_ensures(
            has_keys,
            (&voter_ids(voters)[own],),
            false,
        ) ==> exists|n: int|
            0 <= n <= own && r == Some(#[trigger] voter_ids(voters)[n]),
{
    let ids = voter_ids(voters);
    assert(is_local_id(ids, Some(has_keys), r));
    if r is None {
        assert forall|id: AuthorityId| #[trigger] ids.contains(id) implies call_ensures(
            has_keys,
            (&id,),
            false,
        ) by {
            let m = choose|m: int| 0 <= m < ids.len() && ids[m] == id;
            assert(ids[m] == id);
        }
        if 0 <= own < ids.len() {
            assert(ids.contains(ids[own]));
        }
    }
}

/// Without a keystore there is no local voter.
pub proof fn law_no_keystore_no_local_voter<F: Fn(&AuthorityId) -> bool>(
    voters: VoterSet<AuthorityId>,
    r: Option<AuthorityId>,
)
    requires
        call_ensures(local_authority_id::<F>, (&voters, None), r),
    ensures
        r is None,
{
}

proof fn lemma_bytes_less_differ(a: AuthorityId, b: AuthorityId)
    requires
        bytes_less(a@, b@),
    ensures
        a != b,
{
}

pub(crate) proof fn lemma_times_listed_counts(ids: Seq<AuthorityId>, id: AuthorityId)
    ensures
        times_listed(ids, id) == ids.to_multiset().count(id),
    decreases ids.len(),
{
    broadcast use vstd::seq_lib::group_to_multiset_ensures;

    if ids.len() > 0 {
        lemma_times_listed_counts(ids.drop_last(), id);
        assert(ids =~= ids.drop_last().push(ids.last()));
    } else {
        assert(ids =~= Seq::empty());
    }
}

/// A list of authorities makes up a set of voters if and only if it is not empty. The voters are
/// the listed, each once, and each weighs as many times as it is listed.
pub proof fn law_voters_are_the_listed(
    authorities: AuthorityList,
    r: Option<VoterSet<AuthorityId>>,
    listed: AuthorityList,
    id: AuthorityId,
    voter: bool,
)
    requires
        call_ensures(voters_of, (&authorities,), r),
        r matches Some(set) ==> call_ensures(voter_list, (&set,), listed) && call_ensures(
            is_voter,
            (&set, &id),
            voter,
        ),
    ensures
        r is None <==> authorities@.len() == 0,
        r matches Some(set) ==> {
            &&& listed@.no_duplicates()
            &&& voter <==> authorities@.contains(id)
            &&& listed@.contains(id) <==> authorities@.contains(id)
            &&& voter_weights(set).contains_key(id) <==> authorities@.contains(id)
            &&& authorities@.contains(id) ==> voter_weights(set)[id]
                == authorities@.to_multiset().count(id)
        },
{
    lemma_times_listed_counts(authorities@, id);
    if let Some(set) = r {
        assert(in_order(voter_ids(set)));
        assert forall|i: int, j: int|
            0 <= i < listed@.len() && 0 <= j < listed@.len() && i != j implies listed@[i]
            != listed@[j] by {
            if i < j {
                lemma_bytes_less_differ(listed@[i], listed@[j]);
            } else {
                lemma_bytes_less_differ(listed@[j], listed@[i]);
            }
        }
    }
}

} // verus!
