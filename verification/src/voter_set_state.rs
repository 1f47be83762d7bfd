//! Whether this node votes, what it has voted in the views that run, and what is completed.
use crate::authorities::AuthoritySet;
use crate::completed::{
    is_highest, CompletedView, CompletedViewView, CompletedViews, CompletedViewsView,
};
use crate::error::Error;
use crate::fields::{
    Field, VOTER_SET_STATE_LIVE_COMPLETED_VIEWS, VOTER_SET_STATE_LIVE_CURRENT_VIEWS,
    VOTER_SET_STATE_PAUSED_COMPLETED_VIEWS,
};
use crate::messages::{AuthorityId, BlockHash, BlockNumber, SetId, ViewNumber};
use crate::scale::{
    begins, chained, lemma_tagged, no_variant, no_variant_byte, unknown, unknown_variant, Codec,
    TOO_SHORT,
};
use crate::votes::{genesis_view_state, HasVoted, ViewState};
use std::collections::{BTreeMap, HashMap};
use vstd::std_specs::cmp::OrdSpec;
use vstd::std_specs::iter::IteratorSpec;
use vstd::prelude::*;

verus! {

broadcast use {vstd::std_specs::btree::group_btree_axioms, vstd::laws_cmp::group_laws_cmp};

/// A map with voter status information for currently live views,
/// which votes have we cast and what are they.
pub type CurrentViews = BTreeMap<ViewNumber, HasVoted>;

/// The state of the current voter set, whether it is currently active or not
/// and information related to the previously completed views. Current view
/// voting status is used when restarting the voter, i.e. it will re-use the
/// previous votes for a given view if appropriate (same view and same local
/// key).
#[derive(Debug, PartialEq, Eq)]
pub enum VoterSetState {
    /// The voter is live, i.e. participating in views.
    Live {
        /// The previously completed views.
        completed_views: CompletedViews,
        /// Voter status for the currently live views.
        current_views: CurrentViews,
    },
    /// The voter is paused, i.e. not casting or importing any votes.
    Paused {
        /// The previously completed views.
        completed_views: CompletedViews,
    },
}

/// What the state of a voter set says.
#[verifier::ext_equal]
pub enum VoterSetStateView {
    /// The voter is live.
    Live {
        /// The previously completed views.
        completed: CompletedViewsView,
        /// Voter status for the currently live views.
        current: Map<ViewNumber, HasVoted>,
    },
    /// The voter is paused.
    Paused {
        /// The previously completed views.
        completed: CompletedViewsView,
    },
}

impl View for VoterSetState {
    type V = VoterSetStateView;

    open spec fn view(&self) -> VoterSetStateView {
        match self {
            VoterSetState::Live { completed_views, current_views } => VoterSetStateView::Live {
                completed: completed_views@,
                current: current_views@,
            },
            VoterSetState::Paused { completed_views } => VoterSetStateView::Paused {
                completed: completed_views@,
            },
        }
    }
}

impl VoterSetStateView {
    /// The completed views.
    pub open spec fn completed_views(self) -> CompletedViewsView {
        match self {
            VoterSetStateView::Live { completed, .. } => completed,
            VoterSetStateView::Paused { completed } => completed,
        }
    }

    /// The vote that was cast in a live view.
    pub open spec fn vote_in(self, view: ViewNumber) -> HasVoted {
        match self {
            VoterSetStateView::Live { current, .. } => if current.contains_key(view) {
                current[view]
            } else {
                HasVoted::No
            },
            VoterSetStateView::Paused { .. } => HasVoted::No,
        }
    }
}

/// The state in which a voter set starts at a block: view 0 is completed with no votes, and
/// view 1 runs with no vote cast.
pub open spec fn live_state(
    set_id: SetId,
    voters: Seq<AuthorityId>,
    genesis: (BlockHash, BlockNumber),
) -> VoterSetStateView {
    VoterSetStateView::Live {
        completed: CompletedViewsView {
            views: seq![
                CompletedViewView {
                    number: 0,
                    state: genesis_view_state(genesis),
                    base: genesis,
                    votes: Seq::empty(),
                },
            ],
            set_id,
            voters,
        },
        current: Map::empty().insert(1u64, HasVoted::No),
    }
}

impl VoterSetState {
    /// Create a new live state with view 0 as a completed view using
    /// the given genesis state and the given authorities. View 1 is added as a
    /// current view (with state `HasVoted::No`).
    pub fn live(
        set_id: SetId,
        authority_set: &AuthoritySet,
        genesis_state: (BlockHash, BlockNumber),
    ) -> (r: VoterSetState)
        ensures
            r@ == live_state(set_id, authority_set@.current_authorities, genesis_state),
            r@.completed_views().well_formed(),
    {
        let state = ViewState::genesis(genesis_state);
        let genesis = CompletedView { number: 0, state, base: genesis_state, votes: Vec::new() };
        let completed_views = CompletedViews::new(genesis, set_id, authority_set);
        let mut current_views: CurrentViews = BTreeMap::new();
        current_views.insert(1, HasVoted::No);
        VoterSetState::Live { completed_views, current_views }
    }

    /// Returns the last completed views.
    pub fn completed_views(&self) -> (r: CompletedViews)
        ensures
            r@ == self@.completed_views(),
    {
        match self {
            VoterSetState::Live { completed_views, .. } => completed_views.clone(),
            VoterSetState::Paused { completed_views } => completed_views.clone(),
        }
    }

    /// Returns the last completed view.
    pub fn last_completed_view(&self) -> (r: CompletedView)
        requires
            self@.completed_views().views.len() > 0,
        ensures
            r@ == self@.completed_views().views.first(),
    {
        match self {
            VoterSetState::Live { completed_views, .. } => completed_views.last().clone(),
            VoterSetState::Paused { completed_views } => completed_views.last().clone(),
        }
    }

    /// Returns the voter set state validating that it contains the given view
    /// in current views and that the voter isn't paused.
    pub fn with_current_view(&self, view: ViewNumber) -> (r: Result<
        (&CompletedViews, &CurrentViews),
        Error,
    >)
        ensures
            match self@ {
                VoterSetStateView::Live { completed, current } => if current.contains_key(view) {
                    r matches Ok((c, v)) && c@ == completed && v@ == current
                } else {
                    r matches Err(Error::Safety(m)) && m@
                        == "Voter acting on a live view we are not tracking."@
                },
                VoterSetStateView::Paused { .. } => r matches Err(Error::Safety(m)) && m@
                    == "Voter acting while in paused state."@,
            },
    {
        match self {
            VoterSetState::Live { completed_views, current_views } => {
                if current_views.contains_key(&view) {
                    Ok((completed_views, current_views))
                } else {
                    let msg = "Voter acting on a live view we are not tracking.";
                    Err(Error::Safety(msg.to_string()))
                }
            },
            VoterSetState::Paused { .. } => {
                let msg = "Voter acting while in paused state.";
                Err(Error::Safety(msg.to_string()))
            },
        }
    }
}

/// `pairs` lists the entries of `m` in the order of the views.
pub open spec fn lists(pairs: Seq<(ViewNumber, HasVoted)>, m: Map<ViewNumber, HasVoted>) -> bool {
    &&& forall|i: int, j: int|
        0 <= i < j < pairs.len() ==> (#[trigger] pairs[i]).0 < (#[trigger] pairs[j]).0
    &&& forall|i: int|
        0 <= i < pairs.len() ==> m.contains_key((#[trigger] pairs[i]).0) && m[pairs[i].0]
            == pairs[i].1
    &&& forall|k: ViewNumber| #[trigger]
        m.contains_key(k) ==> exists|i: int| 0 <= i < pairs.len() && (#[trigger] pairs[i]).0 == k
}

/// The entries of `m` in the order of the views.
pub open spec fn listing(m: Map<ViewNumber, HasVoted>) -> Seq<(ViewNumber, HasVoted)> {
    choose|pairs: Seq<(ViewNumber, HasVoted)>| lists(pairs, m)
}

/// The map to which the pairs are added one after the other, so that of two for one view the
/// later stays.
pub open spec fn collected(pairs: Seq<(ViewNumber, HasVoted)>) -> Map<ViewNumber, HasVoted>
    decreases pairs.len(),
{
    if pairs.len() == 0 {
        Map::empty()
    } else {
        collected(pairs.drop_last()).insert(pairs.last().0, pairs.last().1)
    }
}

proof fn lemma_lists_same_at(
    a: Seq<(ViewNumber, HasVoted)>,
    b: Seq<(ViewNumber, HasVoted)>,
    m: Map<ViewNumber, HasVoted>,
    n: int,
)
    requires
        lists(a, m),
        lists(b, m),
        0 <= n <= a.len(),
    ensures
        n <= b.len(),
        forall|i: int| 0 <= i < n ==> #[trigger] a[i] == b[i],
    decreases n,
{
    if n > 0 {
        let i = n - 1;
        lemma_lists_same_at(a, b, m, i);
        assert(m.contains_key(a[i].0));
        let k = choose|k: int| 0 <= k < b.len() && (#[trigger] b[k]).0 == a[i].0;
        if k < i {
            assert(a[k] == b[k]);
        }
        assert(m.contains_key(b[i].0));
        let l = choose|l: int| 0 <= l < a.len() && (#[trigger] a[l]).0 == b[i].0;
        if l < i {
            assert(a[l] == b[l]);
        }
        assert(b[i].0 <= b[k].0);
        assert(a[i].0 <= a[l].0);
    }
}

proof fn lemma_listing(pairs: Seq<(ViewNumber, HasVoted)>, m: Map<ViewNumber, HasVoted>)
    requires
        lists(pairs, m),
    ensures
        listing(m) == pairs,
        collected(pairs) == m,
{
    let other = listing(m);
    lemma_lists_same_at(pairs, other, m, pairs.len() as int);
    lemma_lists_same_at(other, pairs, m, other.len() as int);
    assert(other =~= pairs);
    lemma_collected(pairs);
    assert(collected(pairs) =~= m);
}

proof fn lemma_collected(pairs: Seq<(ViewNumber, HasVoted)>)
    requires
        forall|i: int, j: int|
            0 <= i < j < pairs.len() ==> (#[trigger] pairs[i]).0 < (#[trigger] pairs[j]).0,
    ensures
        forall|i: int|
            0 <= i < pairs.len() ==> collected(pairs).contains_key((#[trigger] pairs[i]).0)
                && collected(pairs)[pairs[i].0] == pairs[i].1,
        forall|k: ViewNumber| #[trigger]
            collected(pairs).contains_key(k) ==> exists|i: int|
                0 <= i < pairs.len() && (#[trigger] pairs[i]).0 == k,
    decreases pairs.len(),
{
    if pairs.len() > 0 {
        let front = pairs.drop_last();
        lemma_collected(front);
        assert forall|i: int| 0 <= i < pairs.len() implies collected(pairs).contains_key(
            (#[trigger] pairs[i]).0,
        ) && collected(pairs)[pairs[i].0] == pairs[i].1 by {
            if i < front.len() {
                assert(front[i] == pairs[i]);
            }
        }
        assert forall|k: ViewNumber| #[trigger]
            collected(pairs).contains_key(k) implies exists|i: int|
            0 <= i < pairs.len() && (#[trigger] pairs[i]).0 == k by {
            if k == pairs.last().0 {
                assert(pairs[pairs.len() - 1].0 == k);
            } else {
                assert(collected(front).contains_key(k));
                let i = choose|i: int| 0 <= i < front.len() && (#[trigger] front[i]).0 == k;
                assert(pairs[i].0 == k);
            }
        }
    }
}

/// The entries of the map in the order of the views.
fn list_views(current: &CurrentViews) -> (r: Vec<(ViewNumber, HasVoted)>)
    ensures
        lists(r@, current@),
        r@ == listing(current@),
{
    let mut pairs: Vec<(ViewNumber, HasVoted)> = Vec::new();
    let iter = current.iter();
    let ghost all = iter.remaining();
    proof {
        let keys = all.map_values(|kv: (&ViewNumber, &HasVoted)| *kv.0);
        assert(vstd::std_specs::btree::key_obeys_cmp_spec::<ViewNumber>());
        assert(vstd::std_specs::btree::increasing_seq(keys));
        assert forall|i: int, j: int| 0 <= i < j < all.len() implies *(#[trigger] all[i]).0
            < *(#[trigger] all[j]).0 by {
            assert(keys[i] == *all[i].0 && keys[j] == *all[j].0);
            assert(keys[i].cmp_spec(&keys[j]) is Less);
        }
    }
    for entry in entries: iter
        invariant
            entries.seq() == all,
            pairs@.len() == entries.index(),
            forall|j: int|
                0 <= j < pairs@.len() ==> (#[trigger] pairs@[j]).0 == *all[j].0
                    && pairs@[j].1 == *all[j].1,
    {
        pairs.push((*entry.0, *entry.1));
    }
    proof {
        assert(pairs@.len() == all.len());
        assert forall|k: ViewNumber| #[trigger] current@.contains_key(k) implies exists|i: int|
            0 <= i < pairs@.len() && (#[trigger] pairs@[i]).0 == k by {
            assert(all.contains((&k, &current@[k])));
            let i = choose|i: int| 0 <= i < all.len() && all[i] == (&k, &current@[k]);
            assert(pairs@[i].0 == k);
        }
        assert forall|i: int| 0 <= i < pairs@.len() implies current@.contains_key(
            (#[trigger] pairs@[i]).0,
        ) && current@[pairs@[i].0] == pairs@[i].1 by {
            assert(current@.contains_key(*all[i].0));
        }
        lemma_listing(pairs@, current@);
    }
    pairs
}

/// The state of a voter set as it is written: the current views as a list.
enum VoterSetRecord {
    Live { completed_views: CompletedViews, current_views: Vec<(ViewNumber, HasVoted)> },
    Paused { completed_views: CompletedViews },
}

/// What is written of the state of a voter set.
#[verifier::ext_equal]
pub enum RecordView {
    /// The voter is live.
    Live {
        /// The previously completed views.
        completed: CompletedViewsView,
        /// The currently live views with the votes cast.
        current: Seq<(ViewNumber, HasVoted)>,
    },
    /// The voter is paused.
    Paused {
        /// The previously completed views.
        completed: CompletedViewsView,
    },
}

/// What is written of a state: the current views in their order.
pub open spec fn record_of(state: VoterSetStateView) -> RecordView {
    match state {
        VoterSetStateView::Live { completed, current } => RecordView::Live {
            completed,
            current: listing(current),
        },
        VoterSetStateView::Paused { completed } => RecordView::Paused { completed },
    }
}

/// The state that a record is read as.
pub open spec fn state_of(record: RecordView) -> VoterSetStateView {
    match record {
        RecordView::Live { completed, current } => VoterSetStateView::Live {
            completed,
            current: collected(current),
        },
        RecordView::Paused { completed } => VoterSetStateView::Paused { completed },
    }
}

/// The completed and the current views of a live voter.
type LiveRow = (
    Field<VOTER_SET_STATE_LIVE_COMPLETED_VIEWS, CompletedViews>,
    Field<VOTER_SET_STATE_LIVE_CURRENT_VIEWS, Vec<(ViewNumber, HasVoted)>>,
);

/// The completed views of a paused voter.
type PausedRow = Field<VOTER_SET_STATE_PAUSED_COMPLETED_VIEWS, CompletedViews>;

/// No list in the record is too long to be written.
pub open spec fn record_fits(record: RecordView) -> bool {
    match record {
        RecordView::Live { completed, current } => LiveRow::fits((completed, current)),
        RecordView::Paused { completed } => PausedRow::fits(completed),
    }
}

/// The encoding of a record: a byte that tells whether the voter is paused, the completed
/// views, and the current views of a live voter.
pub open spec fn record_bytes(record: RecordView) -> Seq<u8> {
    match record {
        RecordView::Live { completed, current } => seq![0u8] + LiveRow::bytes(
            (completed, current),
        ),
        RecordView::Paused { completed } => seq![1u8] + PausedRow::bytes(completed),
    }
}

/// What is said of bytes at whose front no record stands.
pub open spec fn record_error(s: Seq<u8>) -> Seq<char> {
    let rest = s.subrange(1, s.len() as int);
    if s.len() == 0 {
        no_variant("VoterSetState"@)
    } else if s[0] == 0 {
        LiveRow::error(rest)
    } else if s[0] == 1 {
        PausedRow::error(rest)
    } else {
        unknown("VoterSetState"@)
    }
}

spec fn record_tag(record: RecordView) -> u8 {
    match record {
        RecordView::Live { .. } => 0,
        RecordView::Paused { .. } => 1,
    }
}

spec fn record_payload(record: RecordView) -> Seq<u8> {
    match record {
        RecordView::Live { completed, current } => LiveRow::bytes((completed, current)),
        RecordView::Paused { completed } => PausedRow::bytes(completed),
    }
}

proof fn lemma_record_begins(s: Seq<u8>, v: RecordView)
    ensures
        begins(s, record_bytes(v)) <==> s.len() > 0 && s[0] == record_tag(v) && begins(
            s.subrange(1, s.len() as int),
            record_payload(v),
        ),
{
    lemma_tagged(s, record_tag(v), record_payload(v));
}

impl Codec for VoterSetRecord {
    type Value = RecordView;

    closed spec fn value(&self) -> RecordView {
        match self {
            VoterSetRecord::Live { completed_views, current_views } => RecordView::Live {
                completed: completed_views@,
                current: current_views@,
            },
            VoterSetRecord::Paused { completed_views } => RecordView::Paused {
                completed: completed_views@,
            },
        }
    }

    open spec fn fits(v: RecordView) -> bool {
        record_fits(v)
    }

    open spec fn bytes(v: RecordView) -> Seq<u8> {
        record_bytes(v)
    }

    open spec fn error(s: Seq<u8>) -> Seq<char> {
        record_error(s)
    }

    proof fn unique(s: Seq<u8>, a: RecordView, b: RecordView) {
        lemma_record_begins(s, a);
        lemma_record_begins(s, b);
        let t = s.subrange(1, s.len() as int);
        match (a, b) {
            (
                RecordView::Live { completed: a1, current: a2 },
                RecordView::Live { completed: b1, current: b2 },
            ) => {
                LiveRow::unique(t, (a1, a2), (b1, b2));
            },
            (RecordView::Paused { completed: a1 }, RecordView::Paused { completed: b1 }) => {
                PausedRow::unique(t, a1, b1);
            },
            _ => {},
        }
    }

    fn encode_to(&self, out: &mut Vec<u8>) {
        let ghost before = out@;
        match self {
            VoterSetRecord::Live { completed_views, current_views } => {
                assert(current_views.value() =~= current_views@);
                out.push(0);
                completed_views.encode_to(out);
                current_views.encode_to(out);
            },
            VoterSetRecord::Paused { completed_views } => {
                out.push(1);
                completed_views.encode_to(out);
            },
        }
        assert(out@ =~= before + Self::bytes(self.value()));
    }

    fn decode_at(input: &[u8], at: usize) -> (r: Result<(Self, usize), String>) {
        let ghost rest = input@.subrange(at as int, input@.len() as int);
        proof {
            assert forall|v: RecordView| begins(rest, #[trigger] Self::bytes(v)) implies rest.len()
                > 0 && rest[0] == record_tag(v) && begins(
                input@.subrange(at + 1, input@.len() as int),
                record_payload(v),
            ) by {
                lemma_record_begins(rest, v);
                assert(rest.subrange(1, rest.len() as int) =~= input@.subrange(
                    at + 1,
                    input@.len() as int,
                ));
            }
        }
        if at >= input.len() {
            return Err(no_variant_byte("VoterSetState"));
        }
        let tag: u8 = input[at];
        assert(rest.subrange(1, rest.len() as int) =~= input@.subrange(
            at + 1,
            input@.len() as int,
        ));
        let found = if tag == 0 {
            match LiveRow::decode_at(input, at + 1) {
                Ok(((completed, current), end)) => {
                    assert(current.value.value() =~= current.value@);
                    Ok(
                        (
                            VoterSetRecord::Live {
                                completed_views: completed.value,
                                current_views: current.value,
                            },
                            end,
                        ),
                    )
                },
                Err(e) => Err(e),
            }
        } else if tag == 1 {
            match PausedRow::decode_at(input, at + 1) {
                Ok((completed, end)) => Ok(
                    (VoterSetRecord::Paused { completed_views: completed.value }, end),
                ),
                Err(e) => Err(e),
            }
        } else {
            Err(unknown_variant("VoterSetState"))
        };
        proof {
            if found is Ok {
                let end = (found->Ok_0).1;
                assert(input@.subrange(at as int, end as int) =~= seq![tag] + input@.subrange(
                    at + 1,
                    end as int,
                ));
            }
        }
        found
    }
}

impl VoterSetState {
    /// The state as it is kept on disk.
    pub fn encode(&self) -> (r: Vec<u8>)
        requires
            record_fits(record_of(self@)),
        ensures
            r@ == record_bytes(record_of(self@)),
    {
        let record = match self {
            VoterSetState::Live { completed_views, current_views } => VoterSetRecord::Live {
                completed_views: completed_views.clone(),
                current_views: list_views(current_views),
            },
            VoterSetState::Paused { completed_views } => VoterSetRecord::Paused {
                completed_views: completed_views.clone(),
            },
        };
        crate::scale::encode(&record)
    }

    /// The state that stands at the front of `input`. Fails if and only if none does; the error
    /// says what was met instead.
    pub fn decode(input: &[u8]) -> (r: Result<Self, String>)
        ensures
            match r {
                Ok(state) => exists|record: RecordView|
                    {
                        &&& record_fits(record)
                        &&& begins(input@, #[trigger] record_bytes(record))
                        &&& state@ == state_of(record)
                    },
                Err(e) => {
                    &&& forall|record: RecordView|
                        record_fits(record) ==> !begins(input@, #[trigger] record_bytes(record))
                    &&& e@ == record_error(input@)
                },
            },
    {
        match crate::scale::decode::<VoterSetRecord>(input) {
            Ok(record) => {
                assert(begins(input@, record_bytes(record.value())));
                match record {
                    VoterSetRecord::Live { completed_views, current_views } => {
                        let mut map: CurrentViews = BTreeMap::new();
                        assert(current_views@.take(0) =~= Seq::empty());
                        for i in 0..current_views.len()
                            invariant
                                map@ == collected(current_views@.take(i as int)),
                        {
                            map.insert(current_views[i].0, current_views[i].1);
                            assert(current_views@.take(i + 1).drop_last() =~= current_views@.take(
                                i as int,
                            ));
                        }
                        assert(current_views@.take(current_views@.len() as int)
                            =~= current_views@);
                        Ok(VoterSetState::Live { completed_views, current_views: map })
                    },
                    VoterSetRecord::Paused { completed_views } => Ok(
                        VoterSetState::Paused { completed_views },
                    ),
                }
            },
            Err(e) => {
                proof {
                    assert forall|record: RecordView| record_fits(record) implies !begins(
                        input@,
                        #[trigger] record_bytes(record),
                    ) by {
                        assert(VoterSetRecord::bytes(record) == record_bytes(record));
                    }
                }
                Err(e)
            },
        }
    }
}

proof fn lemma_highest_key(keys: Set<ViewNumber>) -> (max: ViewNumber)
    requires
        keys.finite(),
        keys.len() > 0,
    ensures
        keys.contains(max),
        forall|k: ViewNumber| keys.contains(k) ==> k <= max,
    decreases keys.len(),
{
    let one = keys.choose();
    let rest = keys.remove(one);
    if rest.len() == 0 {
        assert forall|k: ViewNumber| keys.contains(k) implies k <= one by {
            if k != one {
                assert(rest.contains(k));
            }
        }
        one
    } else {
        let max = lemma_highest_key(rest);
        assert forall|k: ViewNumber| keys.contains(k) implies k <= (if one > max {
            one
        } else {
            max
        }) by {
            if k != one {
                assert(rest.contains(k));
            }
        }
        if one > max {
            one
        } else {
            max
        }
    }
}

proof fn lemma_listing_exists(m: Map<ViewNumber, HasVoted>)
    requires
        m.dom().finite(),
    ensures
        lists(listing(m), m),
        collected(listing(m)) == m,
    decreases m.dom().len(),
{
    if m.dom().len() == 0 {
        assert(m.dom() =~= Set::empty());
        let none = Seq::<(ViewNumber, HasVoted)>::empty();
        assert forall|k: ViewNumber| #[trigger] m.contains_key(k) implies false by {
            assert(m.dom().contains(k));
        }
        assert(lists(none, m));
        lemma_listing(none, m);
    } else {
        let max = lemma_highest_key(m.dom());
        let rest = m.remove(max);
        lemma_listing_exists(rest);
        let front = listing(rest);
        let pairs = front.push((max, m[max]));
        assert forall|i: int, j: int| 0 <= i < j < pairs.len() implies (#[trigger] pairs[i]).0
            < (#[trigger] pairs[j]).0 by {
            assert(pairs[i] == front[i]);
            assert(rest.contains_key(front[i].0));
            assert(m.dom().contains(front[i].0));
            if j < front.len() {
                assert(pairs[j] == front[j]);
            }
        }
        assert forall|i: int| 0 <= i < pairs.len() implies m.contains_key((#[trigger] pairs[i]).0)
            && m[pairs[i].0] == pairs[i].1 by {
            if i < front.len() {
                assert(pairs[i] == front[i]);
                assert(rest.contains_key(front[i].0));
            }
        }
        assert forall|k: ViewNumber| #[trigger] m.contains_key(k) implies exists|i: int|
            0 <= i < pairs.len() && (#[trigger] pairs[i]).0 == k by {
            if k == max {
                assert(pairs[front.len() as int].0 == k);
            } else {
                assert(rest.contains_key(k));
                let i = choose|i: int| 0 <= i < front.len() && (#[trigger] front[i]).0 == k;
                assert(pairs[i].0 == k);
            }
        }
        lemma_listing(pairs, m);
    }
}

/// A state that was written is read back as it was, whatever stands behind it.
pub proof fn law_state_read_back(state: VoterSetStateView, behind: Seq<u8>, read: RecordView)
    requires
        state matches VoterSetStateView::Live { current, .. } ==> current.dom().finite(),
        record_fits(record_of(state)),
        record_fits(read),
    ensures
        begins(record_bytes(record_of(state)) + behind, record_bytes(record_of(state))),
        begins(record_bytes(record_of(state)) + behind, record_bytes(read)) ==> state_of(read)
            == state,
{
    crate::scale::law_read_back::<VoterSetRecord>(record_of(state), behind, read);
    assert(VoterSetRecord::bytes(read) == record_bytes(read));
    assert(VoterSetRecord::bytes(record_of(state)) == record_bytes(record_of(state)));
    if let VoterSetStateView::Live { current, .. } = state {
        lemma_listing_exists(current);
    }
}

/// What is written of the state in which a voter set starts.
pub proof fn lemma_live_record(
    set_id: SetId,
    voters: Seq<AuthorityId>,
    genesis: (BlockHash, BlockNumber),
)
    ensures
        record_of(live_state(set_id, voters, genesis)) == (RecordView::Live {
            completed: live_state(set_id, voters, genesis).completed_views(),
            current: seq![(1u64, HasVoted::No)],
        }),
        record_fits(record_of(live_state(set_id, voters, genesis))) <==> voters.len() <= u32::MAX,
{
    let state = live_state(set_id, voters, genesis);
    let m = Map::<ViewNumber, HasVoted>::empty().insert(1u64, HasVoted::No);
    let pairs = seq![(1u64, HasVoted::No)];
    assert(lists(pairs, m)) by {
        assert forall|k: ViewNumber| #[trigger] m.contains_key(k) implies exists|i: int|
            0 <= i < pairs.len() && (#[trigger] pairs[i]).0 == k by {
            assert(pairs[0].0 == k);
        }
    }
    lemma_listing(pairs, m);
    let view = state.completed_views().views[0];
    assert(CompletedView::fits(view));
}

/// A voter set state together with the views that this node votes on.
#[derive(Debug)]
pub struct SharedVoterSetState {
    /// The voter set state.
    inner: VoterSetState,
    /// A tracker for the views that we are actively participating on (i.e. voting)
    /// and the authority id under which we are doing it.
    voting: HashMap<ViewNumber, AuthorityId>,
}

/// What a shared voter set state says.
#[verifier::ext_equal]
pub struct SharedVoterSetStateView {
    /// The voter set state.
    pub state: VoterSetStateView,
    /// The views that we vote on, and the id under which we do.
    pub voting: Map<ViewNumber, AuthorityId>,
}

impl View for SharedVoterSetState {
    type V = SharedVoterSetStateView;

    closed spec fn view(&self) -> SharedVoterSetStateView {
        SharedVoterSetStateView { state: self.inner@, voting: self.voting@ }
    }
}

/// What is said of a voter set state of which no view is voted on.
pub open spec fn shared(state: VoterSetStateView) -> SharedVoterSetStateView {
    SharedVoterSetStateView { state, voting: Map::empty() }
}

impl From<VoterSetState> for SharedVoterSetState {
    fn from(set_state: VoterSetState) -> (r: Self)
        ensures
            r@ == shared(set_state@),
    {
        SharedVoterSetState::new(set_state)
    }
}

/// What comes of a state is told by its view alone, as `from` ensures.
impl vstd::std_specs::convert::FromSpecImpl<VoterSetState> for SharedVoterSetState {
    open spec fn obeys_from_spec() -> bool {
        false
    }

    open spec fn from_spec(set_state: VoterSetState) -> SharedVoterSetState {
        choose|r: SharedVoterSetState| r@ == shared(set_state@)
    }
}

impl SharedVoterSetState {
    /// Create a new voter set tracker with the given state.
    pub fn new(set_state: VoterSetState) -> (r: Self)
        ensures
            r@ == shared(set_state@),
    {
        SharedVoterSetState { inner: set_state, voting: HashMap::new() }
    }

    /// Read the inner voter set state.
    pub fn read(&self) -> (r: &VoterSetState)
        ensures
            r@ == self@.state,
    {
        &self.inner
    }

    /// Get the authority id that we are using to vote on the given view, if any.
    pub fn voting_on(&self, view: ViewNumber) -> (r: Option<AuthorityId>)
        ensures
            r == (if self@.voting.contains_key(view) {
                Some(self@.voting[view])
            } else {
                None
            }),
    {
        match self.voting.get(&view) {
            Some(id) => Some(*id),
            None => None,
        }
    }

    /// Note that we started voting on the give view with the given authority id.
    pub fn started_voting_on(&mut self, view: ViewNumber, local_id: AuthorityId)
        ensures
            final(self)@ == (SharedVoterSetStateView {
                voting: old(self)@.voting.insert(view, local_id),
                ..old(self)@
            }),
    {
        self.voting.insert(view, local_id);
    }

    /// Note that we have finished voting on the given view. If we were voting on
    /// the given view, the authority id that we were using to do it will be
    /// cleared.
    pub fn finished_voting_on(&mut self, view: ViewNumber)
        ensures
            final(self)@ == (SharedVoterSetStateView {
                voting: old(self)@.voting.remove(view),
                ..old(self)@
            }),
    {
        self.voting.remove(&view);
    }

    /// Return vote status information for the current view.
    pub fn has_voted(&self, view: ViewNumber) -> (r: HasVoted)
        ensures
            r == self@.state.vote_in(view),
    {
        match &self.inner {
            VoterSetState::Live { current_views, .. } => match current_views.get(&view) {
                Some(has_voted) => *has_voted,
                None => HasVoted::No,
            },
            VoterSetState::Paused { .. } => HasVoted::No,
        }
    }

    /// Updates the voter set state using the given closure: the state is set to its result if
    /// successful. Also gives the highest completed view of the new state, if the state changed
    /// and the voter is live.
    pub fn update_voter_set_state<
        F: FnOnce(&VoterSetState) -> Result<Option<VoterSetState>, Error>,
    >(&mut self, f: F) -> (r: Result<Option<ViewNumber>, Error>)
        requires
            forall|state: &VoterSetState|
                state@ == old(self)@.state ==> call_requires(f, (state,)),
        ensures
            exists|state: &VoterSetState, outcome: Result<Option<VoterSetState>, Error>|
                {
                    &&& state@ == old(self)@.state
                    &&& #[trigger] call_ensures(f, (state,), outcome)
                    &&& updated(old(self)@, outcome, final(self)@, r)
                },
    {
        match f(&self.inner) {
            Ok(Some(set_state)) => {
                self.inner = set_state;
                match &self.inner {
                    VoterSetState::Live { completed_views, .. } => Ok(completed_views.highest()),
                    VoterSetState::Paused { .. } => Ok(None),
                }
            },
            Ok(None) => Ok(None),
            Err(e) => Err(e),
        }
    }
}

/// The state `after` an update of the state `before`, and its result `r`, by what was to become
/// of the voter set state.
pub open spec fn updated(
    before: SharedVoterSetStateView,
    outcome: Result<Option<VoterSetState>, Error>,
    after: SharedVoterSetStateView,
    r: Result<Option<ViewNumber>, Error>,
) -> bool {
    match outcome {
        Ok(Some(set_state)) => {
            &&& after == SharedVoterSetStateView { state: set_state@, ..before }
            &&& match set_state@ {
                VoterSetStateView::Live { completed, .. } => r matches Ok(highest) && is_highest(
                    completed.views,
                    highest,
                ),
                VoterSetStateView::Paused { .. } => r matches Ok(None),
            }
        },
        Ok(None) => after == before && (r matches Ok(None)),
        Err(e) => after == before && r == Err::<Option<ViewNumber>, Error>(e),
    }
}

/// A voter set starts at a block: the one completed view is view 0, which has the block as its
/// base, has no votes and is completable, with its prevote ghost, its finalized block and its
/// estimate at the block. It is of the set, with the current authorities as its voters. View 1
/// runs, with no vote cast.
pub proof fn law_set_starts_at_the_block(
    set_id: SetId,
    set: AuthoritySet,
    block: (BlockHash, BlockNumber),
    r: VoterSetState,
)
    requires
        call_ensures(VoterSetState::live, (set_id, &set, block), r),
    ensures
        r@ matches VoterSetStateView::Live { completed, current } && {
            &&& completed.set_id == set_id
            &&& completed.voters == set@.current_authorities
            &&& completed.views.len() == 1
            &&& completed.views[0].number == 0
            &&& completed.views[0].base == block
            &&& completed.views[0].votes.len() == 0
            &&& completed.views[0].state.prevote_ghost == Some(block)
            &&& completed.views[0].state.finalized == Some(block)
            &&& completed.views[0].state.estimate == Some(block)
            &&& completed.views[0].state.completable
            &&& forall|view: ViewNumber| #[trigger] current.contains_key(view) <==> view == 1
            &&& current[1] == HasVoted::No
        },
{
    law_live_state(set_id, set@.current_authorities, block);
}

/// In the state in which a voter set starts at a block, everything of the last completed view is
/// at that block, and the view is completable.
pub proof fn law_live_state(
    set_id: SetId,
    voters: Seq<AuthorityId>,
    block: (BlockHash, BlockNumber),
)
    ensures
        live_state(set_id, voters, block) matches VoterSetStateView::Live {
            completed,
            current,
        } && {
            &&& completed.set_id == set_id
            &&& completed.voters == voters
            &&& completed.views.len() == 1
            &&& completed.views.first().number == 0
            &&& completed.views.first().base == block
            &&& completed.views.first().votes.len() == 0
            &&& completed.views.first().state.prevote_ghost == Some(block)
            &&& completed.views.first().state.finalized == Some(block)
            &&& completed.views.first().state.estimate == Some(block)
            &&& completed.views.first().state.completable
            &&& forall|view: ViewNumber| #[trigger] current.contains_key(view) <==> view == 1
            &&& current[1] == HasVoted::No
        },
        live_state(set_id, voters, block).completed_views().views.first().state.prevote_ghost
            == Some(block),
        live_state(set_id, voters, block).completed_views().views.first().state.finalized == Some(
            block,
        ),
        live_state(set_id, voters, block).completed_views().views.first().state.estimate == Some(
            block,
        ),
        live_state(set_id, voters, block).completed_views().views.first().state.completable,
{
}

/// The vote of a view is the one that a live voter set notes for it. A paused voter set, and one
/// that does not track the view, has none.
pub proof fn law_vote_is_the_noted_one(
    shared: SharedVoterSetState,
    view: ViewNumber,
    r: HasVoted,
)
    requires
        call_ensures(SharedVoterSetState::has_voted, (&shared, view), r),
    ensures
        match shared@.state {
            VoterSetStateView::Live { current, .. } => {
                &&& current.contains_key(view) ==> r == current[view]
                &&& !current.contains_key(view) ==> r == HasVoted::No
            },
            VoterSetStateView::Paused { .. } => r == HasVoted::No,
        },
{
}

/// The completed views of a state are the ones it holds, live or paused, and the last of them is
/// the first that it lists.
pub proof fn law_completed_views_are_held(
    state: VoterSetState,
    all: CompletedViews,
    last: CompletedView,
)
    requires
        call_ensures(VoterSetState::completed_views, (&state,), all),
        call_ensures(VoterSetState::last_completed_view, (&state,), last),
    ensures
        match state@ {
            VoterSetStateView::Live { completed, .. } => all@ == completed,
            VoterSetStateView::Paused { completed } => all@ == completed,
        },
        last@ == all@.views[0],
{
}

/// A view can be acted on if and only if the voter is live and tracks it; what is handed out is
/// then what the state holds.
pub proof fn law_only_tracked_views_are_acted_on(
    state: VoterSetState,
    view: ViewNumber,
    r: Result<(&CompletedViews, &CurrentViews), Error>,
)
    requires
        call_ensures(VoterSetState::with_current_view, (&state, view), r),
    ensures
        r is Ok <==> (state@ matches VoterSetStateView::Live { current, .. }
            && current.contains_key(view)),
        r matches Ok((completed, current)) ==> state@ == (VoterSetStateView::Live {
            completed: completed@,
            current: current@,
        }),
        r matches Err(e) ==> (e matches Error::Safety(m) && m@ == (if state@ is Paused {
            "Voter acting while in paused state."@
        } else {
            "Voter acting on a live view we are not tracking."@
        })),
{
}

/// Of what is read for one view, the last entry counts: a view is tracked if and only if there is
/// an entry for it, with the vote of its last entry.
pub proof fn law_last_entry_counts(pairs: Seq<(ViewNumber, HasVoted)>, view: ViewNumber, i: int)
    ensures
        collected(pairs).contains_key(view) <==> exists|k: int|
            0 <= k < pairs.len() && (#[trigger] pairs[k]).0 == view,
        0 <= i < pairs.len() && pairs[i].0 == view && (forall|j: int|
            i < j < pairs.len() ==> (#[trigger] pairs[j]).0 != view) ==> collected(pairs)[view]
            == pairs[i].1,
    decreases pairs.len(),
{
    if pairs.len() > 0 {
        let front = pairs.drop_last();
        law_last_entry_counts(front, view, i);
        assert(pairs.last() == pairs[pairs.len() - 1]);
        if exists|k: int| 0 <= k < pairs.len() && (#[trigger] pairs[k]).0 == view {
            let k = choose|k: int| 0 <= k < pairs.len() && (#[trigger] pairs[k]).0 == view;
            if k < front.len() {
                assert(front[k].0 == view);
            }
        }
        if collected(front).contains_key(view) {
            let k = choose|k: int| 0 <= k < front.len() && (#[trigger] front[k]).0 == view;
            assert(pairs[k].0 == view);
        }
        if 0 <= i < pairs.len() && pairs[i].0 == view && (forall|j: int|
            i < j < pairs.len() ==> (#[trigger] pairs[j]).0 != view) {
            if i < front.len() {
                assert(pairs[pairs.len() - 1].0 != view);
                assert(front[i] == pairs[i]);
                assert forall|j: int| i < j < front.len() implies (#[trigger] front[j]).0
                    != view by {
                    assert(front[j] == pairs[j]);
                }
            }
        }
    }
}

/// What was encoded is decoded again, whatever stands behind it.
pub proof fn law_state_is_decoded(
    state: VoterSetState,
    encoded: Vec<u8>,
    input: &[u8],
    behind: Seq<u8>,
    r: Result<VoterSetState, String>,
)
    requires
        record_fits(record_of(state@)),
        state@ matches VoterSetStateView::Live { current, .. } ==> current.dom().finite(),
        call_ensures(VoterSetState::encode, (&state,), encoded),
        input@ == encoded@ + behind,
        call_ensures(VoterSetState::decode, (input,), r),
    ensures
        r matches Ok(read) && read@ == state@,
{
    law_state_read_back(state@, behind, record_of(state@));
    match r {
        Ok(read) => {
            let record = choose|record: RecordView|
                {
                    &&& record_fits(record)
                    &&& begins(input@, #[trigger] record_bytes(record))
                    &&& read@ == state_of(record)
                };
            law_state_read_back(state@, behind, record);
        },
        Err(_) => {
            assert(begins(input@, record_bytes(record_of(state@))));
        },
    }
}

/// A new shared state holds the state that it was made of, and no view is voted on.
pub proof fn law_new_shared_state(
    set_state: VoterSetState,
    made: SharedVoterSetState,
    read: &VoterSetState,
    view: ViewNumber,
    voting: Option<AuthorityId>,
)
    requires
        call_ensures(SharedVoterSetState::new, (set_state,), made) || call_ensures(
            <SharedVoterSetState as From<VoterSetState>>::from,
            (set_state,),
            made,
        ),
        call_ensures(SharedVoterSetState::read, (&made,), read),
        call_ensures(SharedVoterSetState::voting_on, (&made, view), voting),
    ensures
        read@ == set_state@,
        voting is None,
{
}

/// Once voting on a view has started under an id, the view is voted on under that id, until it is
/// finished. What is voted on in other views, and the state, stays as it is.
pub proof fn law_voting_is_tracked(
    started: &mut SharedVoterSetState,
    finished: &mut SharedVoterSetState,
    view: ViewNumber,
    id: AuthorityId,
    other: ViewNumber,
)
    requires
        call_ensures(SharedVoterSetState::started_voting_on, (started, view, id), ()),
        call_ensures(SharedVoterSetState::finished_voting_on, (finished, view), ()),
    ensures
        forall|r: Option<AuthorityId>| #[trigger]
            call_ensures(SharedVoterSetState::voting_on, (&*final(started), view), r) ==> r
                == Some(id),
        forall|r: Option<AuthorityId>| #[trigger]
            call_ensures(SharedVoterSetState::voting_on, (&*final(finished), view), r) ==> r
                is None,
        other != view ==> forall|before: Option<AuthorityId>, after: Option<AuthorityId>|
            #[trigger] call_ensures(SharedVoterSetState::voting_on, (&*old(started), other), before)
                && #[trigger] call_ensures(
                SharedVoterSetState::voting_on,
                (&*final(started), other),
                after,
            ) ==> after == before,
        other != view ==> forall|before: Option<AuthorityId>, after: Option<AuthorityId>|
            #[trigger] call_ensures(
                SharedVoterSetState::voting_on,
                (&*old(finished), other),
                before,
            ) && #[trigger] call_ensures(
                SharedVoterSetState::voting_on,
                (&*final(finished), other),
                after,
            ) ==> after == before,
        final(started)@.state == old(started)@.state,
        final(finished)@.state == old(finished)@.state,
{
}

/// A state that the update asks for is held from then on, and its highest completed view is given
/// if the voter is live. Where the update asks for none, or fails, nothing changes, and its
/// failure is given. The views that are voted on stay in any case.
pub proof fn law_update_is_held<F: FnOnce(&VoterSetState) -> Result<Option<VoterSetState>, Error>>(
    shared: &mut SharedVoterSetState,
    f: F,
    r: Result<Option<ViewNumber>, Error>,
    asked: Result<Option<VoterSetStateView>, Error>,
)
    requires
        call_ensures(SharedVoterSetState::update_voter_set_state::<F>, (shared, f), r),
        forall|state: &VoterSetState, outcome: Result<Option<VoterSetState>, Error>|
            state@ == old(shared)@.state && #[trigger] call_ensures(f, (state,), outcome) ==> (
            match outcome {
                Ok(Some(set_state)) => asked == Ok::<Option<VoterSetStateView>, Error>(
                    Some(set_state@),
                ),
                Ok(None) => asked == Ok::<Option<VoterSetStateView>, Error>(None),
                Err(e) => asked == Err::<Option<VoterSetStateView>, Error>(e),
            }),
    ensures
        final(shared)@.voting == old(shared)@.voting,
        match asked {
            Ok(Some(state)) => {
                &&& final(shared)@.state == state
                &&& match state {
                    VoterSetStateView::Live { completed, .. } => match r {
                        Ok(Some(n)) => {
                            &&& forall|i: int|
                                0 <= i < completed.views.len() ==> (
                                #[trigger] completed.views[i]).number <= n
                            &&& exists|i: int|
                                0 <= i < completed.views.len() && (
                                #[trigger] completed.views[i]).number == n
                        },
                        Ok(None) => completed.views.len() == 0,
                        Err(_) => false,
                    },
                    VoterSetStateView::Paused { .. } => r == Ok::<Option<ViewNumber>, Error>(None),
                }
            },
            Ok(None) => {
                &&& final(shared)@.state == old(shared)@.state
                &&& r == Ok::<Option<ViewNumber>, Error>(None)
            },
            Err(e) => {
                &&& final(shared)@.state == old(shared)@.state
                &&& r == Err::<Option<ViewNumber>, Error>(e)
            },
        },
{
}

/// The encoding of a voter set state: a byte that tells whether the voter is paused, the completed
/// views, and the views that run, in increasing order and each with its vote. It fits if its lists
/// do.
pub proof fn law_state_encoding(
    completed: CompletedViewsView,
    current: Map<ViewNumber, HasVoted>,
    view: ViewNumber,
    i: int,
    j: int,
)
    requires
        current.dom().finite(),
    ensures
        record_bytes(record_of(VoterSetStateView::Paused { completed })) == seq![1u8]
            + CompletedViews::bytes(completed),
        record_bytes(record_of(VoterSetStateView::Live { completed, current })) == seq![0u8]
            + CompletedViews::bytes(completed) + Vec::<(ViewNumber, HasVoted)>::bytes(
            listing(current),
        ),
        0 <= i < j < listing(current).len() ==> listing(current)[i].0 < listing(current)[j].0,
        current.contains_key(view) <==> exists|k: int|
            0 <= k < listing(current).len() && (#[trigger] listing(current)[k]) == (
                view,
                current[view],
            ),
        record_fits(record_of(VoterSetStateView::Paused { completed })) <==> CompletedViews::fits(
            completed,
        ),
        record_fits(record_of(VoterSetStateView::Live { completed, current }))
            <==> CompletedViews::fits(completed) && listing(current).len() <= u32::MAX,
{
    lemma_listing_exists(current);
    let all = listing(current);
    assert(record_bytes(record_of(VoterSetStateView::Live { completed, current })) =~= seq![0u8]
        + CompletedViews::bytes(completed) + Vec::<(ViewNumber, HasVoted)>::bytes(all));
    if current.contains_key(view) {
        let k = choose|k: int| 0 <= k < all.len() && (#[trigger] all[k]).0 == view;
        assert(all[k] == (view, current[view]));
    }
    if exists|k: int| 0 <= k < all.len() && (#[trigger] all[k]) == (view, current[view]) {
        let k = choose|k: int| 0 <= k < all.len() && (#[trigger] all[k]) == (view, current[view]);
        assert(current.contains_key(all[k].0));
    }
}

/// What is said of bytes that hold no voter set state: that the first byte is missing or stands
/// for nothing, or which field behind it cannot be read, and what is said of that field.
pub proof fn law_state_errors(s: Seq<u8>)
    ensures
        record_error(Seq::empty()) == chained(
            "Could not decode `"@ + "VoterSetState"@ + "`, failed to read variant byte"@,
            TOO_SHORT@,
        ),
        s.len() > 0 && s[0] != 0 && s[0] != 1 ==> record_error(s)
            == "Could not decode `"@ + "VoterSetState"@ + "`, variant doesn't exist"@,
        s.len() > 0 && s[0] == 0 ==> record_error(s)
            == <(
                Field<VOTER_SET_STATE_LIVE_COMPLETED_VIEWS, CompletedViews>,
                Field<
                    VOTER_SET_STATE_LIVE_CURRENT_VIEWS,
                    Vec<(ViewNumber, HasVoted)>,
                >,
            )>::error(s.subrange(1, s.len() as int)),
        s.len() > 0 && s[0] == 1 ==> record_error(s)
            == Field::<VOTER_SET_STATE_PAUSED_COMPLETED_VIEWS, CompletedViews>::error(
                s.subrange(1, s.len() as int),
            ),
{
}

} // verus!
