//! The last completed views of a voter set.
use crate::authorities::AuthoritySet;
use crate::fields::{
    Field, COMPLETED_VIEW_BASE, COMPLETED_VIEW_NUMBER, COMPLETED_VIEW_STATE, COMPLETED_VIEW_VOTES,
};
use crate::messages::{
    copy_ids, AuthorityId, BlockHash, BlockNumber, Ids, SetId, SignedMessage, ViewNumber,
};
use crate::scale::{begins, le_bytes, Codec};
use crate::votes::ViewState;
use vstd::prelude::*;

verus! {

/// Data about a completed view. The set of votes that is stored must be
/// minimal, i.e. at most one equivocation is stored per voter.
#[derive(Debug, PartialEq, Eq)]
pub struct CompletedView {
    /// The view number.
    pub number: ViewNumber,
    /// The view state (prevote ghost, estimate, finalized, etc.)
    pub state: ViewState,
    /// The target block base used for voting in the view.
    pub base: (BlockHash, BlockNumber),
    /// All the votes observed in the view.
    pub votes: Vec<SignedMessage>,
}

/// What is known of a completed view.
#[verifier::ext_equal]
pub struct CompletedViewView {
    /// The view number.
    pub number: ViewNumber,
    /// The view state.
    pub state: ViewState,
    /// The target block base used for voting in the view.
    pub base: (BlockHash, BlockNumber),
    /// All the votes observed in the view.
    pub votes: Seq<SignedMessage>,
}

impl View for CompletedView {
    type V = CompletedViewView;

    open spec fn view(&self) -> CompletedViewView {
        CompletedViewView {
            number: self.number,
            state: self.state,
            base: self.base,
            votes: self.votes@,
        }
    }
}

impl Clone for CompletedView {
    fn clone(&self) -> (r: Self)
        ensures
            r@ == self@,
    {
        let mut votes: Vec<SignedMessage> = Vec::new();
        for i in 0..self.votes.len()
            invariant
                votes@ == self.votes@.subrange(0, i as int),
        {
            votes.push(self.votes[i]);
            assert(self.votes@.subrange(0, i + 1) =~= self.votes@.subrange(0, i as int).push(
                self.votes@[i as int],
            ));
        }
        assert(self.votes@.subrange(0, self.votes@.len() as int) =~= self.votes@);
        CompletedView { number: self.number, state: self.state, base: self.base, votes }
    }
}

/// The fields of a completed view, in order.
type ViewRow = (
    Field<COMPLETED_VIEW_NUMBER, ViewNumber>,
    (
        Field<COMPLETED_VIEW_STATE, ViewState>,
        (
            Field<COMPLETED_VIEW_BASE, (BlockHash, BlockNumber)>,
            Field<COMPLETED_VIEW_VOTES, Vec<SignedMessage>>,
        ),
    ),
);

/// The row of the view.
pub open spec fn view_row(v: CompletedViewView) -> (
    ViewNumber,
    (ViewState, ((BlockHash, BlockNumber), Seq<SignedMessage>)),
) {
    (v.number, (v.state, (v.base, v.votes)))
}

/// The fields in order.
impl Codec for CompletedView {
    type Value = CompletedViewView;

    open spec fn value(&self) -> CompletedViewView {
        self@
    }

    open spec fn fits(v: CompletedViewView) -> bool {
        ViewRow::fits(view_row(v))
    }

    open spec fn bytes(v: CompletedViewView) -> Seq<u8> {
        ViewRow::bytes(view_row(v))
    }

    open spec fn error(s: Seq<u8>) -> Seq<char> {
        ViewRow::error(s)
    }

    proof fn unique(s: Seq<u8>, a: CompletedViewView, b: CompletedViewView) {
        ViewRow::unique(s, view_row(a), view_row(b));
    }

    fn encode_to(&self, out: &mut Vec<u8>) {
        let ghost before = out@;
        assert(self.votes.value() =~= self.votes@);
        self.number.encode_to(out);
        self.state.encode_to(out);
        self.base.encode_to(out);
        self.votes.encode_to(out);
        assert(out@ =~= before + Self::bytes(self@));
    }

    fn decode_at(input: &[u8], at: usize) -> (r: Result<(Self, usize), String>) {
        match ViewRow::decode_at(input, at) {
            Ok(((number, (state, (base, votes))), end)) => {
                assert(votes.value.value() =~= votes.value@);
                Ok(
                    (
                        CompletedView {
                            number: number.value,
                            state: state.value,
                            base: base.value,
                            votes: votes.value,
                        },
                        end,
                    ),
                )
            },
            Err(e) => {
                proof {
                    assert forall|v: CompletedViewView| Self::fits(v) implies !begins(
                        input@.subrange(at as int, input@.len() as int),
                        #[trigger] Self::bytes(v),
                    ) by {
                        assert(Self::bytes(v) == ViewRow::bytes(view_row(v)));
                    }
                }
                Err(e)
            },
        }
    }
}

/// Data about last completed views within a single voter set. Stores
/// `NUM_LAST_COMPLETED_VIEWS` and always contains data about at least one view
/// (genesis).
#[derive(Debug, PartialEq, Eq)]
pub struct CompletedViews {
    views: Vec<CompletedView>,
    set_id: SetId,
    voters: Vec<AuthorityId>,
}

/// How many completed views are kept.
pub const NUM_LAST_COMPLETED_VIEWS: usize = 2;

/// What is known of the last completed views, the latest first.
#[verifier::ext_equal]
pub struct CompletedViewsView {
    /// The views, the latest first.
    pub views: Seq<CompletedViewView>,
    /// The set id of the views.
    pub set_id: SetId,
    /// The voters of the views.
    pub voters: Seq<AuthorityId>,
}

/// What is known of each of the views.
pub open spec fn views_of(views: Seq<CompletedView>) -> Seq<CompletedViewView> {
    views.map_values(|v: CompletedView| v@)
}

impl View for CompletedViews {
    type V = CompletedViewsView;

    closed spec fn view(&self) -> CompletedViewsView {
        CompletedViewsView {
            views: views_of(self.views@),
            set_id: self.set_id,
            voters: self.voters@,
        }
    }
}

/// The numbers strictly decrease.
pub open spec fn latest_first(views: Seq<CompletedViewView>) -> bool {
    forall|i: int, j: int|
        0 <= i < j < views.len() ==> (#[trigger] views[i]).number > (#[trigger] views[j]).number
}

impl CompletedViewsView {
    /// The latest view comes first, no view comes twice, and there is at least one and at most
    /// `NUM_LAST_COMPLETED_VIEWS`.
    pub open spec fn well_formed(self) -> bool {
        &&& 1 <= self.views.len() <= NUM_LAST_COMPLETED_VIEWS
        &&& latest_first(self.views)
    }
}

/// `views` with `view` in its place: instead of the one with its number, or between those with
/// higher and those with lower numbers.
pub open spec fn placed(
    views: Seq<CompletedViewView>,
    view: CompletedViewView,
) -> Seq<CompletedViewView>
    decreases views.len(),
{
    if views.len() == 0 {
        seq![view]
    } else if view.number > views.first().number {
        seq![view] + views
    } else if view.number == views.first().number {
        seq![view] + views.drop_first()
    } else {
        seq![views.first()] + placed(views.drop_first(), view)
    }
}

/// `views` with `view` in its place, without the oldest if there are too many.
pub open spec fn pushed(
    views: Seq<CompletedViewView>,
    view: CompletedViewView,
) -> Seq<CompletedViewView> {
    let all = placed(views, view);
    if all.len() > NUM_LAST_COMPLETED_VIEWS {
        all.drop_last()
    } else {
        all
    }
}

/// `r` is the highest number of a view, if there is a view.
pub open spec fn is_highest(views: Seq<CompletedViewView>, r: Option<ViewNumber>) -> bool {
    match r {
        None => views.len() == 0,
        Some(n) => {
            &&& exists|i: int| 0 <= i < views.len() && (#[trigger] views[i]).number == n
            &&& forall|i: int| 0 <= i < views.len() ==> (#[trigger] views[i]).number <= n
        },
    }
}

proof fn lemma_placed_split(views: Seq<CompletedViewView>, view: CompletedViewView, p: int)
    requires
        0 <= p <= views.len(),
        forall|i: int| 0 <= i < p ==> (#[trigger] views[i]).number > view.number,
    ensures
        placed(views, view) == views.subrange(0, p) + placed(
            views.subrange(p, views.len() as int),
            view,
        ),
    decreases p,
{
    if p == 0 {
        assert(views.subrange(0, views.len() as int) =~= views);
        assert(placed(views, view) =~= views.subrange(0, 0) + placed(views, view));
    } else {
        let tail = views.drop_first();
        assert forall|i: int| 0 <= i < p - 1 implies (#[trigger] tail[i]).number > view.number by {
            assert(tail[i] == views[i + 1]);
        }
        lemma_placed_split(tail, view, p - 1);
        assert(views.first() == views[0]);
        assert(tail.subrange(p - 1, tail.len() as int) =~= views.subrange(p, views.len() as int));
        assert(views.subrange(0, p) =~= seq![views.first()] + tail.subrange(0, p - 1));
        assert(placed(views, view) =~= views.subrange(0, p) + placed(
            views.subrange(p, views.len() as int),
            view,
        ));
    }
}

proof fn lemma_placed(views: Seq<CompletedViewView>, view: CompletedViewView)
    requires
        latest_first(views),
    ensures
        latest_first(placed(views, view)),
        views.len() <= placed(views, view).len() <= views.len() + 1,
        placed(views, view).len() >= 1,
        placed(views, view).first().number == (if views.len() > 0 && views.first().number
            > view.number {
            views.first().number
        } else {
            view.number
        }),
        forall|x: CompletedViewView| #[trigger]
            placed(views, view).contains(x) <==> x == view || (views.contains(x) && x.number
                != view.number),
    decreases views.len(),
{
    let all = placed(views, view);
    if views.len() == 0 {
        assert(all[0] == view);
    } else {
        let tail = views.drop_first();
        assert forall|i: int, j: int| 0 <= i < j < tail.len() implies (#[trigger] tail[i]).number
            > (#[trigger] tail[j]).number by {
            assert(tail[i] == views[i + 1] && tail[j] == views[j + 1]);
        }
        assert(views.first() == views[0]);
        assert forall|x: CompletedViewView| #[trigger] views.contains(x) <==> x == views[0]
            || tail.contains(x) by {
            if views.contains(x) {
                let i = choose|i: int| 0 <= i < views.len() && views[i] == x;
                if i > 0 {
                    assert(tail[i - 1] == x);
                }
            }
            if tail.contains(x) {
                let i = choose|i: int| 0 <= i < tail.len() && tail[i] == x;
                assert(views[i + 1] == x);
            }
        }
        assert forall|x: CompletedViewView| #[trigger] tail.contains(x) implies x.number
            < views[0].number by {
            let i = choose|i: int| 0 <= i < tail.len() && tail[i] == x;
            assert(views[i + 1] == x);
        }
        if view.number > views[0].number {
            assert forall|x: CompletedViewView| #[trigger] all.contains(x) <==> x == view
                || views.contains(x) by {
                if all.contains(x) {
                    let i = choose|i: int| 0 <= i < all.len() && all[i] == x;
                    if i > 0 {
                        assert(views[i - 1] == x);
                    }
                }
                if views.contains(x) {
                    let i = choose|i: int| 0 <= i < views.len() && views[i] == x;
                    assert(all[i + 1] == x);
                }
                assert(all[0] == view);
            }
        } else if view.number == views[0].number {
            assert forall|x: CompletedViewView| #[trigger] all.contains(x) <==> x == view
                || tail.contains(x) by {
                if all.contains(x) {
                    let i = choose|i: int| 0 <= i < all.len() && all[i] == x;
                    if i > 0 {
                        assert(tail[i - 1] == x);
                    }
                }
                if tail.contains(x) {
                    let i = choose|i: int| 0 <= i < tail.len() && tail[i] == x;
                    assert(all[i + 1] == x);
                }
                assert(all[0] == view);
            }
        } else {
            lemma_placed(tail, view);
            let rest = placed(tail, view);
            assert forall|x: CompletedViewView| #[trigger] all.contains(x) <==> x == views[0]
                || rest.contains(x) by {
                if all.contains(x) {
                    let i = choose|i: int| 0 <= i < all.len() && all[i] == x;
                    if i > 0 {
                        assert(rest[i - 1] == x);
                    }
                }
                if rest.contains(x) {
                    let i = choose|i: int| 0 <= i < rest.len() && rest[i] == x;
                    assert(all[i + 1] == x);
                }
                assert(all[0] == views[0]);
            }
            assert(rest.first() == rest[0]);
            assert forall|i: int, j: int| 0 <= i < j < all.len() implies (#[trigger] all[i]).number
                > (#[trigger] all[j]).number by {
                assert(rest.contains(rest[j - 1]));
                if i > 0 {
                    assert(all[i] == rest[i - 1]);
                }
            }
        }
    }
}

/// Pushing a view keeps the completed views well formed.
pub proof fn law_push_keeps_well_formed(views: CompletedViewsView, view: CompletedViewView)
    requires
        views.well_formed(),
    ensures
        (CompletedViewsView { views: pushed(views.views, view), ..views }).well_formed(),
{
    lemma_placed(views.views, view);
    let all = placed(views.views, view);
    assert forall|i: int, j: int|
        0 <= i < j < pushed(views.views, view).len() implies (#[trigger] pushed(
        views.views,
        view,
    )[i]).number > (#[trigger] pushed(views.views, view)[j]).number by {
        assert(pushed(views.views, view)[i] == all[i]);
        assert(pushed(views.views, view)[j] == all[j]);
    }
}

/// After pushing a view, the latest completed view is the one with the higher number of the
/// pushed and the latest before; the pushed if the numbers are the same.
pub proof fn law_push_keeps_latest(views: CompletedViewsView, view: CompletedViewView)
    requires
        views.well_formed(),
    ensures
        pushed(views.views, view).first() == (if views.views.first().number > view.number {
            views.views.first()
        } else {
            view
        }),
{
    let all = placed(views.views, view);
    lemma_placed(views.views, view);
    assert(pushed(views.views, view).first() == all[0]);
    assert(all.contains(all[0]));
    if views.views.first().number > view.number {
        assert(all[0] == views.views.first());
    } else {
        assert(all[0] == view);
    }
}

/// A pushed view is kept unless it is older than as many views as are kept; and nothing else
/// than the view and earlier completed views is there afterwards.
pub proof fn law_push_evicts_oldest(views: CompletedViewsView, view: CompletedViewView)
    requires
        views.well_formed(),
    ensures
        forall|x: CompletedViewView| #[trigger]
            pushed(views.views, view).contains(x) ==> x == view || views.views.contains(x),
        forall|x: CompletedViewView, y: CompletedViewView|
            (x == view || (views.views.contains(x) && x.number != view.number))
                && !#[trigger] pushed(views.views, view).contains(x) && #[trigger] pushed(
                views.views,
                view,
            ).contains(y) ==> x.number < y.number,
{
    lemma_placed(views.views, view);
    let all = placed(views.views, view);
    let kept = pushed(views.views, view);
    assert forall|x: CompletedViewView| #[trigger] kept.contains(x) implies all.contains(x) by {
        let i = choose|i: int| 0 <= i < kept.len() && kept[i] == x;
        assert(all[i] == x);
    }
    assert forall|x: CompletedViewView, y: CompletedViewView|
        (x == view || (views.views.contains(x) && x.number != view.number))
            && !#[trigger] kept.contains(x) && #[trigger] kept.contains(y) implies x.number
        < y.number by {
        assert(all.contains(x));
        let i = choose|i: int| 0 <= i < all.len() && all[i] == x;
        let j = choose|j: int| 0 <= j < kept.len() && kept[j] == y;
        assert(all[j] == y);
        if i < kept.len() {
            assert(kept[i] == x);
        }
    }
}

/// Pushing a view a second time changes nothing.
pub proof fn law_push_is_idempotent(views: CompletedViewsView, view: CompletedViewView)
    requires
        views.well_formed(),
    ensures
        pushed(pushed(views.views, view), view) == pushed(views.views, view),
{
    law_push_keeps_well_formed(views, view);
    let kept = pushed(views.views, view);
    if kept.contains(view) {
        let p = choose|i: int| 0 <= i < kept.len() && kept[i] == view;
        lemma_placed_split(kept, view, p);
        let rest = kept.subrange(p, kept.len() as int);
        assert(rest.first() == view);
        assert(placed(rest, view) =~= rest);
        assert(kept.subrange(0, p) + rest =~= kept);
    } else {
        let (v, all) = (views.views, placed(views.views, view));
        lemma_placed(v, view);
        assert(all.contains(view));
        let p = choose|i: int| 0 <= i < all.len() && all[i] == view;
        assert(p == NUM_LAST_COMPLETED_VIEWS) by {
            if p < kept.len() {
                assert(kept[p] == view);
            }
        }
        assert forall|i: int| 0 <= i < v.len() implies (#[trigger] v[i]).number > view.number by {
            assert(v.contains(v[i]));
            if v[i].number == view.number {
                lemma_placed_split(v, view, i);
                let rest = v.subrange(i, v.len() as int);
                assert(rest.first() == v[i]);
            } else {
                assert(all.contains(v[i]));
            }
        }
        lemma_placed_split(v, view, v.len() as int);
        assert(kept =~= v);
    }
}

impl CompletedViews {
    /// Create a new completed views tracker with `NUM_LAST_COMPLETED_VIEWS` capacity.
    pub fn new(genesis: CompletedView, set_id: SetId, voters: &AuthoritySet) -> (r: Self)
        ensures
            r@ == (CompletedViewsView {
                views: seq![genesis@],
                set_id,
                voters: voters@.current_authorities,
            }),
            r@.well_formed(),
    {
        let mut views: Vec<CompletedView> = Vec::with_capacity(NUM_LAST_COMPLETED_VIEWS);
        views.push(genesis);
        let voters = copy_ids(voters.current_authorities.as_slice());
        assert(views_of(views@) =~= seq![genesis@]);
        CompletedViews { views, set_id, voters }
    }

    /// Get the set-id and voter set of the completed views.
    pub fn set_info(&self) -> (r: (SetId, &[AuthorityId]))
        ensures
            r.0 == self@.set_id,
            r.1@ == self@.voters,
    {
        (self.set_id, self.voters.as_slice())
    }

    /// All completed views, the oldest first.
    pub fn iter(&self) -> (r: Vec<&CompletedView>)
        ensures
            r@.len() == self@.views.len(),
            forall|i: int|
                0 <= i < r@.len() ==> (#[trigger] r@[i])@ == self@.views[self@.views.len() - 1 - i],
    {
        let mut all: Vec<&CompletedView> = Vec::new();
        let n = self.views.len();
        for i in 0..n
            invariant
                n == self.views@.len(),
                all@.len() == i,
                forall|j: int| 0 <= j < i ==> (#[trigger] all@[j])@ == self@.views[n - 1 - j],
        {
            all.push(&self.views[n - 1 - i]);
        }
        all
    }

    /// Returns the last (latest) completed view.
    pub fn last(&self) -> (r: &CompletedView)
        requires
            self@.views.len() > 0,
        ensures
            r@ == self@.views.first(),
    {
        &self.views[0]
    }

    /// Whether there is no completed view, so that there is no last one.
    pub fn is_empty(&self) -> (r: bool)
        ensures
            r == (self@.views.len() == 0),
    {
        self.views.len() == 0
    }

    /// Push a new completed view, oldest view is evicted if number of views
    /// is higher than `NUM_LAST_COMPLETED_VIEWS`.
    pub fn push(&mut self, completed_view: CompletedView)
        requires
            latest_first(old(self)@.views),
        ensures
            final(self)@ == (CompletedViewsView {
                views: pushed(old(self)@.views, completed_view@),
                ..old(self)@
            }),
            old(self)@.well_formed() ==> final(self)@.well_formed(),
    {
        let ghost before = self@;
        let ghost new = completed_view@;
        let mut p: usize = 0;
        while p < self.views.len() && self.views[p].number > completed_view.number
            invariant
                self@ == before,
                new == completed_view@,
                p <= self.views@.len(),
                forall|i: int| 0 <= i < p ==> (#[trigger] before.views[i]).number > new.number,
            decreases self.views@.len() - p,
        {
            p = p + 1;
        }
        proof {
            lemma_placed_split(before.views, new, p as int);
            let rest = before.views.subrange(p as int, before.views.len() as int);
            if p < before.views.len() {
                assert(rest.first() == self.views@[p as int]@);
            }
        }
        if p < self.views.len() && self.views[p].number == completed_view.number {
            self.views.set(p, completed_view);
        } else {
            self.views.insert(p, completed_view);
        }
        assert(views_of(self.views@) =~= placed(before.views, new));
        if self.views.len() > NUM_LAST_COMPLETED_VIEWS {
            self.views.pop();
            assert(views_of(self.views@) =~= placed(before.views, new).drop_last());
        }
        proof {
            if before.well_formed() {
                law_push_keeps_well_formed(before, new);
            }
        }
    }

    /// The highest number of a completed view.
    pub fn highest(&self) -> (r: Option<ViewNumber>)
        ensures
            is_highest(self@.views, r),
    {
        if self.views.len() == 0 {
            return None;
        }
        let mut n: ViewNumber = self.views[0].number;
        assert(self@.views[0].number == n);
        for i in 1..self.views.len()
            invariant
                1 <= self.views@.len(),
                exists|j: int|
                    0 <= j < self@.views.len() && (#[trigger] self@.views[j]).number == n,
                forall|j: int| 0 <= j < i ==> (#[trigger] self@.views[j]).number <= n,
        {
            if self.views[i].number > n {
                n = self.views[i].number;
                assert(self@.views[i as int].number == n);
            }
        }
        Some(n)
    }
}

impl Clone for CompletedViews {
    fn clone(&self) -> (r: Self)
        ensures
            r@ == self@,
    {
        let mut views: Vec<CompletedView> = Vec::new();
        for i in 0..self.views.len()
            invariant
                views@.len() == i,
                forall|j: int| 0 <= j < i ==> (#[trigger] views@[j])@ == self.views@[j]@,
        {
            views.push(self.views[i].clone());
        }
        assert(views_of(views@) =~= views_of(self.views@));
        CompletedViews {
            views,
            set_id: self.set_id,
            voters: copy_ids(self.voters.as_slice()),
        }
    }
}

/// The views, the set id, and the voters.
type ViewsRow = (Vec<CompletedView>, (SetId, Ids));

/// The row of the completed views.
pub open spec fn views_row(v: CompletedViewsView) -> (
    Seq<CompletedViewView>,
    (SetId, Seq<AuthorityId>),
) {
    (v.views, (v.set_id, v.voters))
}

/// The views, the set id, and the voters.
impl Codec for CompletedViews {
    type Value = CompletedViewsView;

    open spec fn value(&self) -> CompletedViewsView {
        self@
    }

    open spec fn fits(v: CompletedViewsView) -> bool {
        ViewsRow::fits(views_row(v))
    }

    open spec fn bytes(v: CompletedViewsView) -> Seq<u8> {
        ViewsRow::bytes(views_row(v))
    }

    open spec fn error(s: Seq<u8>) -> Seq<char> {
        ViewsRow::error(s)
    }

    proof fn unique(s: Seq<u8>, a: CompletedViewsView, b: CompletedViewsView) {
        ViewsRow::unique(s, views_row(a), views_row(b));
    }

    fn encode_to(&self, out: &mut Vec<u8>) {
        let ghost before = out@;
        assert(self.views.value() =~= views_of(self.views@));
        assert(self.voters.value() =~= self.voters@);
        self.views.encode_to(out);
        self.set_id.encode_to(out);
        self.voters.encode_to(out);
        assert(out@ =~= before + Self::bytes(self@));
    }

    fn decode_at(input: &[u8], at: usize) -> (r: Result<(Self, usize), String>) {
        match ViewsRow::decode_at(input, at) {
            Ok(((views, (set_id, voters)), end)) => {
                assert(views.value() =~= views_of(views@));
                Ok((CompletedViews { views, set_id, voters: voters.ids }, end))
            },
            Err(e) => {
                proof {
                    assert forall|v: CompletedViewsView| Self::fits(v) implies !begins(
                        input@.subrange(at as int, input@.len() as int),
                        #[trigger] Self::bytes(v),
                    ) by {
                        assert(Self::bytes(v) == ViewsRow::bytes(views_row(v)));
                    }
                }
                Err(e)
            },
        }
    }
}

proof fn lemma_placed_len(views: Seq<CompletedViewView>, view: CompletedViewView)
    requires
        latest_first(views),
    ensures
        placed(views, view).len() == views.len() + (if exists|i: int|
            0 <= i < views.len() && (#[trigger] views[i]).number == view.number {
            0int
        } else {
            1int
        }),
    decreases views.len(),
{
    if views.len() > 0 {
        let tail = views.drop_first();
        assert(views.first() == views[0]);
        assert forall|i: int, j: int| 0 <= i < j < tail.len() implies (#[trigger] tail[i]).number
            > (#[trigger] tail[j]).number by {
            assert(tail[i] == views[i + 1] && tail[j] == views[j + 1]);
        }
        lemma_placed_len(tail, view);
        if exists|i: int| 0 <= i < tail.len() && (#[trigger] tail[i]).number == view.number {
            let i = choose|i: int|
                0 <= i < tail.len() && (#[trigger] tail[i]).number == view.number;
            assert(views[i + 1].number == view.number);
        }
        if exists|i: int| 0 <= i < views.len() && (#[trigger] views[i]).number == view.number {
            let i = choose|i: int|
                0 <= i < views.len() && (#[trigger] views[i]).number == view.number;
            if i > 0 {
                assert(tail[i - 1].number == view.number);
            }
        }
    }
}

/// Pushing a view keeps the set and its voters. What is held then is the pushed view and what was
/// held before, the latest first and each number once, with the pushed view in place of one with
/// its number. Of more than two the oldest leaves, and nothing else.
pub proof fn law_push_holds_the_latest(
    views: &mut CompletedViews,
    view: CompletedView,
    x: CompletedViewView,
    same: bool,
)
    requires
        call_ensures(CompletedViews::push, (views, view), ()),
        forall|i: int, j: int|
            0 <= i < j < old(views)@.views.len() ==> (#[trigger] old(views)@.views[i]).number > (
            #[trigger] old(views)@.views[j]).number,
        same == exists|i: int|
            0 <= i < old(views)@.views.len() && (#[trigger] old(views)@.views[i]).number
                == view.number,
    ensures
        final(views)@.set_id == old(views)@.set_id,
        final(views)@.voters == old(views)@.voters,
        ({
            let all = old(views)@.views.len() + (if same {
                0int
            } else {
                1int
            });
            final(views)@.views.len() == (if all > 2 {
                all - 1
            } else {
                all
            })
        }),
        forall|i: int, j: int|
            0 <= i < j < final(views)@.views.len() ==> (#[trigger] final(views)@.views[i]).number
                > (#[trigger] final(views)@.views[j]).number,
        final(views)@.views.contains(x) ==> x == view@ || (old(views)@.views.contains(x)
            && x.number != view.number),
        (x == view@ || (old(views)@.views.contains(x) && x.number != view.number))
            && !final(views)@.views.contains(x) ==> final(views)@.views.len() >= 2 && (forall|
            i: int,
        | 0 <= i < final(views)@.views.len() ==> x.number < (
            #[trigger] final(views)@.views[i]).number),
{
    let before = old(views)@.views;
    let all = placed(before, view@);
    lemma_placed(before, view@);
    lemma_placed_len(before, view@);
    let after = final(views)@.views;
    assert(after == pushed(before, view@));
    assert(forall|i: int| 0 <= i < after.len() ==> after[i] == #[trigger] all[i]);
    assert forall|i: int, j: int| 0 <= i < j < after.len() implies (#[trigger] after[i]).number > (
    #[trigger] after[j]).number by {
        assert(after[i] == all[i] && after[j] == all[j]);
    }
    if after.contains(x) {
        let i = choose|i: int| 0 <= i < after.len() && after[i] == x;
        assert(all[i] == x);
        assert(all.contains(x));
    }
    if all.contains(x) && !after.contains(x) {
        let k = choose|k: int| 0 <= k < all.len() && all[k] == x;
        if k < after.len() {
            assert(after[k] == x);
        }
        assert forall|i: int| 0 <= i < after.len() implies x.number < (
        #[trigger] after[i]).number by {
            assert(after[i] == all[i]);
            assert(all[i].number > all[k].number);
        }
    }
}

/// The highest number is that of a view, and no view has a higher one. There is none without views.
pub proof fn law_highest_number(views: CompletedViews, highest: Option<ViewNumber>)
    requires
        call_ensures(CompletedViews::highest, (&views,), highest),
    ensures
        highest is None <==> views@.views.len() == 0,
        highest matches Some(n) ==> (exists|i: int|
            0 <= i < views@.views.len() && (#[trigger] views@.views[i]).number == n) && (forall|
            i: int,
        | 0 <= i < views@.views.len() ==> (#[trigger] views@.views[i]).number <= n),
{
}

/// The views are listed from the oldest on, the last is the one listed last, and its number is the
/// highest.
pub proof fn law_last_is_the_highest(
    views: CompletedViews,
    all: Vec<&CompletedView>,
    last: &CompletedView,
    highest: Option<ViewNumber>,
    empty: bool,
)
    requires
        views@.well_formed(),
        call_ensures(CompletedViews::iter, (&views,), all),
        call_ensures(CompletedViews::last, (&views,), last),
        call_ensures(CompletedViews::highest, (&views,), highest),
        call_ensures(CompletedViews::is_empty, (&views,), empty),
    ensures
        !empty,
        all@.len() == views@.views.len(),
        forall|i: int| 0 <= i < all@.len() ==> (#[trigger] all@[i])@ == views@.views[all@.len() - 1
            - i],
        last@ == all@[all@.len() - 1]@,
        highest == Some(last@.number),
{
    assert(last@ == views@.views[0]);
    assert(all@[all@.len() - 1]@ == views@.views[0]);
    if let Some(n) = highest {
        let i = choose|i: int|
            0 <= i < views@.views.len() && (#[trigger] views@.views[i]).number == n;
        assert(views@.views[0].number <= n);
        if i > 0 {
            assert(views@.views[0].number > views@.views[i].number);
        }
    }
}

/// The completed views of a new set are the one given, of the set, with its current authorities as
/// the voters.
pub proof fn law_new_completed_views(
    genesis: CompletedView,
    set_id: SetId,
    set: AuthoritySet,
    r: CompletedViews,
    info: (SetId, &[AuthorityId]),
)
    requires
        call_ensures(CompletedViews::new, (genesis, set_id, &set), r),
        call_ensures(CompletedViews::set_info, (&r,), info),
    ensures
        r@.views.len() == 1,
        r@.views[0] == genesis@,
        info.0 == set_id,
        info.1@ == set@.current_authorities,
{
}

/// The encodings of completed views: of each the number, the state, the base and the votes; and of
/// all the views, the set id and the voters.
pub proof fn law_completed_encodings(view: CompletedViewView, views: CompletedViewsView)
    ensures
        CompletedView::bytes(view) == le_bytes(view.number as nat, 8) + ViewState::bytes(view.state)
            + view.base.0@ + le_bytes(view.base.1 as nat, 8) + Vec::<SignedMessage>::bytes(
            view.votes,
        ),
        CompletedViews::bytes(views) == Vec::<CompletedView>::bytes(views.views) + le_bytes(
            views.set_id as nat,
            8,
        ) + Vec::<AuthorityId>::bytes(views.voters),
        CompletedView::fits(view) <==> view.votes.len() <= u32::MAX,
        CompletedViews::fits(views) <==> Vec::<CompletedView>::fits(views.views)
            && views.voters.len() <= u32::MAX,
{
    assert(CompletedView::bytes(view) =~= le_bytes(view.number as nat, 8) + ViewState::bytes(
        view.state,
    ) + view.base.0@ + le_bytes(view.base.1 as nat, 8) + Vec::<SignedMessage>::bytes(view.votes));
    assert(CompletedViews::bytes(views) =~= Vec::<CompletedView>::bytes(views.views) + le_bytes(
        views.set_id as nat,
        8,
    ) + Vec::<AuthorityId>::bytes(views.voters));
}

/// What is said of bytes that hold no completed view: which of its fields cannot be read, the
/// first one at fault, and what is said of that field.
pub proof fn law_completed_view_errors(s: Seq<u8>)
    ensures
        CompletedView::error(s)
            == <(
                Field<COMPLETED_VIEW_NUMBER, ViewNumber>,
                (
                    Field<COMPLETED_VIEW_STATE, ViewState>,
                    (
                        Field<COMPLETED_VIEW_BASE, (BlockHash, BlockNumber)>,
                        Field<COMPLETED_VIEW_VOTES, Vec<SignedMessage>>,
                    ),
                ),
            )>::error(s),
{
}

/// What is said of bytes that hold no completed views: what is said of the views, of the set id or
/// of the voters, whichever comes first.
pub proof fn law_completed_views_errors(s: Seq<u8>)
    ensures
        CompletedViews::error(s) == <(Vec<CompletedView>, (SetId, Ids))>::error(s),
{
}

} // verus!
