//! Who leads the Jasmine round, and with which quorum certificate.
use std::sync::Arc;
use tokio::sync::Notify;
use vstd::prelude::*;

verus! {

/// `Notify` of `tokio`: wakes a task that waits for it.
#[verifier::external_type_specification]
#[verifier::external_body]
pub struct ExNotify(Notify);

/// `Notify::new` of `tokio`. Nothing is claimed of the new value.
pub assume_specification[ Notify::new ]() -> Notify
;

/// `Notify::notify_one` of `tokio`: wakes one waiting task, or the next that waits. Which task
/// that is depends on what else runs, so nothing is claimed.
pub assume_specification[ Notify::notify_one ](notify: &Notify)
;

/// Whether this node leads, and the quorum certificates it knows; a certificate is the number
/// and the digest of a block.
#[derive(Debug)]
pub struct LeaderInfo<N, D> {
    /// Whether this node leads, and the certificate it leads with.
    pub is_leader: (bool, Option<(N, D)>),
    /// The latest certificate.
    pub generic_qc: Option<(N, D)>,
    /// The current round.
    pub round: u64,
    /// What tasks wait on for changes.
    pub notify: Arc<Notify>,
}

/// `b` is a clone of `a`.
pub open spec fn qc_cloned<N: Clone, D: Clone>(a: (N, D), b: (N, D)) -> bool {
    cloned(a.0, b.0) && cloned(a.1, b.1)
}

fn clone_qc<N: Clone, D: Clone>(qc: &(N, D)) -> (r: (N, D))
    ensures
        qc_cloned(*qc, r),
{
    (qc.0.clone(), qc.1.clone())
}

/// `b` is a clone of `a`.
pub open spec fn qc_option_cloned<N: Clone, D: Clone>(
    a: Option<(N, D)>,
    b: Option<(N, D)>,
) -> bool {
    match a {
        Some(a) => b matches Some(b) && qc_cloned(a, b),
        None => b is None,
    }
}

fn clone_qc_option<N: Clone, D: Clone>(qc: &Option<(N, D)>) -> (r: Option<(N, D)>)
    ensures
        qc_option_cloned(*qc, r),
{
    match qc {
        Some(qc) => Some(clone_qc(qc)),
        None => None,
    }
}

impl<N: Clone, D: Clone> Clone for LeaderInfo<N, D> {
    fn clone(&self) -> (r: Self)
        ensures
            r.is_leader.0 == self.is_leader.0,
            qc_option_cloned(self.is_leader.1, r.is_leader.1),
            qc_option_cloned(self.generic_qc, r.generic_qc),
            r.round == self.round,
            r.notify == self.notify,
    {
        LeaderInfo {
            is_leader: (self.is_leader.0, clone_qc_option(&self.is_leader.1)),
            generic_qc: clone_qc_option(&self.generic_qc),
            round: self.round,
            notify: self.notify.clone(),
        }
    }
}

impl<N: Clone, D: Clone> LeaderInfo<N, D> {
    /// A follower in round 0 that knows no certificate.
    pub fn new() -> (r: Self)
        ensures
            r.is_leader == (false, None::<(N, D)>),
            r.generic_qc == None::<(N, D)>,
            r.round == 0,
    {
        let notify = Arc::new(Notify::new());
        Self { is_leader: (false, None), generic_qc: None, notify, round: 0 }
    }

    /// Leads the given round, unless that or a later one has been reached.
    pub fn become_leader(&mut self, round: u64)
        ensures
            *final(self) == (if old(self).round >= round {
                *old(self)
            } else {
                LeaderInfo { round, is_leader: (true, old(self).is_leader.1), ..*old(self) }
            }),
            final(self).round >= old(self).round,
    {
        if self.round >= round {
            return;
        }
        self.round = round;
        self.is_leader.0 = true;
    }

    /// Follows in the given round.
    pub fn become_follower(&mut self, round: u64)
        ensures
            *final(self) == (LeaderInfo {
                round,
                is_leader: (false, old(self).is_leader.1),
                ..*old(self)
            }),
    {
        self.round = round;
        self.is_leader.0 = false;
    }

    /// Leads with the given certificate, in the given round if no later one has been reached.
    pub fn become_leader_with_qc(&mut self, round: u64, qc: (N, D))
        ensures
            final(self).round == (if round > old(self).round {
                round
            } else {
                old(self).round
            }),
            final(self).round >= old(self).round,
            final(self).is_leader.0,
            final(self).is_leader.1 matches Some(led) && qc_cloned(qc, led),
            final(self).generic_qc == Some(qc),
            final(self).notify == old(self).notify,
    {
        if round > self.round {
            self.round = round;
        }
        self.is_leader.0 = true;
        self.is_leader.1 = Some(clone_qc(&qc));
        self.generic_qc = Some(qc);
    }

    /// Notes the latest certificate.
    pub fn gathered_a_qc(&mut self, qc: (N, D))
        ensures
            *final(self) == (LeaderInfo { generic_qc: Some(qc), ..*old(self) }),
    {
        self.generic_qc = Some(qc);
    }

    /// Whether this node leads, and the certificate it leads with.
    pub fn is_leader(&self) -> (r: (bool, Option<(N, D)>))
        ensures
            r.0 == self.is_leader.0,
            qc_option_cloned(self.is_leader.1, r.1),
    {
        (self.is_leader.0, clone_qc_option(&self.is_leader.1))
    }

    /// The latest certificate.
    pub fn generic_qc(&self) -> (r: (N, D))
        requires
            self.generic_qc is Some,
        ensures
            qc_cloned(self.generic_qc->0, r),
    {
        clone_qc(self.generic_qc.as_ref().unwrap())
    }

    /// What tasks wait on for changes.
    pub fn get_notify(&self) -> (r: Arc<Notify>)
        ensures
            r == self.notify,
    {
        self.notify.clone()
    }

    /// Wakes a task that waits for changes.
    pub fn notify(&self) {
        self.notify.notify_one();
    }

    /// Sets the round.
    pub fn set_round(&mut self, round: u64)
        ensures
            *final(self) == (LeaderInfo { round, ..*old(self) }),
    {
        self.round = round;
    }

    /// The current round.
    pub fn get_round(&self) -> (r: u64)
        ensures
            r == self.round,
    {
        self.round
    }
}

/// Becoming leader of a later round leads that round. A round that is reached or passed is not led
/// again, and nothing changes. The certificates stay in either case.
pub proof fn law_leads_later_rounds<N: Clone, D: Clone>(
    info: &mut LeaderInfo<N, D>,
    round: u64,
    now: u64,
    leads: (bool, Option<(N, D)>),
)
    requires
        call_ensures(LeaderInfo::<N, D>::become_leader, (info, round), ()),
        call_ensures(LeaderInfo::<N, D>::get_round, (&*final(info),), now),
        call_ensures(LeaderInfo::<N, D>::is_leader, (&*final(info),), leads),
    ensures
        now >= round && now >= old(info).round,
        round > old(info).round ==> now == round && leads.0,
        round <= old(info).round ==> *final(info) == *old(info),
        final(info).is_leader.1 == old(info).is_leader.1,
        final(info).generic_qc == old(info).generic_qc,
        final(info).notify == old(info).notify,
{
}

/// Becoming follower follows in the given round, whatever round was reached. The certificates stay.
pub proof fn law_follows_in_the_round<N: Clone, D: Clone>(
    info: &mut LeaderInfo<N, D>,
    round: u64,
    now: u64,
    leads: (bool, Option<(N, D)>),
)
    requires
        call_ensures(LeaderInfo::<N, D>::become_follower, (info, round), ()),
        call_ensures(LeaderInfo::<N, D>::get_round, (&*final(info),), now),
        call_ensures(LeaderInfo::<N, D>::is_leader, (&*final(info),), leads),
    ensures
        now == round,
        !leads.0,
        final(info).is_leader.1 == old(info).is_leader.1,
        final(info).generic_qc == old(info).generic_qc,
        final(info).notify == old(info).notify,
{
}

/// Becoming leader with a certificate leads with it, and it is the latest. The round never falls.
pub proof fn law_leads_with_the_certificate<N: Clone, D: Clone>(
    info: &mut LeaderInfo<N, D>,
    round: u64,
    qc: (N, D),
    now: u64,
)
    requires
        call_ensures(LeaderInfo::<N, D>::become_leader_with_qc, (info, round, qc), ()),
        call_ensures(LeaderInfo::<N, D>::get_round, (&*final(info),), now),
    ensures
        final(info).is_leader.0,
        final(info).is_leader.1 matches Some(led) && cloned(qc.0, led.0) && cloned(qc.1, led.1),
        final(info).generic_qc == Some(qc),
        now >= round && now >= old(info).round,
        now == round || now == old(info).round,
        final(info).notify == old(info).notify,
{
}

/// A new node follows in round 0 and knows no certificate. A certificate that it gathers is the
/// latest, and a round that is set is the current one; neither changes anything else.
pub proof fn law_gathers_and_sets<N: Clone, D: Clone>(
    made: LeaderInfo<N, D>,
    gathering: &mut LeaderInfo<N, D>,
    qc: (N, D),
    latest: (N, D),
    setting: &mut LeaderInfo<N, D>,
    round: u64,
    now: u64,
)
    requires
        call_ensures(LeaderInfo::<N, D>::new, (), made),
        call_ensures(LeaderInfo::<N, D>::gathered_a_qc, (gathering, qc), ()),
        call_ensures(LeaderInfo::<N, D>::generic_qc, (&*final(gathering),), latest),
        call_ensures(LeaderInfo::<N, D>::set_round, (setting, round), ()),
        call_ensures(LeaderInfo::<N, D>::get_round, (&*final(setting),), now),
    ensures
        !made.is_leader.0 && made.is_leader.1 is None && made.generic_qc is None && made.round
            == 0,
        cloned(qc.0, latest.0) && cloned(qc.1, latest.1),
        final(gathering).generic_qc == Some(qc),
        final(gathering).is_leader == old(gathering).is_leader,
        final(gathering).round == old(gathering).round,
        final(gathering).notify == old(gathering).notify,
        now == round,
        final(setting).is_leader == old(setting).is_leader,
        final(setting).generic_qc == old(setting).generic_qc,
        final(setting).notify == old(setting).notify,
{
}

/// A clone leads or follows as the original does, in the same round, with clones of its
/// certificates, and wakes the same tasks.
pub proof fn law_clone_leads_alike<N: Clone, D: Clone>(
    info: LeaderInfo<N, D>,
    r: LeaderInfo<N, D>,
    leads: (bool, Option<(N, D)>),
)
    requires
        call_ensures(<LeaderInfo<N, D> as Clone>::clone, (&info,), r),
        call_ensures(LeaderInfo::<N, D>::is_leader, (&info,), leads),
    ensures
        r.is_leader.0 == info.is_leader.0 && leads.0 == info.is_leader.0,
        r.round == info.round,
        r.notify == info.notify,
        info.is_leader.1 is None <==> r.is_leader.1 is None,
        info.is_leader.1 is None <==> leads.1 is None,
        info.is_leader.1 matches Some(qc) ==> {
            &&& cloned(qc.0, (r.is_leader.1->0).0) && cloned(qc.1, (r.is_leader.1->0).1)
            &&& cloned(qc.0, (leads.1->0).0) && cloned(qc.1, (leads.1->0).1)
        },
        info.generic_qc is None <==> r.generic_qc is None,
        info.generic_qc matches Some(qc) ==> cloned(qc.0, (r.generic_qc->0).0) && cloned(
            qc.1,
            (r.generic_qc->0).1,
        ),
{
}

} // verus!
