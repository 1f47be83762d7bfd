//! Signals about the authority set that blocks carry.
use crate::fields::{
    Field, CONSENSUS_LOG_FORCED_CHANGE_0, CONSENSUS_LOG_FORCED_CHANGE_1,
    CONSENSUS_LOG_ON_DISABLED_0, CONSENSUS_LOG_PAUSE_0, CONSENSUS_LOG_RESUME_0,
    CONSENSUS_LOG_SCHEDULED_CHANGE_0, SCHEDULED_CHANGE_DELAY, SCHEDULED_CHANGE_NEXT_AUTHORITIES,
};
use crate::messages::{AuthorityId, AuthorityList, Ids};
use crate::scale::{
    begins, chained, le_bytes, lemma_tagged, no_variant, no_variant_byte, unknown, unknown_variant,
    Codec, TOO_SHORT,
};
use vstd::prelude::*;

verus! {

/// The index of an authority.
pub type AuthorityIndex = u64;

/// A change of the authorities after a number of blocks.
#[derive(Clone, Debug, PartialEq, Eq)]
pub struct ScheduledChange<N> {
    /// The new authorities after the change.
    pub next_authorities: AuthorityList,
    /// The number of blocks to delay.
    pub delay: N,
}

/// A consensus log item.
#[derive(Clone, Debug, PartialEq, Eq)]
pub enum ConsensusLog<N> {
    /// Schedule an authority set change.
    ///
    /// The earliest digest of this type in a single block will be respected,
    /// provided that there is no `ForcedChange` digest. If there is, then the
    /// `ForcedChange` will take precedence.
    ///
    /// No change should be scheduled if one is already and the delay has not
    /// passed completely.
    ScheduledChange(ScheduledChange<N>),
    /// Force an authority set change.
    ///
    /// Forced changes are applied after a delay of _imported_ blocks,
    /// while pending changes are applied after a delay of _finalized_ blocks.
    ///
    /// The earliest digest of this type in a single block will be respected,
    /// with others ignored.
    ///
    /// No change should be scheduled if one is already and the delay has not
    /// passed completely.
    ForcedChange(N, ScheduledChange<N>),
    /// Note that the authority with given index is disabled until the next change.
    OnDisabled(AuthorityIndex),
    /// A signal to pause the current authority set after the given delay.
    /// After finalizing the block at _delay_ the authorities should stop voting.
    Pause(N),
    /// A signal to resume the current authority set after the given delay.
    /// After authoring the block at _delay_ the authorities should resume voting.
    Resume(N),
}

impl<N> ConsensusLog<N> {
    /// Try to cast the log entry as a contained signal.
    pub fn try_into_change(self) -> (r: Option<ScheduledChange<N>>)
        ensures
            r == (match self {
                ConsensusLog::ScheduledChange(change) => Some(change),
                _ => None,
            }),
    {
        match self {
            ConsensusLog::ScheduledChange(change) => Some(change),
            _ => None,
        }
    }

    /// Try to cast the log entry as a contained forced signal.
    pub fn try_into_forced_change(self) -> (r: Option<(N, ScheduledChange<N>)>)
        ensures
            r == (match self {
                ConsensusLog::ForcedChange(median, change) => Some((median, change)),
                _ => None,
            }),
    {
        match self {
            ConsensusLog::ForcedChange(median, change) => Some((median, change)),
            _ => None,
        }
    }

    /// Try to cast the log entry as a contained pause signal.
    pub fn try_into_pause(self) -> (r: Option<N>)
        ensures
            r == (match self {
                ConsensusLog::Pause(delay) => Some(delay),
                _ => None,
            }),
    {
        match self {
            ConsensusLog::Pause(delay) => Some(delay),
            _ => None,
        }
    }

    /// Try to cast the log entry as a contained resume signal.
    pub fn try_into_resume(self) -> (r: Option<N>)
        ensures
            r == (match self {
                ConsensusLog::Resume(delay) => Some(delay),
                _ => None,
            }),
    {
        match self {
            ConsensusLog::Resume(delay) => Some(delay),
            _ => None,
        }
    }
}

/// The authorities and the delay of a change.
type ChangeRow<N> = (
    Field<SCHEDULED_CHANGE_NEXT_AUTHORITIES, Ids>,
    Field<SCHEDULED_CHANGE_DELAY, N>,
);

/// The authorities and the delay.
impl<N: Codec> Codec for ScheduledChange<N> {
    type Value = (Seq<AuthorityId>, N::Value);

    open spec fn value(&self) -> (Seq<AuthorityId>, N::Value) {
        (self.next_authorities@, self.delay.value())
    }

    open spec fn fits(v: (Seq<AuthorityId>, N::Value)) -> bool {
        ChangeRow::<N>::fits(v)
    }

    open spec fn bytes(v: (Seq<AuthorityId>, N::Value)) -> Seq<u8> {
        ChangeRow::<N>::bytes(v)
    }

    open spec fn error(s: Seq<u8>) -> Seq<char> {
        ChangeRow::<N>::error(s)
    }

    proof fn unique(
        s: Seq<u8>,
        a: (Seq<AuthorityId>, N::Value),
        b: (Seq<AuthorityId>, N::Value),
    ) {
        ChangeRow::<N>::unique(s, a, b);
    }

    fn encode_to(&self, out: &mut Vec<u8>) {
        let ghost before = out@;
        assert(self.next_authorities.value() =~= self.next_authorities@);
        self.next_authorities.encode_to(out);
        self.delay.encode_to(out);
        assert(out@ =~= before + Self::bytes(self.value()));
    }

    fn decode_at(input: &[u8], at: usize) -> (r: Result<(Self, usize), String>) {
        match ChangeRow::<N>::decode_at(input, at) {
            Ok(((authorities, delay), end)) => {
                let next_authorities = authorities.value.ids;
                Ok((ScheduledChange { next_authorities, delay: delay.value }, end))
            },
            Err(e) => {
                proof {
                    assert forall|v: (Seq<AuthorityId>, N::Value)| Self::fits(v) implies !begins(
                        input@.subrange(at as int, input@.len() as int),
                        #[trigger] Self::bytes(v),
                    ) by {
                        assert(Self::bytes(v) == ChangeRow::<N>::bytes(v));
                    }
                }
                Err(e)
            },
        }
    }
}

/// What a consensus log item says.
pub enum ConsensusLogView<V> {
    /// The authorities and the delay of a change.
    ScheduledChange((Seq<AuthorityId>, V)),
    /// The median last finalized block, and the authorities and the delay of a change.
    ForcedChange((V, (Seq<AuthorityId>, V))),
    /// The index of a disabled authority.
    OnDisabled(AuthorityIndex),
    /// The delay of a pause.
    Pause(V),
    /// The delay of a resumption.
    Resume(V),
}

/// The byte that tells the kind.
pub open spec fn log_tag<V>(v: ConsensusLogView<V>) -> u8 {
    match v {
        ConsensusLogView::ScheduledChange(_) => 1,
        ConsensusLogView::ForcedChange(_) => 2,
        ConsensusLogView::OnDisabled(_) => 3,
        ConsensusLogView::Pause(_) => 4,
        ConsensusLogView::Resume(_) => 5,
    }
}

/// The change of a scheduled change.
type ScheduledRow<N> = Field<CONSENSUS_LOG_SCHEDULED_CHANGE_0, ScheduledChange<N>>;

/// The median and the change of a forced change.
type ForcedRow<N> = (
    Field<CONSENSUS_LOG_FORCED_CHANGE_0, N>,
    Field<CONSENSUS_LOG_FORCED_CHANGE_1, ScheduledChange<N>>,
);

/// The index of a disabled authority.
type DisabledRow = Field<CONSENSUS_LOG_ON_DISABLED_0, AuthorityIndex>;

/// The delay of a pause.
type PauseRow<N> = Field<CONSENSUS_LOG_PAUSE_0, N>;

/// The delay of a resumption.
type ResumeRow<N> = Field<CONSENSUS_LOG_RESUME_0, N>;

/// The encoding of what the signal holds.
pub open spec fn log_payload<N: Codec>(v: ConsensusLogView<N::Value>) -> Seq<u8> {
    match v {
        ConsensusLogView::ScheduledChange(x) => ScheduledRow::<N>::bytes(x),
        ConsensusLogView::ForcedChange(x) => ForcedRow::<N>::bytes(x),
        ConsensusLogView::OnDisabled(x) => DisabledRow::bytes(x),
        ConsensusLogView::Pause(x) => PauseRow::<N>::bytes(x),
        ConsensusLogView::Resume(x) => ResumeRow::<N>::bytes(x),
    }
}

/// A byte that tells the kind, and what the signal holds.
impl<N: Codec> Codec for ConsensusLog<N> {
    type Value = ConsensusLogView<N::Value>;

    open spec fn value(&self) -> ConsensusLogView<N::Value> {
        match self {
            ConsensusLog::ScheduledChange(x) => ConsensusLogView::ScheduledChange(x.value()),
            ConsensusLog::ForcedChange(m, x) => ConsensusLogView::ForcedChange(
                (m.value(), x.value()),
            ),
            ConsensusLog::OnDisabled(x) => ConsensusLogView::OnDisabled(*x),
            ConsensusLog::Pause(x) => ConsensusLogView::Pause(x.value()),
            ConsensusLog::Resume(x) => ConsensusLogView::Resume(x.value()),
        }
    }

    open spec fn fits(v: ConsensusLogView<N::Value>) -> bool {
        match v {
            ConsensusLogView::ScheduledChange(x) => ScheduledRow::<N>::fits(x),
            ConsensusLogView::ForcedChange(x) => ForcedRow::<N>::fits(x),
            ConsensusLogView::OnDisabled(x) => true,
            ConsensusLogView::Pause(x) => PauseRow::<N>::fits(x),
            ConsensusLogView::Resume(x) => ResumeRow::<N>::fits(x),
        }
    }

    open spec fn bytes(v: ConsensusLogView<N::Value>) -> Seq<u8> {
        seq![log_tag(v)] + log_payload::<N>(v)
    }

    open spec fn error(s: Seq<u8>) -> Seq<char> {
        let rest = s.subrange(1, s.len() as int);
        if s.len() == 0 {
            no_variant("ConsensusLog"@)
        } else if s[0] == 1 {
            ScheduledRow::<N>::error(rest)
        } else if s[0] == 2 {
            ForcedRow::<N>::error(rest)
        } else if s[0] == 3 {
            DisabledRow::error(rest)
        } else if s[0] == 4 {
            PauseRow::<N>::error(rest)
        } else if s[0] == 5 {
            ResumeRow::<N>::error(rest)
        } else {
            unknown("ConsensusLog"@)
        }
    }

    proof fn unique(
        s: Seq<u8>,
        a: ConsensusLogView<N::Value>,
        b: ConsensusLogView<N::Value>,
    ) {
        lemma_tagged(s, log_tag(a), log_payload::<N>(a));
        lemma_tagged(s, log_tag(b), log_payload::<N>(b));
        let t = s.subrange(1, s.len() as int);
        match (a, b) {
            (ConsensusLogView::ScheduledChange(x), ConsensusLogView::ScheduledChange(y)) => {
                ScheduledRow::<N>::unique(t, x, y);
            },
            (ConsensusLogView::ForcedChange(x), ConsensusLogView::ForcedChange(y)) => {
                ForcedRow::<N>::unique(t, x, y);
            },
            (ConsensusLogView::OnDisabled(x), ConsensusLogView::OnDisabled(y)) => {
                DisabledRow::unique(t, x, y);
            },
            (ConsensusLogView::Pause(x), ConsensusLogView::Pause(y)) => {
                PauseRow::<N>::unique(t, x, y);
            },
            (ConsensusLogView::Resume(x), ConsensusLogView::Resume(y)) => {
                ResumeRow::<N>::unique(t, x, y);
            },
            _ => {},
        }
    }

    fn encode_to(&self, out: &mut Vec<u8>) {
        let ghost before = out@;
        match self {
            ConsensusLog::ScheduledChange(x) => {
                out.push(1);
                x.encode_to(out);
            },
            ConsensusLog::ForcedChange(m, x) => {
                out.push(2);
                m.encode_to(out);
                x.encode_to(out);
            },
            ConsensusLog::OnDisabled(x) => {
                out.push(3);
                x.encode_to(out);
            },
            ConsensusLog::Pause(x) => {
                out.push(4);
                x.encode_to(out);
            },
            ConsensusLog::Resume(x) => {
                out.push(5);
                x.encode_to(out);
            },
        }
        assert(out@ =~= before + Self::bytes(self.value()));
    }

    fn decode_at(input: &[u8], at: usize) -> (r: Result<(Self, usize), String>) {
        let ghost rest = input@.subrange(at as int, input@.len() as int);
        proof {
            assert forall|v: ConsensusLogView<N::Value>|
                begins(rest, #[trigger] Self::bytes(v)) implies rest.len() > 0 && rest[0]
                == log_tag(v) && begins(
                input@.subrange(at + 1, input@.len() as int),
                log_payload::<N>(v),
            ) by {
                lemma_tagged(rest, log_tag(v), log_payload::<N>(v));
                assert(rest.subrange(1, rest.len() as int) =~= input@.subrange(
                    at + 1,
                    input@.len() as int,
                ));
            }
        }
        if at >= input.len() {
            return Err(no_variant_byte("ConsensusLog"));
        }
        let tag: u8 = input[at];
        assert(rest.subrange(1, rest.len() as int) =~= input@.subrange(
            at + 1,
            input@.len() as int,
        ));
        let found = if tag == 1 {
            match ScheduledRow::<N>::decode_at(input, at + 1) {
                Ok((x, end)) => Ok((ConsensusLog::ScheduledChange(x.value), end)),
                Err(e) => Err(e),
            }
        } else if tag == 2 {
            match ForcedRow::<N>::decode_at(input, at + 1) {
                Ok(((m, x), end)) => Ok(
                    (ConsensusLog::ForcedChange(m.value, x.value), end),
                ),
                Err(e) => Err(e),
            }
        } else if tag == 3 {
            match DisabledRow::decode_at(input, at + 1) {
                Ok((x, end)) => Ok((ConsensusLog::OnDisabled(x.value), end)),
                Err(e) => Err(e),
            }
        } else if tag == 4 {
            match PauseRow::<N>::decode_at(input, at + 1) {
                Ok((x, end)) => Ok((ConsensusLog::Pause(x.value), end)),
                Err(e) => Err(e),
            }
        } else if tag == 5 {
            match ResumeRow::<N>::decode_at(input, at + 1) {
                Ok((x, end)) => Ok((ConsensusLog::Resume(x.value), end)),
                Err(e) => Err(e),
            }
        } else {
            Err(unknown_variant("ConsensusLog"))
        };
        proof {
            if let Ok((_, end)) = found {
                assert(input@.subrange(at as int, end as int) =~= seq![tag] + input@.subrange(
                    at + 1,
                    end as int,
                ));
            }
        }
        found
    }
}

/// Each signal is cast as what it is and as nothing else.
pub proof fn law_signals_are_cast<N>(
    log: ConsensusLog<N>,
    change: Option<ScheduledChange<N>>,
    forced: Option<(N, ScheduledChange<N>)>,
    pause: Option<N>,
    resume: Option<N>,
)
    requires
        call_ensures(ConsensusLog::<N>::try_into_change, (log,), change),
        call_ensures(ConsensusLog::<N>::try_into_forced_change, (log,), forced),
        call_ensures(ConsensusLog::<N>::try_into_pause, (log,), pause),
        call_ensures(ConsensusLog::<N>::try_into_resume, (log,), resume),
    ensures
        change is Some <==> log is ScheduledChange,
        forced is Some <==> log is ForcedChange,
        pause is Some <==> log is Pause,
        resume is Some <==> log is Resume,
        change matches Some(c) ==> log == ConsensusLog::ScheduledChange(c),
        forced matches Some((n, c)) ==> log == ConsensusLog::ForcedChange(n, c),
        pause matches Some(n) ==> log == ConsensusLog::Pause(n),
        resume matches Some(n) ==> log == ConsensusLog::<N>::Resume(n),
{
}

/// The encodings of signals: a byte that counts the kinds from one, and what the signal holds.
pub proof fn law_signal_encodings<N: Codec>(
    ids: Seq<AuthorityId>,
    n: N::Value,
    m: N::Value,
    index: AuthorityIndex,
)
    ensures
        ScheduledChange::<N>::bytes((ids, n)) == Vec::<AuthorityId>::bytes(ids) + N::bytes(n),
        ConsensusLog::<N>::bytes(ConsensusLogView::ScheduledChange((ids, n))) == seq![1u8]
            + ScheduledChange::<N>::bytes((ids, n)),
        ConsensusLog::<N>::bytes(ConsensusLogView::ForcedChange((m, (ids, n)))) == seq![2u8]
            + N::bytes(m) + ScheduledChange::<N>::bytes((ids, n)),
        ConsensusLog::<N>::bytes(ConsensusLogView::OnDisabled(index)) == seq![3u8] + le_bytes(
            index as nat,
            8,
        ),
        ConsensusLog::<N>::bytes(ConsensusLogView::Pause(n)) == seq![4u8] + N::bytes(n),
        ConsensusLog::<N>::bytes(ConsensusLogView::Resume(n)) == seq![5u8] + N::bytes(n),
        ScheduledChange::<N>::fits((ids, n)) <==> ids.len() <= u32::MAX && N::fits(n),
        ConsensusLog::<N>::fits(ConsensusLogView::ScheduledChange((ids, n))) <==> ScheduledChange::<
            N,
        >::fits((ids, n)),
        ConsensusLog::<N>::fits(ConsensusLogView::ForcedChange((m, (ids, n)))) <==> N::fits(m)
            && ScheduledChange::<N>::fits((ids, n)),
        ConsensusLog::<N>::fits(ConsensusLogView::OnDisabled(index)),
        ConsensusLog::<N>::fits(ConsensusLogView::Pause(n)) <==> N::fits(n),
        ConsensusLog::<N>::fits(ConsensusLogView::Resume(n)) <==> N::fits(n),
{
    assert(ConsensusLog::<N>::bytes(ConsensusLogView::ForcedChange((m, (ids, n)))) =~= seq![2u8]
        + N::bytes(m) + ScheduledChange::<N>::bytes((ids, n)));
}

/// What is said of bytes that hold no scheduled change: which of its fields cannot be read, the
/// first one at fault, and what is said of that field.
pub proof fn law_scheduled_change_errors<N: Codec>(s: Seq<u8>)
    ensures
        ScheduledChange::<N>::error(s)
            == <(
                Field<SCHEDULED_CHANGE_NEXT_AUTHORITIES, Ids>,
                Field<SCHEDULED_CHANGE_DELAY, N>,
            )>::error(s),
{
}

/// What is said of bytes that hold no signal: that the first byte is missing or stands for
/// nothing, or which field behind it cannot be read, and what is said of that field.
pub proof fn law_signal_errors<N: Codec>(s: Seq<u8>)
    ensures
        ConsensusLog::<N>::error(Seq::empty()) == chained(
            "Could not decode `"@ + "ConsensusLog"@ + "`, failed to read variant byte"@,
            TOO_SHORT@,
        ),
        s.len() > 0 && s[0] != 1 && s[0] != 2 && s[0] != 3 && s[0] != 4 && s[0] != 5 ==>
            ConsensusLog::<N>::error(s)
            == "Could not decode `"@ + "ConsensusLog"@ + "`, variant doesn't exist"@,
        s.len() > 0 && s[0] == 1 ==> ConsensusLog::<N>::error(s)
            == Field::<CONSENSUS_LOG_SCHEDULED_CHANGE_0, ScheduledChange<N>>::error(
                s.subrange(1, s.len() as int),
            ),
        s.len() > 0 && s[0] == 2 ==> ConsensusLog::<N>::error(s)
            == <(
                Field<CONSENSUS_LOG_FORCED_CHANGE_0, N>,
                Field<CONSENSUS_LOG_FORCED_CHANGE_1, ScheduledChange<N>>,
            )>::error(s.subrange(1, s.len() as int)),
        s.len() > 0 && s[0] == 3 ==> ConsensusLog::<N>::error(s)
            == Field::<CONSENSUS_LOG_ON_DISABLED_0, AuthorityIndex>::error(
                s.subrange(1, s.len() as int),
            ),
        s.len() > 0 && s[0] == 4 ==> ConsensusLog::<N>::error(s)
            == Field::<CONSENSUS_LOG_PAUSE_0, N>::error(s.subrange(1, s.len() as int)),
        s.len() > 0 && s[0] == 5 ==> ConsensusLog::<N>::error(s)
            == Field::<CONSENSUS_LOG_RESUME_0, N>::error(s.subrange(1, s.len() as int)),
{
}

} // verus!
