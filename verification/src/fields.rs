//! The fields of what is encoded, by which a failure to decode is told.
use crate::scale::{begins, chain, chained, reads, Codec};
use vstd::prelude::*;
use vstd::string::StringExecFns;

verus! {

/// `AuthoritySet::current_authorities`.
pub const AUTHORITY_SET_CURRENT_AUTHORITIES: usize = 0;

/// `AuthoritySet::set_id`.
pub const AUTHORITY_SET_SET_ID: usize = 1;

/// `AuthoritySet::pending_standard_changes`.
pub const AUTHORITY_SET_PENDING_STANDARD_CHANGES: usize = 2;

/// `AuthoritySet::pending_forced_changes`.
pub const AUTHORITY_SET_PENDING_FORCED_CHANGES: usize = 3;

/// `AuthoritySet::authority_set_changes`.
pub const AUTHORITY_SET_AUTHORITY_SET_CHANGES: usize = 4;

/// `AuthoritySetChanges.0`.
pub const AUTHORITY_SET_CHANGES_0: usize = 5;

/// `PendingChange::next_authorities`.
pub const PENDING_CHANGE_NEXT_AUTHORITIES: usize = 6;

/// `PendingChange::delay`.
pub const PENDING_CHANGE_DELAY: usize = 7;

/// `PendingChange::canon_height`.
pub const PENDING_CHANGE_CANON_HEIGHT: usize = 8;

/// `PendingChange::canon_hash`.
pub const PENDING_CHANGE_CANON_HASH: usize = 9;

/// `PendingChange::delay_kind`.
pub const PENDING_CHANGE_DELAY_KIND: usize = 10;

/// `DelayKind::Best::median_last_finalized`.
pub const DELAY_KIND_BEST_MEDIAN_LAST_FINALIZED: usize = 11;

/// `VoterSetState::Live::completed_views`.
pub const VOTER_SET_STATE_LIVE_COMPLETED_VIEWS: usize = 12;

/// `VoterSetState::Live::current_views`.
pub const VOTER_SET_STATE_LIVE_CURRENT_VIEWS: usize = 13;

/// `VoterSetState::Paused::completed_views`.
pub const VOTER_SET_STATE_PAUSED_COMPLETED_VIEWS: usize = 14;

/// `CompletedView::number`.
pub const COMPLETED_VIEW_NUMBER: usize = 15;

/// `CompletedView::state`.
pub const COMPLETED_VIEW_STATE: usize = 16;

/// `CompletedView::base`.
pub const COMPLETED_VIEW_BASE: usize = 17;

/// `CompletedView::votes`.
pub const COMPLETED_VIEW_VOTES: usize = 18;

/// `State::prevote_ghost`.
pub const STATE_PREVOTE_GHOST: usize = 19;

/// `State::finalized`.
pub const STATE_FINALIZED: usize = 20;

/// `State::estimate`.
pub const STATE_ESTIMATE: usize = 21;

/// `State::completable`.
pub const STATE_COMPLETABLE: usize = 22;

/// `HasVoted::Yes.0`.
pub const HAS_VOTED_YES_0: usize = 23;

/// `HasVoted::Yes.1`.
pub const HAS_VOTED_YES_1: usize = 24;

/// `Vote::PrePrepare.0`.
pub const VOTE_PRE_PREPARE_0: usize = 25;

/// `Vote::Prepare.0`.
pub const VOTE_PREPARE_0: usize = 26;

/// `Vote::Prepare.1`.
pub const VOTE_PREPARE_1: usize = 27;

/// `Vote::Commit.0`.
pub const VOTE_COMMIT_0: usize = 28;

/// `Vote::Commit.1`.
pub const VOTE_COMMIT_1: usize = 29;

/// `Vote::Commit.2`.
pub const VOTE_COMMIT_2: usize = 30;

/// `PrePrepare::target_hash`.
pub const PRE_PREPARE_TARGET_HASH: usize = 31;

/// `PrePrepare::target_number`.
pub const PRE_PREPARE_TARGET_NUMBER: usize = 32;

/// `Prepare::target_hash`.
pub const PREPARE_TARGET_HASH: usize = 33;

/// `Prepare::target_number`.
pub const PREPARE_TARGET_NUMBER: usize = 34;

/// `Commit::target_hash`.
pub const COMMIT_TARGET_HASH: usize = 35;

/// `Commit::target_number`.
pub const COMMIT_TARGET_NUMBER: usize = 36;

/// `Message::PrePrepare.0`.
pub const MESSAGE_PRE_PREPARE_0: usize = 37;

/// `Message::Prepare.0`.
pub const MESSAGE_PREPARE_0: usize = 38;

/// `Message::Commit.0`.
pub const MESSAGE_COMMIT_0: usize = 39;

/// `SignedMessage::message`.
pub const SIGNED_MESSAGE_MESSAGE: usize = 40;

/// `SignedMessage::signature`.
pub const SIGNED_MESSAGE_SIGNATURE: usize = 41;

/// `SignedMessage::id`.
pub const SIGNED_MESSAGE_ID: usize = 42;

/// `Public.0`.
pub const PUBLIC_0: usize = 43;

/// `Signature.0`.
pub const SIGNATURE_0: usize = 44;

/// `GossipMessage::Message.0`.
pub const GOSSIP_MESSAGE_MESSAGE_0: usize = 45;

/// `Message::view`.
pub const MESSAGE_VIEW: usize = 46;

/// `Message::set_id`.
pub const MESSAGE_SET_ID: usize = 47;

/// `Message::message`.
pub const MESSAGE_MESSAGE: usize = 48;

/// `View.0`.
pub const VIEW_0: usize = 49;

/// `SetId.0`.
pub const SET_ID_0: usize = 50;

/// `ScheduledChange::next_authorities`.
pub const SCHEDULED_CHANGE_NEXT_AUTHORITIES: usize = 51;

/// `ScheduledChange::delay`.
pub const SCHEDULED_CHANGE_DELAY: usize = 52;

/// `ConsensusLog::ScheduledChange.0`.
pub const CONSENSUS_LOG_SCHEDULED_CHANGE_0: usize = 53;

/// `ConsensusLog::ForcedChange.0`.
pub const CONSENSUS_LOG_FORCED_CHANGE_0: usize = 54;

/// `ConsensusLog::ForcedChange.1`.
pub const CONSENSUS_LOG_FORCED_CHANGE_1: usize = 55;

/// `ConsensusLog::OnDisabled.0`.
pub const CONSENSUS_LOG_ON_DISABLED_0: usize = 56;

/// `ConsensusLog::Pause.0`.
pub const CONSENSUS_LOG_PAUSE_0: usize = 57;

/// `ConsensusLog::Resume.0`.
pub const CONSENSUS_LOG_RESUME_0: usize = 58;

/// The name of a field.
pub open spec fn field_name(field: usize) -> Seq<char> {
    if field == AUTHORITY_SET_CURRENT_AUTHORITIES {
        "AuthoritySet::current_authorities"@
    } else if field == AUTHORITY_SET_SET_ID {
        "AuthoritySet::set_id"@
    } else if field == AUTHORITY_SET_PENDING_STANDARD_CHANGES {
        "AuthoritySet::pending_standard_changes"@
    } else if field == AUTHORITY_SET_PENDING_FORCED_CHANGES {
        "AuthoritySet::pending_forced_changes"@
    } else if field == AUTHORITY_SET_AUTHORITY_SET_CHANGES {
        "AuthoritySet::authority_set_changes"@
    } else if field == AUTHORITY_SET_CHANGES_0 {
        "AuthoritySetChanges.0"@
    } else if field == PENDING_CHANGE_NEXT_AUTHORITIES {
        "PendingChange::next_authorities"@
    } else if field == PENDING_CHANGE_DELAY {
        "PendingChange::delay"@
    } else if field == PENDING_CHANGE_CANON_HEIGHT {
        "PendingChange::canon_height"@
    } else if field == PENDING_CHANGE_CANON_HASH {
        "PendingChange::canon_hash"@
    } else if field == PENDING_CHANGE_DELAY_KIND {
        "PendingChange::delay_kind"@
    } else if field == DELAY_KIND_BEST_MEDIAN_LAST_FINALIZED {
        "DelayKind::Best::median_last_finalized"@
    } else if field == VOTER_SET_STATE_LIVE_COMPLETED_VIEWS {
        "VoterSetState::Live::completed_views"@
    } else if field == VOTER_SET_STATE_LIVE_CURRENT_VIEWS {
        "VoterSetState::Live::current_views"@
    } else if field == VOTER_SET_STATE_PAUSED_COMPLETED_VIEWS {
        "VoterSetState::Paused::completed_views"@
    } else if field == COMPLETED_VIEW_NUMBER {
        "CompletedView::number"@
    } else if field == COMPLETED_VIEW_STATE {
        "CompletedView::state"@
    } else if field == COMPLETED_VIEW_BASE {
        "CompletedView::base"@
    } else if field == COMPLETED_VIEW_VOTES {
        "CompletedView::votes"@
    } else if field == STATE_PREVOTE_GHOST {
        "State::prevote_ghost"@
    } else if field == STATE_FINALIZED {
        "State::finalized"@
    } else if field == STATE_ESTIMATE {
        "State::estimate"@
    } else if field == STATE_COMPLETABLE {
        "State::completable"@
    } else if field == HAS_VOTED_YES_0 {
        "HasVoted::Yes.0"@
    } else if field == HAS_VOTED_YES_1 {
        "HasVoted::Yes.1"@
    } else if field == VOTE_PRE_PREPARE_0 {
        "Vote::PrePrepare.0"@
    } else if field == VOTE_PREPARE_0 {
        "Vote::Prepare.0"@
    } else if field == VOTE_PREPARE_1 {
        "Vote::Prepare.1"@
    } else if field == VOTE_COMMIT_0 {
        "Vote::Commit.0"@
    } else if field == VOTE_COMMIT_1 {
        "Vote::Commit.1"@
    } else if field == VOTE_COMMIT_2 {
        "Vote::Commit.2"@
    } else if field == PRE_PREPARE_TARGET_HASH {
        "PrePrepare::target_hash"@
    } else if field == PRE_PREPARE_TARGET_NUMBER {
        "PrePrepare::target_number"@
    } else if field == PREPARE_TARGET_HASH {
        "Prepare::target_hash"@
    } else if field == PREPARE_TARGET_NUMBER {
        "Prepare::target_number"@
    } else if field == COMMIT_TARGET_HASH {
        "Commit::target_hash"@
    } else if field == COMMIT_TARGET_NUMBER {
        "Commit::target_number"@
    } else if field == MESSAGE_PRE_PREPARE_0 {
        "Message::PrePrepare.0"@
    } else if field == MESSAGE_PREPARE_0 {
        "Message::Prepare.0"@
    } else if field == MESSAGE_COMMIT_0 {
        "Message::Commit.0"@
    } else if field == SIGNED_MESSAGE_MESSAGE {
        "SignedMessage::message"@
    } else if field == SIGNED_MESSAGE_SIGNATURE {
        "SignedMessage::signature"@
    } else if field == SIGNED_MESSAGE_ID {
        "SignedMessage::id"@
    } else if field == PUBLIC_0 {
        "Public.0"@
    } else if field == SIGNATURE_0 {
        "Signature.0"@
    } else if field == GOSSIP_MESSAGE_MESSAGE_0 {
        "GossipMessage::Message.0"@
    } else if field == MESSAGE_VIEW {
        "Message::view"@
    } else if field == MESSAGE_SET_ID {
        "Message::set_id"@
    } else if field == MESSAGE_MESSAGE {
        "Message::message"@
    } else if field == VIEW_0 {
        "View.0"@
    } else if field == SET_ID_0 {
        "SetId.0"@
    } else if field == SCHEDULED_CHANGE_NEXT_AUTHORITIES {
        "ScheduledChange::next_authorities"@
    } else if field == SCHEDULED_CHANGE_DELAY {
        "ScheduledChange::delay"@
    } else if field == CONSENSUS_LOG_SCHEDULED_CHANGE_0 {
        "ConsensusLog::ScheduledChange.0"@
    } else if field == CONSENSUS_LOG_FORCED_CHANGE_0 {
        "ConsensusLog::ForcedChange.0"@
    } else if field == CONSENSUS_LOG_FORCED_CHANGE_1 {
        "ConsensusLog::ForcedChange.1"@
    } else if field == CONSENSUS_LOG_ON_DISABLED_0 {
        "ConsensusLog::OnDisabled.0"@
    } else if field == CONSENSUS_LOG_PAUSE_0 {
        "ConsensusLog::Pause.0"@
    } else {
        "ConsensusLog::Resume.0"@
    }
}

fn field_str(field: usize) -> (r: &'static str)
    ensures
        r@ == field_name(field),
{
    if field == AUTHORITY_SET_CURRENT_AUTHORITIES {
        "AuthoritySet::current_authorities"
    } else if field == AUTHORITY_SET_SET_ID {
        "AuthoritySet::set_id"
    } else if field == AUTHORITY_SET_PENDING_STANDARD_CHANGES {
        "AuthoritySet::pending_standard_changes"
    } else if field == AUTHORITY_SET_PENDING_FORCED_CHANGES {
        "AuthoritySet::pending_forced_changes"
    } else if field == AUTHORITY_SET_AUTHORITY_SET_CHANGES {
        "AuthoritySet::authority_set_changes"
    } else if field == AUTHORITY_SET_CHANGES_0 {
        "AuthoritySetChanges.0"
    } else if field == PENDING_CHANGE_NEXT_AUTHORITIES {
        "PendingChange::next_authorities"
    } else if field == PENDING_CHANGE_DELAY {
        "PendingChange::delay"
    } else if field == PENDING_CHANGE_CANON_HEIGHT {
        "PendingChange::canon_height"
    } else if field == PENDING_CHANGE_CANON_HASH {
        "PendingChange::canon_hash"
    } else if field == PENDING_CHANGE_DELAY_KIND {
        "PendingChange::delay_kind"
    } else if field == DELAY_KIND_BEST_MEDIAN_LAST_FINALIZED {
        "DelayKind::Best::median_last_finalized"
    } else if field == VOTER_SET_STATE_LIVE_COMPLETED_VIEWS {
        "VoterSetState::Live::completed_views"
    } else if field == VOTER_SET_STATE_LIVE_CURRENT_VIEWS {
        "VoterSetState::Live::current_views"
    } else if field == VOTER_SET_STATE_PAUSED_COMPLETED_VIEWS {
        "VoterSetState::Paused::completed_views"
    } else if field == COMPLETED_VIEW_NUMBER {
        "CompletedView::number"
    } else if field == COMPLETED_VIEW_STATE {
        "CompletedView::state"
    } else if field == COMPLETED_VIEW_BASE {
        "CompletedView::base"
    } else if field == COMPLETED_VIEW_VOTES {
        "CompletedView::votes"
    } else if field == STATE_PREVOTE_GHOST {
        "State::prevote_ghost"
    } else if field == STATE_FINALIZED {
        "State::finalized"
    } else if field == STATE_ESTIMATE {
        "State::estimate"
    } else if field == STATE_COMPLETABLE {
        "State::completable"
    } else if field == HAS_VOTED_YES_0 {
        "HasVoted::Yes.0"
    } else if field == HAS_VOTED_YES_1 {
        "HasVoted::Yes.1"
    } else if field == VOTE_PRE_PREPARE_0 {
        "Vote::PrePrepare.0"
    } else if field == VOTE_PREPARE_0 {
        "Vote::Prepare.0"
    } else if field == VOTE_PREPARE_1 {
        "Vote::Prepare.1"
    } else if field == VOTE_COMMIT_0 {
        "Vote::Commit.0"
    } else if field == VOTE_COMMIT_1 {
        "Vote::Commit.1"
    } else if field == VOTE_COMMIT_2 {
        "Vote::Commit.2"
    } else if field == PRE_PREPARE_TARGET_HASH {
        "PrePrepare::target_hash"
    } else if field == PRE_PREPARE_TARGET_NUMBER {
        "PrePrepare::target_number"
    } else if field == PREPARE_TARGET_HASH {
        "Prepare::target_hash"
    } else if field == PREPARE_TARGET_NUMBER {
        "Prepare::target_number"
    } else if field == COMMIT_TARGET_HASH {
        "Commit::target_hash"
    } else if field == COMMIT_TARGET_NUMBER {
        "Commit::target_number"
    } else if field == MESSAGE_PRE_PREPARE_0 {
        "Message::PrePrepare.0"
    } else if field == MESSAGE_PREPARE_0 {
        "Message::Prepare.0"
    } else if field == MESSAGE_COMMIT_0 {
        "Message::Commit.0"
    } else if field == SIGNED_MESSAGE_MESSAGE {
        "SignedMessage::message"
    } else if field == SIGNED_MESSAGE_SIGNATURE {
        "SignedMessage::signature"
    } else if field == SIGNED_MESSAGE_ID {
        "SignedMessage::id"
    } else if field == PUBLIC_0 {
        "Public.0"
    } else if field == SIGNATURE_0 {
        "Signature.0"
    } else if field == GOSSIP_MESSAGE_MESSAGE_0 {
        "GossipMessage::Message.0"
    } else if field == MESSAGE_VIEW {
        "Message::view"
    } else if field == MESSAGE_SET_ID {
        "Message::set_id"
    } else if field == MESSAGE_MESSAGE {
        "Message::message"
    } else if field == VIEW_0 {
        "View.0"
    } else if field == SET_ID_0 {
        "SetId.0"
    } else if field == SCHEDULED_CHANGE_NEXT_AUTHORITIES {
        "ScheduledChange::next_authorities"
    } else if field == SCHEDULED_CHANGE_DELAY {
        "ScheduledChange::delay"
    } else if field == CONSENSUS_LOG_SCHEDULED_CHANGE_0 {
        "ConsensusLog::ScheduledChange.0"
    } else if field == CONSENSUS_LOG_FORCED_CHANGE_0 {
        "ConsensusLog::ForcedChange.0"
    } else if field == CONSENSUS_LOG_FORCED_CHANGE_1 {
        "ConsensusLog::ForcedChange.1"
    } else if field == CONSENSUS_LOG_ON_DISABLED_0 {
        "ConsensusLog::OnDisabled.0"
    } else if field == CONSENSUS_LOG_PAUSE_0 {
        "ConsensusLog::Pause.0"
    } else {
        "ConsensusLog::Resume.0"
    }
}

/// What is said of a field that could not be read.
pub open spec fn unread(field: usize) -> Seq<char> {
    "Could not decode `"@ + field_name(field) + "`"@
}

fn unread_text(field: usize) -> (r: String)
    ensures
        r@ == unread(field),
{
    let mut text = "Could not decode `".to_string();
    text.append(field_str(field));
    text.append("`");
    text
}

/// A value as a field: it is encoded as it is, and a failure to decode it names the field.
pub struct Field<const F: usize, T> {
    /// The value.
    pub value: T,
}

impl<const F: usize, T: Codec> Codec for Field<F, T> {
    type Value = T::Value;

    open spec fn value(&self) -> T::Value {
        self.value.value()
    }

    open spec fn fits(v: T::Value) -> bool {
        T::fits(v)
    }

    open spec fn bytes(v: T::Value) -> Seq<u8> {
        T::bytes(v)
    }

    open spec fn error(s: Seq<u8>) -> Seq<char> {
        chained(unread(F), T::error(s))
    }

    proof fn unique(s: Seq<u8>, a: T::Value, b: T::Value) {
        T::unique(s, a, b);
    }

    fn encode_to(&self, out: &mut Vec<u8>) {
        self.value.encode_to(out);
    }

    fn decode_at(input: &[u8], at: usize) -> (r: Result<(Self, usize), String>) {
        match T::decode_at(input, at) {
            Ok((value, end)) => Ok((Field { value }, end)),
            Err(e) => {
                proof {
                    assert forall|v: T::Value| Self::fits(v) implies !begins(
                        input@.subrange(at as int, input@.len() as int),
                        #[trigger] Self::bytes(v),
                    ) by {
                        assert(Self::bytes(v) == T::bytes(v));
                    }
                }
                Err(chain(unread_text(F).as_str(), e))
            },
        }
    }
}

/// What is said of a field that cannot be read: that it is this field, and what is said of its
/// value.
pub proof fn law_field_error<const F: usize, T: Codec>(s: Seq<u8>)
    ensures
        Field::<F, T>::error(s) == chained(
            "Could not decode `"@ + field_name(F) + "`"@,
            T::error(s),
        ),
        reads::<Field<F, T>>(s) == reads::<T>(s),
{
    if reads::<T>(s) {
        let v = choose|v: T::Value| T::fits(v) && begins(s, #[trigger] T::bytes(v));
        assert(Field::<F, T>::bytes(v) == T::bytes(v));
    }
    if reads::<Field<F, T>>(s) {
        let v = choose|v: T::Value|
            Field::<F, T>::fits(v) && begins(s, #[trigger] Field::<F, T>::bytes(v));
        assert(Field::<F, T>::bytes(v) == T::bytes(v));
    }
}

} // verus!
