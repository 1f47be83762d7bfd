//! What is gossiped between voters.
use crate::completed::CompletedViews;
use crate::fields::{
    Field, GOSSIP_MESSAGE_MESSAGE_0, MESSAGE_MESSAGE, MESSAGE_SET_ID, MESSAGE_VIEW, SET_ID_0,
    VIEW_0,
};
use crate::ids;
use crate::messages;
use crate::messages::{AuthorityId, AuthorityList, SetId, SignedMessage, ViewNumber};
use crate::payload::{check_message_signature, ed25519_valid, payload_bytes, sign_message};
use crate::scale::{
    begins, chained, decode, encode, law_read_back, le_bytes, lemma_tagged, no_variant,
    no_variant_byte, unknown, unknown_variant, Codec, TOO_SHORT,
};
use crate::topics::{
    blake2_256, global_text, global_topic, view_text, view_topic, TopicHash,
};
use crate::voters::{
    denied_before, is_local_id, is_voter, local_authority_id, voter_ids, voter_list,
};
use crate::votes::HasVoted;
use finality_grandpa::voter_set::VoterSet;
use vstd::prelude::*;
use vstd::utf8::encode_utf8;

verus! {

/// Network level message with topic information.
#[derive(Clone, Copy, Debug, PartialEq, Eq)]
pub struct Message {
    /// The view this message is from.
    pub view: ids::View,
    /// The voter set ID this message is from.
    pub set_id: ids::SetId,
    /// The message itself.
    pub message: SignedMessage,
}

/// Gossip message type.
/// This is the root type that gets encoded and sent on the network.
#[derive(Clone, Copy, Debug, PartialEq, Eq)]
pub enum GossipMessage {
    /// PBFT message with view and set info.
    Message(Message),
}

/// The view, the set id, and the signed message, in order.
type MessageRow = (
    Field<MESSAGE_VIEW, Field<VIEW_0, ViewNumber>>,
    (Field<MESSAGE_SET_ID, Field<SET_ID_0, SetId>>, Field<MESSAGE_MESSAGE, SignedMessage>),
);

/// A message as what is gossiped.
type GossipRow = Field<GOSSIP_MESSAGE_MESSAGE_0, Message>;

/// The view, the set id, and the signed message.
impl Codec for Message {
    type Value = Message;

    open spec fn value(&self) -> Message {
        *self
    }

    open spec fn fits(v: Message) -> bool {
        true
    }

    open spec fn bytes(v: Message) -> Seq<u8> {
        MessageRow::bytes((v.view.0, (v.set_id.0, v.message)))
    }

    open spec fn error(s: Seq<u8>) -> Seq<char> {
        MessageRow::error(s)
    }

    proof fn unique(s: Seq<u8>, a: Message, b: Message) {
        MessageRow::unique(
            s,
            (a.view.0, (a.set_id.0, a.message)),
            (b.view.0, (b.set_id.0, b.message)),
        );
    }

    fn encode_to(&self, out: &mut Vec<u8>) {
        (self.view.0, (self.set_id.0, self.message)).encode_to(out);
    }

    fn decode_at(input: &[u8], at: usize) -> (r: Result<(Self, usize), String>) {
        match MessageRow::decode_at(input, at) {
            Ok(((view, (set_id, message)), end)) => {
                Ok(
                    (
                        Message {
                            view: ids::View(view.value.value),
                            set_id: ids::SetId(set_id.value.value),
                            message: message.value,
                        },
                        end,
                    ),
                )
            },
            Err(e) => {
                proof {
                    assert forall|v: Message| Self::fits(v) implies !begins(
                        input@.subrange(at as int, input@.len() as int),
                        #[trigger] Self::bytes(v),
                    ) by {
                        assert(Self::bytes(v) == MessageRow::bytes(
                            (v.view.0, (v.set_id.0, v.message)),
                        ));
                    }
                }
                Err(e)
            },
        }
    }
}

/// A byte that tells the kind, and the message.
impl Codec for GossipMessage {
    type Value = GossipMessage;

    open spec fn value(&self) -> GossipMessage {
        *self
    }

    open spec fn fits(v: GossipMessage) -> bool {
        true
    }

    open spec fn bytes(v: GossipMessage) -> Seq<u8> {
        match v {
            GossipMessage::Message(x) => seq![0u8] + GossipRow::bytes(x),
        }
    }

    open spec fn error(s: Seq<u8>) -> Seq<char> {
        if s.len() == 0 {
            no_variant("GossipMessage"@)
        } else if s[0] == 0 {
            GossipRow::error(s.subrange(1, s.len() as int))
        } else {
            unknown("GossipMessage"@)
        }
    }

    proof fn unique(s: Seq<u8>, a: GossipMessage, b: GossipMessage) {
        let (GossipMessage::Message(x), GossipMessage::Message(y)) = (a, b);
        lemma_tagged(s, 0u8, GossipRow::bytes(x));
        lemma_tagged(s, 0u8, GossipRow::bytes(y));
        GossipRow::unique(s.subrange(1, s.len() as int), x, y);
    }

    fn encode_to(&self, out: &mut Vec<u8>) {
        let ghost before = out@;
        match self {
            GossipMessage::Message(x) => {
                out.push(0);
                x.encode_to(out);
            },
        }
        assert(out@ =~= before + Self::bytes(*self));
    }

    fn decode_at(input: &[u8], at: usize) -> (r: Result<(Self, usize), String>) {
        let ghost rest = input@.subrange(at as int, input@.len() as int);
        proof {
            assert forall|v: GossipMessage|
                begins(rest, #[trigger] Self::bytes(v)) implies rest.len() > 0 && rest[0]
                == 0 && begins(
                input@.subrange(at + 1, input@.len() as int),
                GossipRow::bytes(v->Message_0),
            ) by {
                lemma_tagged(rest, 0u8, GossipRow::bytes(v->Message_0));
                assert(rest.subrange(1, rest.len() as int) =~= input@.subrange(
                    at + 1,
                    input@.len() as int,
                ));
            }
        }
        if at >= input.len() {
            return Err(no_variant_byte("GossipMessage"));
        }
        assert(rest.subrange(1, rest.len() as int) =~= input@.subrange(
            at + 1,
            input@.len() as int,
        ));
        if input[at] != 0 {
            return Err(unknown_variant("GossipMessage"));
        }
        match GossipRow::decode_at(input, at + 1) {
            Ok((x, end)) => {
                assert(input@.subrange(at as int, end as int) =~= seq![0u8] + input@.subrange(
                    at + 1,
                    end as int,
                ));
                Ok((GossipMessage::Message(x.value), end))
            },
            Err(e) => Err(e),
        }
    }
}

/// An output for the votes of a view. Any votes that are sent will be replaced, as appropriate,
/// according to what has been voted already.
#[derive(Clone, Copy, Debug, PartialEq, Eq)]
pub struct OutgoingMessages {
    /// The view that is voted in.
    pub view: ViewNumber,
    /// The set that is voted in.
    pub set_id: SetId,
    /// The local key, if it belongs to a voter.
    pub signer: Option<AuthorityId>,
    /// What has been voted already.
    pub has_voted: HasVoted,
}

/// What the voting of a view goes through.
#[derive(Debug)]
pub struct ViewCommunication {
    /// The voters of the set, of which the gossip validator is to be made aware first.
    pub voters: AuthorityList,
    /// The topic of the view's messages.
    pub topic: TopicHash,
    /// Where our votes go.
    pub outgoing: OutgoingMessages,
}

/// Sets up the communication of a view. The local key is used only if it belongs to one of the
/// voters.
pub fn view_communication(
    local_key: Option<AuthorityId>,
    view: ids::View,
    set_id: ids::SetId,
    voters: &VoterSet<AuthorityId>,
    has_voted: HasVoted,
) -> (r: ViewCommunication)
    ensures
        r.voters@ == voter_ids(*voters),
        r.topic@ == blake2_256(encode_utf8(view_text(view.0, set_id.0))),
        r.outgoing == (OutgoingMessages {
            view: view.0,
            set_id: set_id.0,
            signer: match local_key {
                Some(id) => if voter_ids(*voters).contains(id) {
                    Some(id)
                } else {
                    None
                },
                None => None,
            },
            has_voted,
        }),
{
    let signer = match local_key {
        Some(id) => if is_voter(voters, &id) {
            Some(id)
        } else {
            None
        },
        None => None,
    };
    ViewCommunication {
        voters: voter_list(voters),
        topic: view_topic(view.0, set_id.0),
        outgoing: OutgoingMessages { view: view.0, set_id: set_id.0, signer, has_voted },
    }
}

/// The vote is one of a voter, who signed it for the view and the set.
pub open spec fn is_signed_vote(
    voters: Seq<AuthorityId>,
    view: ViewNumber,
    set_id: SetId,
    vote: SignedMessage,
) -> bool {
    &&& voters.contains(vote.id)
    &&& ed25519_valid(
        vote.id@,
        payload_bytes::<messages::Message>(vote.message, view, set_id),
        vote.signature@,
    )
}

/// `r` is the vote that the gossiped message brings, if it is well formed and the vote is one of
/// a voter, who signed it for the view and the set.
pub open spec fn brings(
    voters: Seq<AuthorityId>,
    view: ViewNumber,
    set_id: SetId,
    notification: Seq<u8>,
    r: Option<SignedMessage>,
) -> bool {
    match r {
        Some(vote) => {
            &&& is_signed_vote(voters, view, set_id, vote)
            &&& exists|msg: Message|
                begins(
                    notification,
                    #[trigger] GossipMessage::bytes(GossipMessage::Message(msg)),
                ) && msg.message == vote
        },
        None => forall|msg: Message|
            begins(
                notification,
                #[trigger] GossipMessage::bytes(GossipMessage::Message(msg)),
            ) ==> !is_signed_vote(voters, view, set_id, msg.message),
    }
}

/// The vote that a gossiped message of a view brings: nothing if the message is malformed, if
/// its author is not among the voters, or if the signature is not the author's for the view and
/// the set.
pub fn incoming_vote(
    voters: &VoterSet<AuthorityId>,
    view: ids::View,
    set_id: ids::SetId,
    notification: &[u8],
) -> (r: Option<SignedMessage>)
    ensures
        brings(voter_ids(*voters), view.0, set_id.0, notification@, r),
{
    match decode::<GossipMessage>(notification) {
        Ok(GossipMessage::Message(msg)) => {
            proof {
                assert forall|other: Message|
                    begins(
                        notification@,
                        #[trigger] GossipMessage::bytes(GossipMessage::Message(other)),
                    ) implies other == msg by {
                    GossipMessage::unique(
                        notification@,
                        GossipMessage::Message(other),
                        GossipMessage::Message(msg),
                    );
                }
            }
            let vote = msg.message;
            if !is_voter(voters, &vote.id) {
                return None;
            }
            // check signature.
            if !check_message_signature(
                &vote.message,
                &vote.id,
                &vote.signature,
                view.0,
                set_id.0,
            ) {
                return None;
            }
            Some(vote)
        },
        Err(_) => None,
    }
}

/// The message that global gossip brings: nothing if it is malformed.
pub fn incoming_global(notification: &[u8]) -> (r: Option<GossipMessage>)
    ensures
        match r {
            Some(msg) => begins(notification@, GossipMessage::bytes(msg)),
            None => forall|other: GossipMessage|
                !begins(notification@, #[trigger] GossipMessage::bytes(other)),
        },
{
    match decode::<GossipMessage>(notification) {
        Ok(msg) => Some(msg),
        Err(_) => None,
    }
}

/// Of a vote that was gossiped as it is encoded, that very vote comes in if it is one of a voter,
/// who signed it for the view and the set. Otherwise nothing comes in.
pub proof fn law_gossiped_vote_comes_in(
    voters: Seq<AuthorityId>,
    view: ViewNumber,
    set_id: SetId,
    sent: Message,
    r: Option<SignedMessage>,
)
    requires
        brings(voters, view, set_id, GossipMessage::bytes(GossipMessage::Message(sent)), r),
    ensures
        r == (if voters.contains(sent.message.id) && ed25519_valid(
            sent.message.id@,
            payload_bytes::<messages::Message>(sent.message.message, view, set_id),
            sent.message.signature@,
        ) {
            Some(sent.message)
        } else {
            None
        }),
{
    let s = GossipMessage::Message(sent);
    let bytes = GossipMessage::bytes(s);
    assert(bytes + Seq::<u8>::empty() =~= bytes);
    law_read_back::<GossipMessage>(s, Seq::empty(), s);
    assert forall|other: Message|
        begins(bytes, #[trigger] GossipMessage::bytes(GossipMessage::Message(other))) implies other
        == sent by {
        law_read_back::<GossipMessage>(s, Seq::empty(), GossipMessage::Message(other));
    }
}

/// The votes of a completed view, to be registered with the gossip service so that they are
/// available to peers potentially stuck on a previous view.
pub struct Registration {
    /// The view, to be noted so that messages of it are not ignored.
    pub view: ids::View,
    /// The topic of the view.
    pub topic: TopicHash,
    /// The encoded votes.
    pub messages: Vec<Vec<u8>>,
}

/// What is gossiped for a vote of a completed view.
pub open spec fn vote_bytes(number: ViewNumber, set_id: SetId, vote: SignedMessage) -> Seq<u8> {
    GossipMessage::bytes(
        GossipMessage::Message(
            Message { view: ids::View(number), set_id: ids::SetId(set_id), message: vote },
        ),
    )
}

/// What to register of the completed views, the oldest first.
pub fn registrations(completed: &CompletedViews) -> (r: Vec<Registration>)
    ensures
        r@.len() == completed@.views.len(),
        forall|i: int|
            0 <= i < r@.len() ==> {
                let view = completed@.views[completed@.views.len() - 1 - i];
                &&& (#[trigger] r@[i]).view.0 == view.number
                &&& r@[i].topic@ == blake2_256(
                    encode_utf8(view_text(view.number, completed@.set_id)),
                )
                &&& r@[i].messages@.len() == view.votes.len()
                &&& forall|j: int|
                    0 <= j < view.votes.len() ==> (#[trigger] r@[i].messages@[j])@ == vote_bytes(
                        view.number,
                        completed@.set_id,
                        view.votes[j],
                    )
            },
{
    let (set_id, _) = completed.set_info();
    let views = completed.iter();
    let mut all: Vec<Registration> = Vec::new();
    for i in 0..views.len()
        invariant
            set_id == completed@.set_id,
            views@.len() == completed@.views.len(),
            forall|i: int|
                0 <= i < views@.len() ==> (#[trigger] views@[i])@
                    == completed@.views[completed@.views.len() - 1 - i],
            all@.len() == i,
            forall|i: int|
                0 <= i < all@.len() ==> {
                    let view = completed@.views[completed@.views.len() - 1 - i];
                    &&& (#[trigger] all@[i]).view.0 == view.number
                    &&& all@[i].topic@ == blake2_256(
                        encode_utf8(view_text(view.number, completed@.set_id)),
                    )
                    &&& all@[i].messages@.len() == view.votes.len()
                    &&& forall|j: int|
                        0 <= j < view.votes.len() ==> (#[trigger] all@[i].messages@[j])@
                            == vote_bytes(view.number, completed@.set_id, view.votes[j])
                },
    {
        let view = views[i];
        let topic = view_topic(view.number, set_id);
        let mut messages: Vec<Vec<u8>> = Vec::new();
        for j in 0..view.votes.len()
            invariant
                messages@.len() == j,
                forall|k: int|
                    0 <= k < j ==> (#[trigger] messages@[k])@ == vote_bytes(
                        view.number,
                        set_id,
                        view.votes@[k],
                    ),
        {
            let message = GossipMessage::Message(
                Message {
                    view: ids::View(view.number),
                    set_id: ids::SetId(set_id),
                    message: view.votes[j],
                },
            );
            messages.push(encode(&message));
        }
        all.push(Registration { view: ids::View(view.number), topic, messages });
    }
    all
}

/// An output for global messages.
#[derive(Clone, Copy, Debug, PartialEq, Eq)]
pub struct CommitsOut {
    set_id: ids::SetId,
    is_voter: bool,
}

/// A global message on its way out.
pub struct OutgoingCommit {
    /// The view, of which the gossip validator is to be made aware first.
    pub view: ids::View,
    /// The set, of which the gossip validator is to be made aware first.
    pub set_id: ids::SetId,
    /// The height that the gossip validator is told to be finalized.
    pub finalized: u64,
    /// The topic to gossip under.
    pub topic: TopicHash,
    /// What to gossip.
    pub message: Vec<u8>,
}

impl CommitsOut {
    /// The set whose messages go out.
    pub closed spec fn set(self) -> SetId {
        self.set_id.0
    }

    /// Whether this node is a voter.
    pub closed spec fn voter(self) -> bool {
        self.is_voter
    }

    /// Create a new output.
    pub fn new(set_id: SetId, is_voter: bool) -> (r: Self)
        ensures
            r.set() == set_id,
            r.voter() == is_voter,
    {
        CommitsOut { set_id: ids::SetId(set_id), is_voter }
    }

    /// What to send for a global message of a view, which comes encoded: nothing if this node
    /// is not a voter.
    pub fn start_send(&self, view: ViewNumber, message: Vec<u8>) -> (r: Option<OutgoingCommit>)
        ensures
            r is Some <==> self.voter(),
            r matches Some(out) ==> {
                &&& out.view.0 == view
                &&& out.set_id.0 == self.set()
                &&& out.finalized == 0
                &&& out.topic@ == blake2_256(encode_utf8(global_text(self.set())))
                &&& out.message@ == message@
            },
    {
        if !self.is_voter {
            return None;
        }
        Some(
            OutgoingCommit {
                view: ids::View(view),
                set_id: self.set_id,
                finalized: 0,
                topic: global_topic(self.set_id.0),
                message,
            },
        )
    }
}

/// What the global messages of a set go through.
#[derive(Debug)]
pub struct GlobalCommunication {
    /// The voters of the set, of which the gossip validator is to be made aware first.
    pub voters: AuthorityList,
    /// The topic of the set's global messages.
    pub topic: TopicHash,
    /// Where our global messages go.
    pub outgoing: CommitsOut,
}

/// `r` is set up for the set and its voters. It sends if and only if the keystore has the key of
/// a voter.
pub open spec fn is_global_communication<F: Fn(&AuthorityId) -> bool>(
    set_id: SetId,
    voters: VoterSet<AuthorityId>,
    keystore: Option<F>,
    r: GlobalCommunication,
) -> bool {
    &&& r.voters@ == voter_ids(voters)
    &&& r.topic@ == blake2_256(encode_utf8(global_text(set_id)))
    &&& r.outgoing.set() == set_id
    &&& exists|local: Option<AuthorityId>| #[trigger]
        is_local_id(voter_ids(voters), keystore, local) && r.outgoing.voter() == (local is Some)
}

/// Sets up the global communication of a set. Only a node with the key of a voter sends.
pub fn global_communication<F: Fn(&AuthorityId) -> bool>(
    set_id: ids::SetId,
    voters: &VoterSet<AuthorityId>,
    keystore: Option<F>,
) -> (r: GlobalCommunication)
    requires
        keystore matches Some(has_keys) ==> forall|id: &AuthorityId|
            call_requires(has_keys, (id,)),
    ensures
        is_global_communication(set_id.0, *voters, keystore, r),
{
    let local = local_authority_id(voters, keystore);
    GlobalCommunication {
        voters: voter_list(voters),
        topic: global_topic(set_id.0),
        outgoing: CommitsOut::new(set_id.0, local.is_some()),
    }
}

/// A gossiped vote comes in, whatever its kind, if its author is among the voters and the
/// signature is the author's for the vote, the view and the set. The vote of anyone else, or with
/// any other signature, does not. What stands behind the message does not matter.
pub proof fn law_signed_votes_come_in(
    voters: VoterSet<AuthorityId>,
    view: ids::View,
    set_id: ids::SetId,
    sent: Message,
    behind: Seq<u8>,
    notification: &[u8],
    r: Option<SignedMessage>,
)
    requires
        call_ensures(incoming_vote, (&voters, view, set_id, notification), r),
        notification@ == GossipMessage::bytes(GossipMessage::Message(sent)) + behind,
    ensures
        voter_ids(voters).contains(sent.message.id) && ed25519_valid(
            sent.message.id@,
            payload_bytes::<messages::Message>(sent.message.message, view.0, set_id.0),
            sent.message.signature@,
        ) ==> r == Some(sent.message),
        !voter_ids(voters).contains(sent.message.id) ==> r is None,
        !ed25519_valid(
            sent.message.id@,
            payload_bytes::<messages::Message>(sent.message.message, view.0, set_id.0),
            sent.message.signature@,
        ) ==> r is None,
{
    let s = GossipMessage::Message(sent);
    assert(brings(voter_ids(voters), view.0, set_id.0, notification@, r));
    law_read_back::<GossipMessage>(s, behind, s);
    assert forall|other: Message|
        begins(
            notification@,
            #[trigger] GossipMessage::bytes(GossipMessage::Message(other)),
        ) implies other == sent by {
        law_read_back::<GossipMessage>(s, behind, GossipMessage::Message(other));
    }
}

/// From bytes that begin with no message, no vote comes in, and no global message either.
pub proof fn law_malformed_messages_are_dropped(
    voters: VoterSet<AuthorityId>,
    view: ids::View,
    set_id: ids::SetId,
    notification: &[u8],
    vote: Option<SignedMessage>,
    global: Option<GossipMessage>,
)
    requires
        call_ensures(incoming_vote, (&voters, view, set_id, notification), vote),
        call_ensures(incoming_global, (notification,), global),
        forall|msg: GossipMessage| !begins(notification@, #[trigger] GossipMessage::bytes(msg)),
    ensures
        vote is None,
        global is None,
{
}

/// A global message comes in as it was sent, whatever stands behind it.
pub proof fn law_global_message_comes_in(
    sent: GossipMessage,
    behind: Seq<u8>,
    notification: &[u8],
    r: Option<GossipMessage>,
)
    requires
        call_ensures(incoming_global, (notification,), r),
        notification@ == GossipMessage::bytes(sent) + behind,
    ensures
        r == Some(sent),
{
    law_read_back::<GossipMessage>(sent, behind, sent);
    if let Some(msg) = r {
        law_read_back::<GossipMessage>(sent, behind, msg);
    }
}

/// Global messages of a set go out under the topic of the set. They are sent by a node that has
/// the key of a voter, whichever that is, and by no other node.
pub proof fn law_key_holder_sends<F: Fn(&AuthorityId) -> bool>(
    set_id: SetId,
    voters: VoterSet<AuthorityId>,
    keystore: Option<F>,
    own: AuthorityId,
    r: GlobalCommunication,
)
    requires
        is_global_communication(set_id, voters, keystore, r),
    ensures
        r.voters@ == voter_ids(voters),
        r.outgoing.set() == set_id,
        forall|topic: TopicHash| #[trigger]
            call_ensures(global_topic, (set_id,), topic) ==> r.topic@ == topic@,
        keystore is None ==> !r.outgoing.voter(),
        keystore matches Some(has_keys) ==> {
            &&& voter_ids(voters).contains(own) && !call_ensures(has_keys, (&own,), false)
                ==> r.outgoing.voter()
            &&& r.outgoing.voter() ==> exists|id: AuthorityId| #[trigger]
                voter_ids(voters).contains(id) && call_ensures(has_keys, (&id,), true)
        },
{
    let ids = voter_ids(voters);
    let local = choose|local: Option<AuthorityId>| #[trigger]
        is_local_id(ids, keystore, local) && r.outgoing.voter() == (local is Some);
    if let Some(has_keys) = keystore {
        if let Some(id) = local {
            let n = choose|n: int|
                {
                    &&& 0 <= n < ids.len()
                    &&& #[trigger] ids[n] == id
                    &&& call_ensures(has_keys, (&id,), true)
                    &&& denied_before(has_keys, ids, n)
                };
            assert(ids.contains(id));
        } else if ids.contains(own) {
            let m = choose|m: int| 0 <= m < ids.len() && ids[m] == own;
            assert(ids[m] == own);
        }
    }
}

/// Setting up the global communication of a set gives one for the set and its voters, through
/// which a node with the key of a voter sends, and no other.
pub proof fn law_global_communication<F: Fn(&AuthorityId) -> bool>(
    set_id: ids::SetId,
    voters: VoterSet<AuthorityId>,
    has_keys: F,
    own: AuthorityId,
    r: GlobalCommunication,
)
    requires
        call_ensures(global_communication::<F>, (set_id, &voters, Some(has_keys)), r),
    ensures
        r.voters@ == voter_ids(voters),
        r.outgoing.set() == set_id.0,
        voter_ids(voters).contains(own) && !call_ensures(has_keys, (&own,), false)
            ==> r.outgoing.voter(),
        r.outgoing.voter() ==> exists|id: AuthorityId| #[trigger]
            voter_ids(voters).contains(id) && call_ensures(has_keys, (&id,), true),
{
    law_key_holder_sends(set_id.0, voters, Some(has_keys), own, r);
}

/// A global message goes out as it is if and only if this node is a voter, for the view and the
/// set, and under the topic of the set.
pub proof fn law_voters_send_global_messages(
    set_id: SetId,
    is_voter: bool,
    out: CommitsOut,
    view: ViewNumber,
    message: Vec<u8>,
    r: Option<OutgoingCommit>,
)
    requires
        call_ensures(CommitsOut::new, (set_id, is_voter), out),
        call_ensures(CommitsOut::start_send, (&out, view, message), r),
    ensures
        r is Some <==> is_voter,
        r matches Some(sent) ==> {
            &&& sent.view.0 == view
            &&& sent.set_id.0 == set_id
            &&& sent.finalized == 0
            &&& sent.message@ == message@
            &&& forall|topic: TopicHash| #[trigger]
                call_ensures(global_topic, (set_id,), topic) ==> sent.topic@ == topic@
        },
{
}

/// The votes of a view go out for that view and that set, under their topic, signed with the local
/// key if and only if it is that of a voter.
pub proof fn law_voters_sign(
    local_key: Option<AuthorityId>,
    view: ids::View,
    set_id: ids::SetId,
    voters: VoterSet<AuthorityId>,
    has_voted: HasVoted,
    r: ViewCommunication,
    id: AuthorityId,
)
    requires
        call_ensures(view_communication, (local_key, view, set_id, &voters, has_voted), r),
    ensures
        r.outgoing.signer == Some(id) <==> local_key == Some(id) && voter_ids(voters).contains(id),
        r.outgoing.view == view.0,
        r.outgoing.set_id == set_id.0,
        r.outgoing.has_voted == has_voted,
        r.voters@ == voter_ids(voters),
        forall|topic: TopicHash| #[trigger]
            call_ensures(view_topic, (view.0, set_id.0), topic) ==> r.topic@ == topic@,
{
}

/// Every vote of every completed view is registered, the views from the oldest on. What is
/// registered for a vote is, to whom it is sent, a message with that vote, its view and its set.
pub proof fn law_completed_votes_are_registered(
    completed: CompletedViews,
    r: Vec<Registration>,
    i: int,
    j: int,
    notification: &[u8],
    received: Option<GossipMessage>,
)
    requires
        call_ensures(registrations, (&completed,), r),
        0 <= i < completed@.views.len(),
        0 <= j < completed@.views[i].votes.len(),
        notification@ == r@[completed@.views.len() - 1 - i].messages@[j]@,
        call_ensures(incoming_global, (notification,), received),
    ensures
        r@.len() == completed@.views.len(),
        r@[completed@.views.len() - 1 - i].view.0 == completed@.views[i].number,
        r@[completed@.views.len() - 1 - i].messages@.len() == completed@.views[i].votes.len(),
        forall|topic: TopicHash| #[trigger]
            call_ensures(view_topic, (completed@.views[i].number, completed@.set_id), topic)
                ==> r@[completed@.views.len() - 1 - i].topic@ == topic@,
        received == Some(
            GossipMessage::Message(
                Message {
                    view: ids::View(completed@.views[i].number),
                    set_id: ids::SetId(completed@.set_id),
                    message: completed@.views[i].votes[j],
                },
            ),
        ),
{
    let k = completed@.views.len() - 1 - i;
    assert(r@[k].view.0 == completed@.views[i].number);
    let sent = GossipMessage::Message(
        Message {
            view: ids::View(completed@.views[i].number),
            set_id: ids::SetId(completed@.set_id),
            message: completed@.views[i].votes[j],
        },
    );
    assert(r@[k].messages@[j]@ == GossipMessage::bytes(sent));
    assert(notification@ =~= GossipMessage::bytes(sent) + Seq::<u8>::empty());
    law_global_message_comes_in(sent, Seq::empty(), notification, received);
}

/// The encoding of what is gossiped: a byte, the view, the set, and the signed vote.
pub proof fn law_gossip_encoding(msg: Message)
    ensures
        GossipMessage::bytes(GossipMessage::Message(msg)) == seq![0u8] + le_bytes(
            msg.view.0 as nat,
            8,
        ) + le_bytes(msg.set_id.0 as nat, 8) + SignedMessage::bytes(msg.message),
        GossipMessage::fits(GossipMessage::Message(msg)),
{
    assert(GossipMessage::bytes(GossipMessage::Message(msg)) =~= seq![0u8] + le_bytes(
        msg.view.0 as nat,
        8,
    ) + le_bytes(msg.set_id.0 as nat, 8) + SignedMessage::bytes(msg.message));
}

/// A vote of any kind that a voter signs for a view and a set, and that is gossiped, comes in at
/// whoever takes in the votes of that view and that set and counts its author as a voter.
pub proof fn law_signed_vote_reaches_the_voters<
    X,
    F: FnOnce(&[u8]) -> Result<Option<Vec<u8>>, X>,
>(
    sign: F,
    message: messages::Message,
    public: AuthorityId,
    view: ids::View,
    set_id: ids::SetId,
    signed: SignedMessage,
    sent: GossipMessage,
    encoded: Vec<u8>,
    voters: VoterSet<AuthorityId>,
    notification: &[u8],
    r: Option<SignedMessage>,
)
    requires
        call_ensures(
            sign_message::<X, F>,
            (sign, message, public, view.0, set_id.0),
            Some(signed),
        ),
        forall|payload: &[u8], reply: Result<Option<Vec<u8>>, X>| #[trigger]
            call_ensures(sign, (payload,), reply) ==> (reply matches Ok(Some(bytes))
                ==> ed25519_valid(public@, payload@, bytes@)),
        sent == GossipMessage::Message(Message { view, set_id, message: signed }),
        call_ensures(encode::<GossipMessage>, (&sent,), encoded),
        notification@ == encoded@,
        voter_ids(voters).contains(public),
        call_ensures(incoming_vote, (&voters, view, set_id, notification), r),
    ensures
        r matches Some(vote) && vote.message == message && vote.id == public && vote == signed,
{
    let msg = Message { view, set_id, message: signed };
    let none = Seq::<u8>::empty();
    assert(notification@ =~= GossipMessage::bytes(GossipMessage::Message(msg)) + none);
    law_signed_votes_come_in(voters, view, set_id, msg, Seq::empty(), notification, r);
}

/// What is said of bytes that hold no vote of a view and a set: which of its fields cannot be
/// read, the first one at fault, and what is said of that field.
pub proof fn law_gossiped_vote_errors(s: Seq<u8>)
    ensures
        Message::error(s)
            == <(
                Field<MESSAGE_VIEW, Field<VIEW_0, ViewNumber>>,
                (
                    Field<MESSAGE_SET_ID, Field<SET_ID_0, SetId>>,
                    Field<MESSAGE_MESSAGE, SignedMessage>,
                ),
            )>::error(s),
{
}

/// What is said of bytes that hold no message: that the first byte is missing or stands for
/// nothing, or which field behind it cannot be read, and what is said of that field.
pub proof fn law_gossip_errors(s: Seq<u8>)
    ensures
        GossipMessage::error(Seq::empty()) == chained(
            "Could not decode `"@ + "GossipMessage"@ + "`, failed to read variant byte"@,
            TOO_SHORT@,
        ),
        s.len() > 0 && s[0] != 0 ==> GossipMessage::error(s)
            == "Could not decode `"@ + "GossipMessage"@ + "`, variant doesn't exist"@,
        s.len() > 0 && s[0] == 0 ==> GossipMessage::error(s)
            == Field::<GOSSIP_MESSAGE_MESSAGE_0, Message>::error(s.subrange(1, s.len() as int)),
{
}

} // verus!
