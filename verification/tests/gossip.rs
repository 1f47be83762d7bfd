use finality_pbft::authorities::AuthoritySet;
use finality_pbft::completed::{CompletedView, CompletedViews};
use finality_pbft::gossip::{
    global_communication, incoming_global, incoming_vote, registrations, view_communication,
    CommitsOut, GossipMessage, Message,
};
use finality_pbft::ids::{SetId, View};
use finality_pbft::messages::{self, Commit, SignedMessage};
use finality_pbft::payload::localized_payload;
use finality_pbft::scale::encode;
use finality_pbft::topics::{global_topic, view_topic};
use finality_pbft::voters::voters_of;
use finality_pbft::votes::{HasVoted, ViewState};
use parity_scale_codec::Encode;
use sp_core::{ed25519, Pair};

fn message() -> messages::Message {
    messages::Message::Commit(Commit { target_hash: [1; 32], target_number: 2 })
}

fn vote(id: u8) -> SignedMessage {
    SignedMessage { message: message(), signature: [3; 64], id: [id; 32] }
}

/// A vote that the owner of the seed signed for view 5 of set 6.
fn signed_vote(seed: u8) -> SignedMessage {
    let pair = ed25519::Pair::from_seed(&[seed; 32]);
    let signature = pair.sign(&localized_payload(5, 6, &message())).0;
    SignedMessage { message: message(), signature, id: pair.public().0 }
}

fn bytes_of(vote: SignedMessage) -> Vec<u8> {
    encode(&GossipMessage::Message(Message { view: View(5), set_id: SetId(6), message: vote }))
}

fn gossiped(view: u64, set_id: u64, id: u8) -> GossipMessage {
    GossipMessage::Message(Message { view: View(view), set_id: SetId(set_id), message: vote(id) })
}

#[test]
fn gossip_message_bytes() {
    let body = (2u8, [1u8; 32], 2u64, [3u8; 64], [4u8; 32]);
    assert_eq!(encode(&gossiped(5, 6, 4)), (0u8, 5u64, 6u64, body).encode());
}

#[test]
fn vote_of_a_voter_comes_in() {
    let vote = signed_vote(1);
    let voters = voters_of(&vec![vote.id, [5; 32]]).unwrap();
    let mut bytes = bytes_of(vote);
    assert_eq!(incoming_vote(&voters, View(5), SetId(6), &bytes), Some(vote));
    bytes.push(0);
    assert_eq!(incoming_vote(&voters, View(5), SetId(6), &bytes), Some(vote));
    let bytes = encode(&gossiped(5, 6, 4));
    assert_eq!(incoming_global(&bytes), Some(gossiped(5, 6, 4)));
}

#[test]
fn other_votes_are_skipped() {
    let vote = signed_vote(1);
    let voters = voters_of(&vec![vote.id]).unwrap();
    assert_eq!(incoming_vote(&voters, View(5), SetId(6), &bytes_of(signed_vote(2))), None);
    let bytes = bytes_of(vote);
    assert_eq!(incoming_vote(&voters, View(5), SetId(6), &bytes[..bytes.len() - 1]), None);
    assert_eq!(incoming_global(&bytes[..9]), None);
    assert_eq!(incoming_global(&[1]), None);
}

#[test]
fn forged_votes_are_skipped() {
    let vote = signed_vote(1);
    let voters = voters_of(&vec![vote.id]).unwrap();
    let forged = SignedMessage { signature: signed_vote(2).signature, ..vote };
    assert_eq!(incoming_vote(&voters, View(5), SetId(6), &bytes_of(forged)), None);
    let other = messages::Message::Commit(Commit { target_hash: [1; 32], target_number: 3 });
    let changed = SignedMessage { message: other, ..vote };
    assert_eq!(incoming_vote(&voters, View(5), SetId(6), &bytes_of(changed)), None);
    // signed for another view or set
    assert_eq!(incoming_vote(&voters, View(4), SetId(6), &bytes_of(vote)), None);
    assert_eq!(incoming_vote(&voters, View(5), SetId(7), &bytes_of(vote)), None);
}

#[test]
fn view_communication_signs_as_a_voter_only() {
    let voters = voters_of(&vec![[5; 32], [4; 32]]).unwrap();
    let ours = view_communication(Some([4; 32]), View(2), SetId(3), &voters, HasVoted::No);
    assert_eq!(ours.voters, vec![[4; 32], [5; 32]]);
    assert_eq!(ours.topic, view_topic(2, 3));
    assert_eq!(ours.outgoing.signer, Some([4; 32]));
    assert_eq!((ours.outgoing.view, ours.outgoing.set_id), (2, 3));
    assert_eq!(ours.outgoing.has_voted, HasVoted::No);
    let other = view_communication(Some([6; 32]), View(2), SetId(3), &voters, HasVoted::No);
    assert_eq!(other.outgoing.signer, None);
    let none = view_communication(None, View(2), SetId(3), &voters, HasVoted::No);
    assert_eq!(none.outgoing.signer, None);
}

#[test]
fn completed_views_are_registered_oldest_first() {
    let set = AuthoritySet::genesis(vec![[4; 32]]).unwrap();
    let view = |number: u64, votes: Vec<SignedMessage>| CompletedView {
        number,
        state: ViewState::genesis(([0; 32], 0)),
        base: ([0; 32], 0),
        votes,
    };
    let mut completed = CompletedViews::new(view(0, Vec::new()), 6, &set);
    completed.push(view(1, vec![vote(4), vote(5)]));
    let registered = registrations(&completed);
    assert_eq!(registered.len(), 2);
    assert_eq!(registered[0].view, View(0));
    assert!(registered[0].messages.is_empty());
    assert_eq!(registered[1].view, View(1));
    assert_eq!(registered[1].topic, view_topic(1, 6));
    assert_eq!(
        registered[1].messages,
        vec![encode(&gossiped(1, 6, 4)), encode(&gossiped(1, 6, 5))],
    );
}

#[test]
fn only_voters_send_global_messages() {
    let out = CommitsOut::new(6, true).start_send(3, vec![1, 2]).unwrap();
    assert_eq!(out.view, View(3));
    assert_eq!(out.set_id, SetId(6));
    assert_eq!(out.finalized, 0);
    assert_eq!(out.topic, global_topic(6));
    assert_eq!(out.message, vec![1, 2]);
    assert!(CommitsOut::new(6, false).start_send(3, vec![1, 2]).is_none());
}

#[test]
fn global_communication_of_a_set() {
    let voters = voters_of(&vec![[5; 32], [4; 32]]).unwrap();
    let ours = global_communication(SetId(6), &voters, Some(|id: &[u8; 32]| id[0] == 5));
    assert_eq!(ours.voters, vec![[4; 32], [5; 32]]);
    assert_eq!(ours.topic, global_topic(6));
    assert!(ours.outgoing.start_send(1, Vec::new()).is_some());
    let other = global_communication(SetId(6), &voters, Some(|_: &[u8; 32]| false));
    assert!(other.outgoing.start_send(1, Vec::new()).is_none());
}
