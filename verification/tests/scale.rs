use finality_pbft::consensus_log::{ConsensusLog, ScheduledChange};
use finality_pbft::messages::{Commit, Message, PrePrepare, Prepare, SignedMessage};
use finality_pbft::scale::{decode, decode_u32, encode};
use finality_pbft::votes::{HasVoted, ViewState, Vote};
use parity_scale_codec::{Compact, Decode, Encode, Error};

fn commit() -> Commit {
    Commit { target_hash: [7; 32], target_number: 300 }
}

#[test]
fn numbers_are_written_low_byte_first() {
    assert_eq!(encode(&0x0102_0304_0506_0708u64), vec![8, 7, 6, 5, 4, 3, 2, 1]);
    assert_eq!(encode(&u64::MAX), u64::MAX.encode());
    assert_eq!(decode::<u64>(&[1, 0, 0, 0, 0, 0, 0, 0, 9]).ok(), Some(1));
    assert_eq!(decode::<u64>(&[1, 0, 0, 0, 0, 0, 0]).ok(), None);
    assert_eq!(decode_u32(&[3, 0, 0, 0]).ok(), Some(3));
    assert_eq!(decode_u32(&[3, 0, 0]).ok(), None);
}

#[test]
fn lists_begin_with_their_compact_length() {
    for n in [0usize, 1, 63, 64, 16383, 16384, 70000] {
        let list: Vec<bool> = vec![true; n];
        let bytes = encode(&list);
        assert_eq!(bytes, list.encode());
        assert_eq!(decode::<Vec<bool>>(&bytes).ok(), Some(list));
    }
    let ids: Vec<[u8; 32]> = vec![[1; 32], [2; 32]];
    assert_eq!(encode(&ids), ids.encode());
    assert_eq!(encode(&ids)[0], 8);
}

#[test]
fn a_length_longer_than_needed_is_refused() {
    // a one in the two-byte form
    assert_eq!(decode::<Vec<bool>>(&[5, 0, 1]).ok(), None);
    assert_eq!(decode::<Vec<bool>>(&[4, 1]).ok(), Some(vec![true]));
}

#[test]
fn options_and_pairs() {
    let some: Option<(u64, bool)> = Some((5, true));
    assert_eq!(encode(&some), some.encode());
    assert_eq!(decode::<Option<(u64, bool)>>(&some.encode()).ok(), Some(some));
    let none: Option<u64> = None;
    assert_eq!(encode(&none), vec![0]);
    assert_eq!(decode::<Option<u64>>(&[2]).ok(), None);
    assert_eq!(decode::<bool>(&[2]).ok(), None);
}

#[test]
fn messages_are_tagged() {
    let messages = [
        Message::PrePrepare(PrePrepare { target_hash: [7; 32], target_number: 300 }),
        Message::Prepare(Prepare { target_hash: [7; 32], target_number: 300 }),
        Message::Commit(commit()),
    ];
    for (tag, message) in messages.iter().enumerate() {
        let bytes = encode(message);
        assert_eq!(bytes, (tag as u8, [7u8; 32], 300u64).encode());
        assert_eq!(decode::<Message>(&bytes).ok(), Some(*message));
    }
    let mut bad = encode(&messages[0]);
    bad[0] = 3;
    assert_eq!(decode::<Message>(&bad).ok(), None);
}

#[test]
fn signed_messages_read_back_with_more_behind() {
    let signed =
        SignedMessage { message: Message::Commit(commit()), signature: [9; 64], id: [4; 32] };
    let mut bytes = encode(&signed);
    assert_eq!(bytes, (2u8, [7u8; 32], 300u64, [9u8; 64], [4u8; 32]).encode());
    bytes.push(1);
    assert_eq!(decode::<SignedMessage>(&bytes).ok(), Some(signed));
    assert_eq!(decode::<SignedMessage>(&bytes[..bytes.len() - 2]).ok(), None);
}

#[test]
fn view_states_are_their_fields() {
    let state = ViewState::genesis(([3; 32], 12));
    let some = Some(([3u8; 32], 12u64));
    assert_eq!(encode(&state), (some, some, some, true).encode());
    assert_eq!(decode::<ViewState>(&encode(&state)).ok(), Some(state));
}

#[test]
fn votes_read_back() {
    let pre = PrePrepare { target_hash: [1; 32], target_number: 1 };
    let prep = Prepare { target_hash: [1; 32], target_number: 1 };
    let all = [
        HasVoted::No,
        HasVoted::Yes([5; 32], Vote::PrePrepare(pre)),
        HasVoted::Yes([5; 32], Vote::Prepare(Some(pre), prep)),
        HasVoted::Yes([5; 32], Vote::Commit(None, prep, commit())),
    ];
    for vote in all {
        assert_eq!(decode::<HasVoted>(&encode(&vote)).ok(), Some(vote));
    }
    assert_eq!(encode(&all[0]), vec![0]);
    assert_eq!(
        encode(&all[3]),
        (1u8, [5u8; 32], (2u8, None::<u8>, ([1u8; 32], 1u64), ([7u8; 32], 300u64))).encode(),
    );
}

#[test]
fn consensus_logs_count_from_one() {
    let change = || ScheduledChange { next_authorities: vec![[6; 32]], delay: 2u64 };
    let list: Vec<[u8; 32]> = vec![[6; 32]];
    let cases: [(ConsensusLog<u64>, Vec<u8>); 5] = [
        (ConsensusLog::ScheduledChange(change()), (1u8, list.clone(), 2u64).encode()),
        (ConsensusLog::ForcedChange(8, change()), (2u8, 8u64, list, 2u64).encode()),
        (ConsensusLog::OnDisabled(3), (3u8, 3u64).encode()),
        (ConsensusLog::Pause(4), (4u8, 4u64).encode()),
        (ConsensusLog::Resume(5), (5u8, 5u64).encode()),
    ];
    for (log, bytes) in cases {
        assert_eq!(encode(&log), bytes);
        assert_eq!(decode::<ConsensusLog<u64>>(&bytes).ok(), Some(log));
    }
    assert_eq!(decode::<ConsensusLog<u64>>(&[0, 0]).ok(), None);
}

#[test]
fn consensus_logs_give_their_signal() {
    let change = || ScheduledChange { next_authorities: vec![[6; 32]], delay: 2u64 };
    assert_eq!(ConsensusLog::ScheduledChange(change()).try_into_change(), Some(change()));
    assert_eq!(ConsensusLog::Pause(1u64).try_into_change(), None);
    assert_eq!(
        ConsensusLog::ForcedChange(9, change()).try_into_forced_change(),
        Some((9, change())),
    );
    assert_eq!(ConsensusLog::ScheduledChange(change()).try_into_forced_change(), None);
    assert_eq!(ConsensusLog::Pause(7u64).try_into_pause(), Some(7));
    assert_eq!(ConsensusLog::Resume(7u64).try_into_pause(), None);
    assert_eq!(ConsensusLog::Resume(7u64).try_into_resume(), Some(7));
    assert_eq!(ConsensusLog::<u64>::OnDisabled(7).try_into_resume(), None);
}

#[test]
fn failures_say_what_was_met() {
    let short = "Not enough data to fill buffer";
    assert_eq!(decode_u32(&[1, 2]), Err(u32::decode(&mut &[1u8, 2][..]).unwrap_err().to_string()));
    assert_eq!(decode_u32(&[1, 2]), Err(short.to_string()));
    assert_eq!(decode::<u64>(&[]), Err(u64::decode(&mut &[][..]).unwrap_err().to_string()));
    assert_eq!(decode::<[u8; 4]>(&[1]), Err(short.to_string()));
    assert_eq!(decode::<bool>(&[7]), Err(bool::decode(&mut &[7u8][..]).unwrap_err().to_string()));
    assert_eq!(
        decode::<Option<u64>>(&[7]),
        Err(Option::<u64>::decode(&mut &[7u8][..]).unwrap_err().to_string()),
    );
    assert_eq!(
        decode::<Vec<bool>>(&[5, 0]),
        Err(Compact::<u32>::decode(&mut &[5u8, 0][..]).unwrap_err().to_string()),
    );
    assert_eq!(
        decode::<Message>(&[7]),
        Err("Could not decode `Message`, variant doesn't exist".to_string()),
    );
}

/// What `parity_scale_codec` says of something missing in the named, from the inside out.
fn missing(names: &[&'static str]) -> String {
    let mut e = Error::from("Not enough data to fill buffer");
    for name in names {
        e = e.chain(format!("Could not decode `{}`", name));
    }
    e.to_string()
}

#[test]
fn failures_inside_name_the_fields() {
    for cut in [&[][..], &[1][..], &[1, 0][..], &[2][..]] {
        assert_eq!(
            decode::<Option<u64>>(cut).err(),
            Option::<u64>::decode(&mut &cut[..]).err().map(|e| e.to_string()),
        );
        assert_eq!(
            decode::<(bool, Option<u64>)>(cut).err(),
            <(bool, Option<u64>)>::decode(&mut &cut[..]).err().map(|e| e.to_string()),
        );
    }
    assert_eq!(
        decode::<Commit>(&[7; 40][..39]),
        Err("Could not decode `Commit::target_number`:\n\tNot enough data to fill buffer\n"
            .to_string()),
    );
    assert_eq!(
        decode::<Message>(&[1]),
        Err(missing(&["Prepare::target_hash", "Message::Prepare.0"])),
    );
    assert_eq!(
        decode::<Message>(&[]),
        Err(Error::from("Not enough data to fill buffer")
            .chain("Could not decode `Message`, failed to read variant byte")
            .to_string()),
    );
    let signed = SignedMessage {
        message: Message::Commit(commit()),
        signature: [1; 64],
        id: [2; 32],
    };
    let bytes = encode(&signed);
    assert_eq!(
        decode::<SignedMessage>(&bytes[..1]),
        Err(missing(&["Commit::target_hash", "Message::Commit.0", "SignedMessage::message"])),
    );
    assert_eq!(
        decode::<SignedMessage>(&bytes[..41]),
        Err(missing(&["Signature.0", "Signature.0", "SignedMessage::signature"])),
    );
    assert_eq!(
        decode::<SignedMessage>(&bytes[..105]),
        Err(missing(&["Public.0", "Public.0", "SignedMessage::id"])),
    );
}

#[test]
fn failures_inside_votes_name_the_fields() {
    let prepare = Prepare { target_hash: [7; 32], target_number: 3 };
    let voted = HasVoted::Yes([1; 32], Vote::Commit(None, prepare, commit()));
    let bytes = encode(&voted);
    assert_eq!(
        decode::<HasVoted>(&bytes[..2]),
        Err(missing(&["Public.0", "Public.0", "HasVoted::Yes.0"])),
    );
    assert_eq!(
        decode::<HasVoted>(&bytes[..bytes.len() - 1]),
        Err(missing(&["Commit::target_number", "Vote::Commit.2", "HasVoted::Yes.1"])),
    );
    assert_eq!(
        decode::<HasVoted>(&[4]),
        Err("Could not decode `HasVoted`, variant doesn't exist".to_string()),
    );
    assert_eq!(
        decode::<Vote>(&[1, 9]),
        Err(Error::from("unexpected first byte decoding Option")
            .chain("Could not decode `Vote::Prepare.0`")
            .to_string()),
    );
    assert_eq!(
        decode::<ViewState>(&[0, 0, 0, 9]),
        Err(Error::from("Invalid boolean representation")
            .chain("Could not decode `State::completable`")
            .to_string()),
    );
}

#[test]
fn failures_inside_signals_name_the_fields() {
    assert_eq!(
        decode::<ConsensusLog<u64>>(&[1, 0]),
        Err(missing(&["ScheduledChange::delay", "ConsensusLog::ScheduledChange.0"])),
    );
    assert_eq!(
        decode::<ConsensusLog<u64>>(&[2, 0, 0, 0, 0, 0, 0, 0, 0]),
        Err(missing(&["ScheduledChange::next_authorities", "ConsensusLog::ForcedChange.1"])),
    );
    assert_eq!(decode::<ConsensusLog<u64>>(&[3]), Err(missing(&["ConsensusLog::OnDisabled.0"])));
    assert_eq!(decode::<ConsensusLog<u64>>(&[4]), Err(missing(&["ConsensusLog::Pause.0"])));
    assert_eq!(decode::<ConsensusLog<u64>>(&[5]), Err(missing(&["ConsensusLog::Resume.0"])));
    assert_eq!(
        decode::<ConsensusLog<u64>>(&[0]),
        Err("Could not decode `ConsensusLog`, variant doesn't exist".to_string()),
    );
}

#[test]
fn signals_are_cloned() {
    let change = ScheduledChange { next_authorities: vec![[1; 32]], delay: 4u64 };
    assert_eq!(change.clone(), change);
    let log = ConsensusLog::ForcedChange(3u64, change);
    assert_eq!(log.clone(), log);
}
