use finality_pbft::messages::{Message, Prepare};
use finality_pbft::payload::{
    check_message_signature, check_message_signature_with_buffer, localized_payload,
    localized_payload_with_buffer, sign_message, signed_by_reply,
};
use parity_scale_codec::Encode;
use sp_core::{ed25519, Pair};

fn message() -> Message {
    Message::Prepare(Prepare { target_hash: [2; 32], target_number: 40 })
}

fn pair() -> ed25519::Pair {
    ed25519::Pair::from_seed(&[42; 32])
}

#[test]
fn payload_is_message_view_and_set() {
    let payload = localized_payload(5, 6, &message());
    assert_eq!(payload, (1u8, [2u8; 32], 40u64, 5u64, 6u64).encode());
}

#[test]
fn payload_buffer_is_cleared() {
    let mut buf = vec![1, 2, 3];
    localized_payload_with_buffer(5, 6, &message(), &mut buf);
    assert_eq!(buf, localized_payload(5, 6, &message()));
}

#[test]
fn payloads_of_other_views_and_sets_differ() {
    let payload = localized_payload(5, 6, &message());
    assert_ne!(payload, localized_payload(6, 5, &message()));
    assert_ne!(payload, localized_payload(5, 7, &message()));
}

#[test]
fn signature_counts_for_its_view_and_set_only() {
    let pair = pair();
    let id = pair.public().0;
    let signature = pair.sign(&localized_payload(5, 6, &message())).0;
    assert!(check_message_signature(&message(), &id, &signature, 5, 6));
    assert!(!check_message_signature(&message(), &id, &signature, 5, 7));
    assert!(!check_message_signature(&message(), &id, &signature, 4, 6));
    assert!(!check_message_signature(&message(), &[0; 32], &signature, 5, 6));
    let mut spoiled = signature;
    spoiled[0] ^= 1;
    assert!(!check_message_signature(&message(), &id, &spoiled, 5, 6));
}

#[test]
fn checking_writes_the_payload_to_the_buffer() {
    let pair = pair();
    let signature = pair.sign(&localized_payload(5, 6, &message())).0;
    let mut buf = vec![9; 500];
    assert!(check_message_signature_with_buffer(
        &message(),
        &pair.public().0,
        &signature,
        5,
        6,
        &mut buf,
    ));
    assert_eq!(buf, localized_payload(5, 6, &message()));
}

#[test]
fn signed_message_checks_out() {
    let pair = pair();
    let id = pair.public().0;
    let sign = |payload: &[u8]| -> Result<Option<Vec<u8>>, ()> {
        Ok(Some(pair.sign(payload).0.to_vec()))
    };
    let signed = sign_message(sign, message(), id, 5, 6).unwrap();
    assert_eq!(signed.message, message());
    assert_eq!(signed.id, id);
    assert!(check_message_signature(&signed.message, &id, &signed.signature, 5, 6));
}

#[test]
fn nothing_is_signed_without_a_signature() {
    let no = |_: &[u8]| -> Result<Option<Vec<u8>>, ()> { Ok(None) };
    assert!(sign_message(no, message(), [1; 32], 5, 6).is_none());
    let fails = |_: &[u8]| -> Result<Option<Vec<u8>>, ()> { Err(()) };
    assert!(sign_message(fails, message(), [1; 32], 5, 6).is_none());
    let short: Result<Option<Vec<u8>>, ()> = Ok(Some(vec![0; 63]));
    assert!(signed_by_reply(message(), [1; 32], short).is_none());
    let long: Result<Option<Vec<u8>>, ()> = Ok(Some(vec![0; 65]));
    assert!(signed_by_reply(message(), [1; 32], long).is_none());
    let exact: Result<Option<Vec<u8>>, ()> = Ok(Some(vec![8; 64]));
    assert_eq!(signed_by_reply(message(), [1; 32], exact).unwrap().signature, [8; 64]);
}
