use finality_pbft::decimal::append_decimal;
use finality_pbft::protocol_name::{standard_name, NAME};
use finality_pbft::topics::{global_topic, view_topic};
use sp_core::hashing::blake2_256;

#[test]
fn view_topic_hashes_set_and_view() {
    assert_eq!(view_topic(3, 15), blake2_256(b"15-3"));
    assert_eq!(view_topic(u64::MAX, 0), blake2_256(b"0-18446744073709551615"));
}

#[test]
fn global_topic_hashes_the_set() {
    assert_eq!(global_topic(15), blake2_256(b"15-GLOBAL"));
}

#[test]
fn topics_differ() {
    assert_ne!(view_topic(1, 11), view_topic(11, 1));
    assert_ne!(view_topic(1, 1), view_topic(2, 1));
    assert_ne!(global_topic(1), global_topic(2));
    assert_ne!(global_topic(1), view_topic(0, 1));
}

#[test]
fn decimals() {
    let mut text = String::from("n=");
    append_decimal(&mut text, 0);
    append_decimal(&mut text, 1020);
    assert_eq!(text, "n=01020");
}

#[test]
fn protocol_names() {
    assert_eq!(NAME, "/pbft/1");
    assert_eq!(standard_name("0xab", None), "/0xab/pbft/1");
    assert_eq!(standard_name("0xab", Some("f2")), "/0xab/f2/pbft/1");
}
