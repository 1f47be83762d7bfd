use finality_pbft::error::ClientError;
use finality_pbft::target::{next_target, Header, NextTarget};

/// A chain in which the block of number `n` has the hash of `n`s.
fn header(n: u8) -> Header {
    Header { hash: [n; 32], number: n as u64, parent_hash: [n.wrapping_sub(1); 32] }
}

fn chain(hash: [u8; 32]) -> Result<Option<Header>, ClientError> {
    Ok(if hash[0] <= 20 { Some(header(hash[0])) } else { None })
}

#[test]
fn best_block_that_is_the_base() {
    let r = next_target(Some(header(5)), Ok([5; 32]), chain);
    assert_eq!(r, Ok(NextTarget::Block(5, [5; 32])));
}

#[test]
fn best_block_just_above_the_base() {
    let r = next_target(Some(header(5)), Ok([6; 32]), chain);
    assert_eq!(r, Ok(NextTarget::Block(6, [6; 32])));
}

#[test]
fn walks_back_to_the_block_above_the_base() {
    let r = next_target(Some(header(5)), Ok([12; 32]), chain);
    assert_eq!(r, Ok(NextTarget::Block(6, [6; 32])));
}

#[test]
fn no_target_without_a_base_or_a_best_block() {
    assert_eq!(next_target(None, Ok([5; 32]), chain), Ok(NextTarget::Nothing));
    let r = next_target(Some(header(5)), Err("none".to_string()), chain);
    assert_eq!(r, Ok(NextTarget::Nothing));
}

#[test]
fn unknown_headers_are_reported() {
    let r = next_target(Some(header(5)), Ok([21; 32]), chain);
    assert_eq!(r, Ok(NextTarget::Broken));
    let gap = |hash: [u8; 32]| if hash[0] == 8 { Ok(None) } else { chain(hash) };
    let r = next_target(Some(header(5)), Ok([12; 32]), gap);
    assert_eq!(r, Ok(NextTarget::Broken));
}

#[test]
fn headers_that_miss_the_base_are_reported() {
    let r = next_target(Some(header(5)), Ok([3; 32]), chain);
    assert_eq!(r, Ok(NextTarget::Broken));
    let stuck = |_: [u8; 32]| Ok(Some(header(9)));
    let r = next_target(Some(header(5)), Ok([9; 32]), stuck);
    assert_eq!(r, Ok(NextTarget::Broken));
}

#[test]
fn client_errors_are_handed_on() {
    let failure = || ClientError::Other("gone".to_string());
    let fails = |_: [u8; 32]| Err(failure());
    assert_eq!(next_target(Some(header(5)), Ok([6; 32]), fails), Err(failure()));
    let later = |hash: [u8; 32]| if hash[0] == 8 { Err(failure()) } else { chain(hash) };
    assert_eq!(next_target(Some(header(5)), Ok([12; 32]), later), Err(failure()));
}
