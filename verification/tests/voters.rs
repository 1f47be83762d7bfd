use finality_pbft::voters::{is_voter, local_authority_id, voter_list, voters_of};

#[test]
fn voters_come_in_order_and_once() {
    let voters = voters_of(&vec![[3; 32], [1; 32], [2; 32], [1; 32]]).unwrap();
    assert_eq!(voter_list(&voters), vec![[1; 32], [2; 32], [3; 32]]);
    assert!(is_voter(&voters, &[2; 32]));
    assert!(!is_voter(&voters, &[4; 32]));
}

#[test]
fn no_voters_without_authorities() {
    assert!(voters_of(&Vec::new()).is_none());
}

#[test]
fn local_id_is_the_first_voter_with_a_key() {
    let voters = voters_of(&vec![[3; 32], [1; 32], [2; 32]]).unwrap();
    let has_keys = |id: &[u8; 32]| id[0] >= 2;
    assert_eq!(local_authority_id(&voters, Some(has_keys)), Some([2; 32]));
    let none = |_: &[u8; 32]| false;
    assert_eq!(local_authority_id(&voters, Some(none)), None);
    let without: Option<fn(&[u8; 32]) -> bool> = None;
    assert_eq!(local_authority_id(&voters, without), None);
}

#[test]
fn voters_weigh_as_often_as_they_are_listed() {
    let voters = voters_of(&vec![[3; 32], [1; 32], [1; 32]]).unwrap();
    assert_eq!(voters.get(&[1; 32]).unwrap().weight().get(), 2);
    assert_eq!(voters.get(&[3; 32]).unwrap().weight().get(), 1);
}
