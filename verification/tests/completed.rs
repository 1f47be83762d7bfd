use finality_pbft::authorities::AuthoritySet;
use finality_pbft::completed::{CompletedView, CompletedViews, NUM_LAST_COMPLETED_VIEWS};
use finality_pbft::scale::{decode, encode};
use finality_pbft::votes::ViewState;
use parity_scale_codec::Encode;

fn view(number: u64, base: u8) -> CompletedView {
    CompletedView {
        number,
        state: ViewState::genesis(([base; 32], number)),
        base: ([base; 32], number),
        votes: Vec::new(),
    }
}

fn completed() -> CompletedViews {
    let set = AuthoritySet::genesis(vec![[1; 32], [2; 32]]).unwrap();
    CompletedViews::new(view(0, 0), 9, &set)
}

fn numbers(views: &CompletedViews) -> Vec<u64> {
    views.iter().iter().map(|view| view.number).collect()
}

#[test]
fn starts_with_genesis() {
    let views = completed();
    assert!(!views.is_empty());
    assert_eq!(numbers(&views), vec![0]);
    assert_eq!(views.last(), &view(0, 0));
    let (set_id, voters) = views.set_info();
    assert_eq!(set_id, 9);
    assert_eq!(voters, &[[1; 32], [2; 32]]);
}

#[test]
fn push_keeps_the_latest_two() {
    assert_eq!(NUM_LAST_COMPLETED_VIEWS, 2);
    let mut views = completed();
    views.push(view(1, 1));
    assert_eq!(numbers(&views), vec![0, 1]);
    views.push(view(3, 3));
    assert_eq!(numbers(&views), vec![1, 3]);
    views.push(view(2, 2));
    assert_eq!(numbers(&views), vec![2, 3]);
    assert_eq!(views.last().number, 3);
    assert_eq!(views.highest(), Some(3));
}

#[test]
fn push_of_an_old_view_is_dropped() {
    let mut views = completed();
    views.push(view(5, 5));
    views.push(view(7, 7));
    views.push(view(6, 6));
    views.push(view(1, 1));
    assert_eq!(numbers(&views), vec![6, 7]);
}

#[test]
fn push_replaces_a_view_of_the_same_number() {
    let mut views = completed();
    views.push(view(1, 1));
    views.push(view(1, 8));
    assert_eq!(numbers(&views), vec![0, 1]);
    assert_eq!(views.last(), &view(1, 8));
    let before = views.clone();
    views.push(view(1, 8));
    assert_eq!(views, before);
}

#[test]
fn completed_views_are_views_set_and_voters() {
    let mut views = completed();
    views.push(view(1, 1));
    let one = |number: u64, base: u8| {
        let at = ([base; 32], number);
        (number, (Some(at), Some(at), Some(at), true), at, Vec::<u8>::new())
    };
    let voters: Vec<[u8; 32]> = vec![[1; 32], [2; 32]];
    assert_eq!(encode(&views), (vec![one(1, 1), one(0, 0)], 9u64, voters).encode());
    assert_eq!(decode::<CompletedViews>(&encode(&views)).ok(), Some(views));
}
