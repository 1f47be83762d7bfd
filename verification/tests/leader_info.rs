use finality_pbft::leader_info::LeaderInfo;
use std::sync::Arc;

fn info() -> LeaderInfo<u64, [u8; 32]> {
    LeaderInfo::new()
}

#[test]
fn starts_as_a_follower() {
    let info = info();
    assert_eq!(info.is_leader(), (false, None));
    assert_eq!(info.get_round(), 0);
}

#[test]
fn leads_only_a_later_round() {
    let mut info = info();
    info.become_leader(0);
    assert!(!info.is_leader().0);
    info.become_leader(4);
    assert!(info.is_leader().0);
    assert_eq!(info.get_round(), 4);
    info.become_follower(2);
    assert!(!info.is_leader().0);
    assert_eq!(info.get_round(), 2);
    info.become_leader(2);
    assert!(!info.is_leader().0);
}

#[test]
fn leads_with_a_certificate_in_any_round() {
    let mut info = info();
    info.set_round(7);
    info.become_leader_with_qc(3, (9, [1; 32]));
    assert_eq!(info.get_round(), 7);
    assert_eq!(info.is_leader(), (true, Some((9, [1; 32]))));
    assert_eq!(info.generic_qc(), (9, [1; 32]));
    info.become_leader_with_qc(8, (10, [2; 32]));
    assert_eq!(info.get_round(), 8);
    info.gathered_a_qc((11, [3; 32]));
    assert_eq!(info.generic_qc(), (11, [3; 32]));
    assert_eq!(info.is_leader(), (true, Some((10, [2; 32]))));
    assert_eq!(info.clone().generic_qc(), (11, [3; 32]));
}

#[test]
fn shares_what_is_waited_on() {
    let info = info();
    let notify = info.get_notify();
    assert!(Arc::ptr_eq(&notify, &info.get_notify()));
    assert!(Arc::ptr_eq(&notify, &info.clone().get_notify()));
    info.notify();
    let waiting = notify.notified();
    futures::executor::block_on(waiting);
}
