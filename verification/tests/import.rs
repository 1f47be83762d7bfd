use finality_pbft::authorities::AuthoritySet;
use finality_pbft::aux_schema::AuxRead;
use finality_pbft::error::ClientError;
use finality_pbft::import::{
    block_import, block_import_with_authority_set_hard_forks, decode_authority_list,
    hard_fork_change, AuthoritySetHardFork, PbftBlockImport,
};
use finality_pbft::pending::{ChangeRow, DelayKind};
use finality_pbft::scale::encode;
use parity_scale_codec::{Decode, Encode};
use sp_application_crypto::ed25519::AppPublic;

fn fork(set_id: u64, hash: u8, id: u8, last_finalized: Option<u64>) -> AuthoritySetHardFork {
    AuthoritySetHardFork {
        set_id,
        block: ([hash; 32], hash as u64),
        authorities: vec![[id; 32]],
        last_finalized,
    }
}

fn empty(_: &'static str) -> AuxRead {
    Ok(None)
}

#[test]
fn hard_fork_without_a_delay() {
    let (set_id, change) = hard_fork_change(fork(3, 9, 1, Some(7)));
    assert_eq!(set_id, 3);
    assert_eq!(change.next_authorities, vec![[1; 32]]);
    assert_eq!(change.delay, 0);
    assert_eq!((change.canon_hash, change.canon_height), ([9; 32], 9));
    assert_eq!(change.delay_kind, DelayKind::Best { median_last_finalized: 7 });
    assert_eq!(hard_fork_change(fork(3, 9, 1, None)).1.delay_kind, DelayKind::Finalized);
}

#[test]
fn first_fork_of_the_current_set_counts() {
    let mut set = AuthoritySet::genesis(vec![[1; 32]]).unwrap();
    set.set_id = 4;
    let forks = vec![
        hard_fork_change(fork(3, 9, 2, None)),
        hard_fork_change(fork(4, 10, 3, None)),
        hard_fork_change(fork(4, 11, 5, None)),
    ];
    let import = PbftBlockImport::new(&mut set, forks);
    assert_eq!(set.current(), (4, &[[3u8; 32]][..]));
    for hash in [9, 10, 11] {
        let change = import.authority_set_hard_forks.get(&[hash; 32]).unwrap();
        assert_eq!(change.canon_height, hash as u64);
    }
    assert_eq!(import.authority_set_hard_forks.get(&[12; 32]), None);
}

#[test]
fn fork_replaces_the_change_pending_at_its_block() {
    let mut set = AuthoritySet::genesis(vec![[1; 32]]).unwrap();
    let row = |id: u8, hash: u8| -> ChangeRow {
        (vec![[id; 32]], (5, (hash as u64, ([hash; 32], None))))
    };
    let descends = |a: &[u8; 32], b: &[u8; 32]| -> Result<bool, std::fmt::Error> { Ok(a < b) };
    let tree = &mut set.pending_standard_changes.tree;
    tree.import([10; 32], 10, row(2, 10), &descends).unwrap();
    tree.import([20; 32], 20, row(3, 20), &descends).unwrap();
    PbftBlockImport::new(&mut set, vec![hard_fork_change(fork(7, 10, 8, None))]);
    let forked = (vec![[8u8; 32]], (0, (10, ([10u8; 32], None))));
    let tree = &set.pending_standard_changes.tree;
    let pending: Vec<ChangeRow> = tree.iter().map(|(_, _, row)| row.clone()).collect();
    assert_eq!(pending, vec![forked, row(3, 20)]);
    assert_eq!(set.current(), (0, &[[1u8; 32]][..]));
}

#[test]
fn forks_apply_once() {
    let forks = || {
        vec![hard_fork_change(fork(0, 10, 8, None)), hard_fork_change(fork(1, 11, 9, Some(2)))]
    };
    let mut set = AuthoritySet::genesis(vec![[1; 32]]).unwrap();
    PbftBlockImport::new(&mut set, forks());
    let once = encode(&set);
    PbftBlockImport::new(&mut set, forks());
    assert_eq!(encode(&set), once);
}

#[test]
fn import_without_forks_keeps_the_set() {
    let (import, link, writes) = block_import(empty, [7; 32], || Ok(vec![[1; 32]])).unwrap();
    assert_eq!(writes.unwrap().len(), 2);
    assert_eq!(link.persistent_data.set_state.voting_on(1), None);
    assert_eq!(link.shared_authority_set().current(), (0, &[[1u8; 32]][..]));
    assert_eq!(import.authority_set_hard_forks.get(&[1; 32]), None);
    assert_eq!(
        link.persistent_data.set_state.read().last_completed_view().base,
        ([7; 32], 0),
    );
}

#[test]
fn import_with_forks_applies_them() {
    let forks = vec![fork(0, 9, 4, None)];
    let genesis = || Ok(vec![[1; 32]]);
    let (import, link, writes) =
        block_import_with_authority_set_hard_forks(empty, [7; 32], genesis, forks).unwrap();
    // what is written is the set as it was configured
    let configured = AuthoritySet::genesis(vec![[1; 32]]).unwrap();
    assert_eq!(writes.unwrap()[0].value, encode(&configured));
    assert_eq!(link.shared_authority_set().current(), (0, &[[4u8; 32]][..]));
    assert!(import.authority_set_hard_forks.get(&[9; 32]).is_some());
}

#[test]
fn import_fails_with_the_client() {
    let failure = || ClientError::Other("gone".to_string());
    let fails = |_: &'static str| -> AuxRead { Err(failure()) };
    let r = block_import(fails, [7; 32], || Ok(vec![[1; 32]]));
    assert_eq!(r.err(), Some(failure()));
}

#[test]
fn authority_lists_of_the_runtime() {
    let ids: Vec<[u8; 32]> = vec![[1; 32], [2; 32]];
    assert_eq!(decode_authority_list(&ids.encode()), Ok(ids.clone()));
    let bytes = ids.encode();
    let failed = |reason: &str| {
        Err(ClientError::CallResultDecode(
            "failed to decode GRANDPA authorities set proof".to_string(),
            reason.to_string(),
        ))
    };
    assert_eq!(
        decode_authority_list(&bytes[..64]),
        failed(
            "Could not decode `Public.0`:\n\tCould not decode `Public.0`:\n\t\t\
            Not enough data to fill buffer\n"
        ),
    );
    assert_eq!(decode_authority_list(&[]), failed("Not enough data to fill buffer"));
    for bytes in [&bytes[..64], &bytes[..1], &[], &[5, 0], &[7]] {
        let reason = Vec::<AppPublic>::decode(&mut &bytes[..]).unwrap_err().to_string();
        assert_eq!(decode_authority_list(bytes), failed(&reason));
    }
}
