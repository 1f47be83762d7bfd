use finality_pbft::authorities::{AuthoritySet, AuthoritySetChanges};
use finality_pbft::pending::{ChangeRow, ChangesByBlock, DelayKind, PendingChange};
use finality_pbft::scale::{decode, encode};
use finality_pbft::voters::voter_list;
use fork_tree::ForkTree;
use parity_scale_codec::{Decode, Encode, Error};

fn row(id: u8, hash: u8, height: u64) -> ChangeRow {
    (vec![[id; 32]], (2, (height, ([hash; 32], None))))
}

fn change(id: u8, hash: u8, height: u64) -> PendingChange<[u8; 32], u64> {
    PendingChange {
        next_authorities: vec![[id; 32]],
        delay: 0,
        canon_height: height,
        canon_hash: [hash; 32],
        delay_kind: DelayKind::Best { median_last_finalized: 1 },
    }
}

/// A set with a change pending at block 10 and one on top of it at block 20.
fn set() -> AuthoritySet {
    let mut set = AuthoritySet::genesis(vec![[1; 32], [2; 32]]).unwrap();
    let descends = |a: &[u8; 32], b: &[u8; 32]| -> Result<bool, std::fmt::Error> { Ok(a < b) };
    let tree = &mut set.pending_standard_changes.tree;
    tree.import([10; 32], 10, row(5, 10, 10), &descends).unwrap();
    tree.import([20; 32], 20, row(6, 20, 20), &descends).unwrap();
    set
}

fn pending(set: &AuthoritySet) -> Vec<([u8; 32], u64, ChangeRow)> {
    let tree = &set.pending_standard_changes.tree;
    tree.iter().map(|(hash, number, row)| (*hash, *number, row.clone())).collect()
}

#[test]
fn genesis_set() {
    assert!(AuthoritySet::genesis(Vec::new()).is_none());
    let set = AuthoritySet::genesis(vec![[2; 32], [1; 32]]).unwrap();
    assert_eq!(set.current(), (0, &[[2u8; 32], [1u8; 32]][..]));
    assert_eq!(voter_list(&set.current_voters().unwrap()), vec![[1; 32], [2; 32]]);
    assert!(pending(&set).is_empty());
    assert!(set.pending_forced_changes.is_empty());
    assert_eq!(set.authority_set_changes, AuthoritySetChanges(Vec::new()));
}

#[test]
fn genesis_set_bytes() {
    let ids: Vec<[u8; 32]> = vec![[2; 32], [1; 32]];
    let set = AuthoritySet::genesis(ids.clone()).unwrap();
    // no roots, nothing finalized in the tree, no forced changes, no set changes
    assert_eq!(encode(&set), (ids, 0u64, [0u8, 0], 0u8, 0u8).encode());
}

#[test]
fn sets_read_back() {
    let mut set = set();
    set.set_id = 7;
    set.pending_forced_changes.push(change(8, 30, 30));
    set.authority_set_changes.0.push((6, 5));
    let bytes = encode(&set);
    let read: AuthoritySet = decode(&bytes).unwrap();
    assert_eq!(read.current(), set.current());
    assert_eq!(pending(&read), pending(&set));
    assert_eq!(read.pending_forced_changes, set.pending_forced_changes);
    assert_eq!(read.authority_set_changes, set.authority_set_changes);
    assert_eq!(encode(&read), bytes);
    assert!(decode::<AuthoritySet>(&bytes[..bytes.len() - 1]).is_err());
}

#[test]
fn clones_are_the_same() {
    let set = set();
    let copy = set.clone();
    assert_eq!(encode(&copy), encode(&set));
    assert_eq!(pending(&copy), pending(&set));
}

#[test]
fn pending_changes_are_written_with_the_tree() {
    let set = set();
    let inner = ([20u8; 32], 20u64, row(6, 20, 20), 0u8);
    let outer = ([10u8; 32], 10u64, row(5, 10, 10), 4u8, inner);
    let ids: Vec<[u8; 32]> = vec![[1; 32], [2; 32]];
    assert_eq!(encode(&set), (ids, 0u64, (4u8, outer, 0u8), 0u8, 0u8).encode());
}

#[test]
fn later_change_for_a_block_counts() {
    let index = ChangesByBlock::new(vec![change(1, 9, 9), change(2, 9, 9), change(3, 8, 8)]);
    assert_eq!(index.get(&[9; 32]), Some(&change(2, 9, 9)));
    assert_eq!(index.get(&[8; 32]), Some(&change(3, 8, 8)));
    assert_eq!(index.get(&[7; 32]), None);
}

#[test]
fn replaces_pending_changes_by_block() {
    let mut set = set();
    let index = ChangesByBlock::new(vec![change(9, 20, 20)]);
    set.pending_standard_changes.replace(&index);
    let replaced: ChangeRow = (vec![[9; 32]], (0, (20, ([20; 32], Some(1)))));
    let expected = vec![([10; 32], 10, row(5, 10, 10)), ([20; 32], 20, replaced)];
    assert_eq!(pending(&set), expected);
    set.pending_standard_changes.replace(&index);
    assert_eq!(pending(&set), expected);
}

#[test]
fn failures_inside_sets_name_the_fields() {
    let set = set();
    let bytes = encode(&set);
    let reason = |cut: usize| decode::<AuthoritySet>(&bytes[..cut]).err().unwrap();
    let field = |e: Error, name: &str| e.chain(format!("Could not decode `{}`", name)).to_string();
    let short = || Error::from("Not enough data to fill buffer");
    assert_eq!(reason(70), field(short(), "AuthoritySet::set_id"));
    // what the tree itself says, and the field that holds it
    for cut in [73, 100, bytes.len() - 3] {
        let tree = ForkTree::<[u8; 32], u64, ChangeRow>::decode(&mut &bytes[73..cut]);
        assert_eq!(
            reason(cut),
            field(tree.err().unwrap(), "AuthoritySet::pending_standard_changes"),
        );
    }
    let forced = bytes.len() - 2;
    assert_eq!(reason(forced), field(short(), "AuthoritySet::pending_forced_changes"));
    assert_eq!(
        reason(bytes.len() - 1),
        field(
            short().chain("Could not decode `AuthoritySetChanges.0`"),
            "AuthoritySet::authority_set_changes",
        ),
    );
    // a forced change of a kind that there is not
    let mut odd = bytes[..forced].to_vec();
    odd.push(4);
    odd.append(&mut encode(&change(8, 30, 30)));
    let kind = odd.len() - 9;
    odd[kind] = 7;
    assert_eq!(
        decode::<AuthoritySet>(&odd).err(),
        Some(field(
            Error::from("Could not decode `DelayKind`, variant doesn't exist")
                .chain("Could not decode `PendingChange::delay_kind`"),
            "AuthoritySet::pending_forced_changes",
        )),
    );
    odd.truncate(kind + 5);
    odd[kind] = 1;
    assert_eq!(
        decode::<AuthoritySet>(&odd).err(),
        Some(field(
            short()
                .chain("Could not decode `DelayKind::Best::median_last_finalized`")
                .chain("Could not decode `PendingChange::delay_kind`"),
            "AuthoritySet::pending_forced_changes",
        )),
    );
}

#[test]
fn set_changes_are_cloned() {
    let changes = AuthoritySetChanges(vec![(6, 5u64), (7, 9)]);
    assert_eq!(changes.clone(), changes);
}
