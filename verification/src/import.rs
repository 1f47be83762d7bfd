//! Setting up the import of blocks, with authority sets that are forced off-chain.
use crate::authorities::{genesis_set, AuthoritySet, AuthoritySetView};
use crate::aux_schema::{
    answers_known_version, answers_only, answers_with, is_live_at, law_load_gives_back,
    lemma_first_load, lemma_read_fails, load_persistent, loaded, starts_anew, AuxRead, AuxWrite,
    PersistentData, AUTHORITY_SET_KEY, SET_STATE_KEY, VERSION_KEY,
};
use crate::error::ClientError;
use crate::messages::{
    copy_ids, AuthorityId, AuthorityList, BlockHash, BlockNumber, Ids, SetId,
};
use crate::pending::{
    by_block, law_by_block, law_replace_is_idempotent, law_replace_keeps_the_tree, node_at,
    replace_node, replace_nodes, views_of, ChangesByBlock, DelayKind, PendingChange,
    PendingChangeView, PendingForest, PendingNode,
};
use crate::scale::{begins, decode, law_read_back, Codec};
use crate::voter_set_state::{
    law_live_state, record_bytes, record_fits, record_of, VoterSetStateView,
};
use vstd::prelude::*;

verus! {

/// A descriptor for an authority set hard fork. These are authority set changes
/// that are not signalled by the runtime and instead are defined off-chain
/// (hence the hard fork).
#[derive(Debug)]
pub struct AuthoritySetHardFork {
    /// The new authority set id.
    pub set_id: SetId,
    /// The block hash and number at which the hard fork should be applied.
    pub block: (BlockHash, BlockNumber),
    /// The authorities in the new set.
    pub authorities: AuthorityList,
    /// The latest block number that was finalized before this authority set
    /// hard fork. When defined, the authority set change will be forced, i.e.
    /// the node won't wait for the block above to be finalized before enacting
    /// the change, and the given finalized number will be used as a base for
    /// voting.
    pub last_finalized: Option<BlockNumber>,
}

/// The change that a hard fork stands for, without any delay.
pub open spec fn fork_change(fork: AuthoritySetHardFork) -> PendingChangeView<
    BlockHash,
    BlockNumber,
> {
    PendingChangeView {
        next_authorities: fork.authorities@,
        delay: 0,
        canon_height: fork.block.1,
        canon_hash: fork.block.0,
        delay_kind: match fork.last_finalized {
            Some(last) => DelayKind::Best { median_last_finalized: last },
            None => DelayKind::Finalized,
        },
    }
}

/// The set ids of the forks, with the changes they stand for.
pub open spec fn fork_changes(forks: Seq<AuthoritySetHardFork>) -> Seq<
    (SetId, PendingChangeView<BlockHash, BlockNumber>),
> {
    forks.map_values(|fork: AuthoritySetHardFork| (fork.set_id, fork_change(fork)))
}

/// What each pair says.
pub open spec fn pair_views(pairs: Seq<(SetId, PendingChange<BlockHash, BlockNumber>)>) -> Seq<
    (SetId, PendingChangeView<BlockHash, BlockNumber>),
> {
    pairs.map_values(|pair: (SetId, PendingChange<BlockHash, BlockNumber>)| (pair.0, pair.1@))
}

/// The changes without the set ids.
pub open spec fn only_changes(
    pairs: Seq<(SetId, PendingChangeView<BlockHash, BlockNumber>)>,
) -> Seq<PendingChangeView<BlockHash, BlockNumber>> {
    pairs.map_values(|pair: (SetId, PendingChangeView<BlockHash, BlockNumber>)| pair.1)
}

/// The change that a hard fork stands for, with the id of its set.
pub fn hard_fork_change(fork: AuthoritySetHardFork) -> (r: (
    SetId,
    PendingChange<BlockHash, BlockNumber>,
))
    ensures
        r.0 == fork.set_id,
        r.1@ == fork_change(fork),
{
    let delay_kind = match fork.last_finalized {
        Some(last_finalized) => DelayKind::Best { median_last_finalized: last_finalized },
        None => DelayKind::Finalized,
    };
    (
        fork.set_id,
        PendingChange {
            next_authorities: fork.authorities,
            delay: 0,
            canon_height: fork.block.1,
            canon_hash: fork.block.0,
            delay_kind,
        },
    )
}

fn hard_fork_changes(forks: Vec<AuthoritySetHardFork>) -> (r: Vec<
    (SetId, PendingChange<BlockHash, BlockNumber>),
>)
    ensures
        pair_views(r@) == fork_changes(forks@),
{
    let ghost all = forks@;
    let mut r: Vec<(SetId, PendingChange<BlockHash, BlockNumber>)> = Vec::new();
    for fork in it: forks
        invariant
            it.seq() == all,
            r@.len() == it.index(),
            forall|i: int| 0 <= i < r@.len() ==> (#[trigger] r@[i]).0 == all[i].set_id,
            forall|i: int| 0 <= i < r@.len() ==> (#[trigger] r@[i]).1@ == fork_change(all[i]),
    {
        r.push(hard_fork_change(fork));
    }
    assert(pair_views(r@) =~= fork_changes(all));
    r
}

/// The first change for the set.
pub open spec fn first_for(
    set_id: SetId,
    pairs: Seq<(SetId, PendingChangeView<BlockHash, BlockNumber>)>,
) -> Option<PendingChangeView<BlockHash, BlockNumber>>
    decreases pairs.len(),
{
    if pairs.len() == 0 {
        None
    } else if pairs[0].0 == set_id {
        Some(pairs[0].1)
    } else {
        first_for(set_id, pairs.subrange(1, pairs.len() as int))
    }
}

/// The authority set once the hard forks are applied: the first for the current set replaces its
/// authorities, and a pending standard change gives way to the hard fork at its block.
pub open spec fn forked_set(
    set: AuthoritySetView,
    pairs: Seq<(SetId, PendingChangeView<BlockHash, BlockNumber>)>,
) -> AuthoritySetView {
    AuthoritySetView {
        current_authorities: match first_for(set.set_id, pairs) {
            Some(change) => change.next_authorities,
            None => set.current_authorities,
        },
        pending_standard_changes: PendingForest {
            roots: replace_nodes(
                set.pending_standard_changes.roots,
                by_block(only_changes(pairs)),
            ),
            best: set.pending_standard_changes.best,
        },
        ..set
    }
}

/// A block-import handler for PBFT.
#[derive(Debug)]
pub struct PbftBlockImport {
    /// The hard forks by the hash of their block.
    pub authority_set_hard_forks: ChangesByBlock,
}

impl PbftBlockImport {
    /// Sets up the handler. Hard forks that apply to the current authority set, or to standard
    /// changes that are pending in it, are applied.
    pub fn new(
        authority_set: &mut AuthoritySet,
        authority_set_hard_forks: Vec<(SetId, PendingChange<BlockHash, BlockNumber>)>,
    ) -> (r: Self)
        ensures
            final(authority_set)@ == forked_set(
                old(authority_set)@,
                pair_views(authority_set_hard_forks@),
            ),
            r.authority_set_hard_forks@ == by_block(
                only_changes(pair_views(authority_set_hard_forks@)),
            ),
    {
        let ghost pairs = pair_views(authority_set_hard_forks@);
        let ghost before = authority_set@;
        // check for and apply any forced authority set hard fork that applies
        // to the *current* authority set.
        let mut i: usize = 0;
        let mut found: Option<AuthorityList> = None;
        assert(pairs.subrange(0, pairs.len() as int) =~= pairs);
        while i < authority_set_hard_forks.len() && found.is_none()
            invariant
                pairs == pair_views(authority_set_hard_forks@),
                before == authority_set@,
                i <= authority_set_hard_forks@.len(),
                match found {
                    None => first_for(before.set_id, pairs) == first_for(
                        before.set_id,
                        pairs.subrange(i as int, pairs.len() as int),
                    ),
                    Some(ids) => first_for(before.set_id, pairs) matches Some(change)
                        && change.next_authorities == ids@,
                },
            decreases authority_set_hard_forks@.len() - i,
        {
            let ghost rest = pairs.subrange(i as int, pairs.len() as int);
            assert(rest.subrange(1, rest.len() as int) =~= pairs.subrange(
                i + 1,
                pairs.len() as int,
            ));
            assert(rest[0] == (
                authority_set_hard_forks@[i as int].0,
                authority_set_hard_forks@[i as int].1@,
            ));
            let (set_id, change) = &authority_set_hard_forks[i];
            if *set_id == authority_set.set_id {
                found = Some(copy_ids(change.next_authorities.as_slice()));
            }
            i += 1;
        }
        if let Some(ids) = found {
            authority_set.current_authorities = ids;
        }
        // index authority set hard forks by block hash so that they can be used
        // by any node syncing the chain and importing a block hard fork
        // authority set changes.
        let mut changes: Vec<PendingChange<BlockHash, BlockNumber>> = Vec::new();
        let ghost all = authority_set_hard_forks@;
        for pair in it: authority_set_hard_forks
            invariant
                it.seq() == all,
                changes@.len() == it.index(),
                forall|i: int| 0 <= i < changes@.len() ==> #[trigger] changes@[i] == all[i].1,
        {
            changes.push(pair.1);
        }
        assert(views_of(changes@) =~= only_changes(pairs));
        let index = ChangesByBlock::new(changes);
        // check for and apply any forced authority set hard fork that apply to
        // any *pending* standard changes, checking by the block hash at which
        // they were announced.
        authority_set.pending_standard_changes.replace(&index);
        assert(authority_set@ =~= forked_set(before, pairs));
        PbftBlockImport { authority_set_hard_forks: index }
    }
}

/// Link between the block importer and the background voter.
#[derive(Debug)]
pub struct LinkHalf {
    /// What is kept between runs.
    pub persistent_data: PersistentData,
}

impl LinkHalf {
    /// Get the authority set.
    pub fn shared_authority_set(&self) -> (r: &AuthoritySet)
        ensures
            *r == self.persistent_data.authority_set,
    {
        &self.persistent_data.authority_set
    }
}

/// What the call of the runtime for the authorities at genesis gives. The error says what was
/// met where they cannot be read.
pub fn decode_authority_list(call_result: &[u8]) -> (r: Result<AuthorityList, ClientError>)
    ensures
        match r {
            Ok(ids) => AuthorityList::fits(ids@) && begins(
                call_result@,
                AuthorityList::bytes(ids@),
            ),
            Err(e) => {
                &&& e matches ClientError::CallResultDecode(m, reason)
                &&& m@ == "failed to decode GRANDPA authorities set proof"@
                &&& reason@ == Ids::error(call_result@)
                &&& forall|other: Seq<AuthorityId>|
                    AuthorityList::fits(other) ==> !begins(
                        call_result@,
                        #[trigger] AuthorityList::bytes(other),
                    )
            },
        },
{
    match decode::<Ids>(call_result) {
        Ok(list) => Ok(list.ids),
        Err(e) => {
            proof {
                assert forall|ids: Seq<AuthorityId>| AuthorityList::fits(ids) implies !begins(
                    call_result@,
                    #[trigger] AuthorityList::bytes(ids),
                ) by {
                    assert(Ids::bytes(ids) == AuthorityList::bytes(ids));
                }
            }
            let what = "failed to decode GRANDPA authorities set proof".to_string();
            Err(ClientError::CallResultDecode(what, e))
        },
    }
}

/// A block importer, a link half, and what is to be written to the database.
pub type Linked = (PbftBlockImport, LinkHalf, Option<Vec<AuxWrite>>);

/// The importer and the link that come of what was loaded, once the hard forks are applied, with
/// what is to be written.
pub open spec fn linked(
    found: Result<(PersistentData, Option<Vec<AuxWrite>>), ClientError>,
    pairs: Seq<(SetId, PendingChangeView<BlockHash, BlockNumber>)>,
    r: Result<Linked, ClientError>,
) -> bool {
    match found {
        Err(e) => r == Err::<Linked, ClientError>(e),
        Ok((data, to_write)) => {
            &&& r matches Ok((import, link, writes))
            &&& import.authority_set_hard_forks@ == by_block(only_changes(pairs))
            &&& link.persistent_data.authority_set@ == forked_set(data.authority_set@, pairs)
            &&& link.persistent_data.set_state@ == data.set_state@
            &&& writes == to_write
        },
    }
}

/// Make block importer and link half necessary to tie the background voter to
/// it. A vector of authority set hard forks can be passed, any authority set
/// change signaled at the given block (either already signalled or in a further
/// block when importing it) will be replaced by a standard change with the
/// given static authorities.
pub fn block_import_with_authority_set_hard_forks<
    R: Fn(&'static str) -> AuxRead,
    G: FnOnce() -> Result<AuthorityList, ClientError>,
>(
    read: R,
    genesis_hash: BlockHash,
    genesis_authorities: G,
    authority_set_hard_forks: Vec<AuthoritySetHardFork>,
) -> (r: Result<Linked, ClientError>)
    requires
        forall|key: &'static str| call_requires(read, (key,)),
        starts_anew(read) ==> call_requires(genesis_authorities, ()),
        forall|authorities: AuthorityList|
            call_ensures(genesis_authorities, (), Ok(authorities)) ==> 0 < authorities@.len()
                <= u32::MAX,
    ensures
        exists|found: Result<(PersistentData, Option<Vec<AuxWrite>>), ClientError>| #[trigger]
            loaded(read, (genesis_hash, 0), genesis_authorities, found) && linked(
                found,
                fork_changes(authority_set_hard_forks@),
                r,
            ),
{
    let found = load_persistent(read, genesis_hash, 0, genesis_authorities);
    assert(loaded(read, (genesis_hash, 0), genesis_authorities, found));
    match found {
        Err(e) => Err(e),
        Ok((data, writes)) => {
            let mut persistent_data = data;
            // create pending change objects with 0 delay for each authority set hard fork.
            let changes = hard_fork_changes(authority_set_hard_forks);
            let import = PbftBlockImport::new(&mut persistent_data.authority_set, changes);
            Ok((import, LinkHalf { persistent_data }, writes))
        },
    }
}

/// Make block importer and link half necessary to tie the background voter
/// to it.
pub fn block_import<
    R: Fn(&'static str) -> AuxRead,
    G: FnOnce() -> Result<AuthorityList, ClientError>,
>(read: R, genesis_hash: BlockHash, genesis_authorities: G) -> (r: Result<Linked, ClientError>)
    requires
        forall|key: &'static str| call_requires(read, (key,)),
        starts_anew(read) ==> call_requires(genesis_authorities, ()),
        forall|authorities: AuthorityList|
            call_ensures(genesis_authorities, (), Ok(authorities)) ==> 0 < authorities@.len()
                <= u32::MAX,
    ensures
        exists|found: Result<(PersistentData, Option<Vec<AuxWrite>>), ClientError>| #[trigger]
            loaded(read, (genesis_hash, 0), genesis_authorities, found) && (match found {
                Err(e) => r == Err::<Linked, ClientError>(e),
                Ok((data, to_write)) => {
                    &&& r matches Ok((import, link, writes))
                    &&& import.authority_set_hard_forks@.dom() == Set::<BlockHash>::empty()
                    &&& link.persistent_data@ == data@
                    &&& writes == to_write
                },
            }),
{
    let forks: Vec<AuthoritySetHardFork> = Vec::new();
    let ghost pairs = fork_changes(forks@);
    let r = block_import_with_authority_set_hard_forks(
        read,
        genesis_hash,
        genesis_authorities,
        forks,
    );
    proof {
        let found = choose|found: Result<(PersistentData, Option<Vec<AuxWrite>>), ClientError>|
            #[trigger]
            loaded(read, (genesis_hash, 0), genesis_authorities, found) && linked(found, pairs, r);
        assert(pairs.len() == 0 && only_changes(pairs).len() == 0);
        assert(by_block(only_changes(pairs)).dom() =~= Set::<BlockHash>::empty());
        if let Ok((data, _)) = found {
            law_no_forks_no_change(data.authority_set@, pairs);
        }
    }
    r
}

/// Without hard forks the authority set is left as it is.
pub proof fn law_no_forks_no_change(
    set: AuthoritySetView,
    pairs: Seq<(SetId, PendingChangeView<BlockHash, BlockNumber>)>,
)
    requires
        pairs.len() == 0,
    ensures
        forked_set(set, pairs) == set,
{
    assert(only_changes(pairs).len() == 0);
    lemma_replace_by_nothing(set.pending_standard_changes.roots);
    assert(by_block(only_changes(pairs)) =~= Map::empty());
    assert(forked_set(set, pairs) =~= set);
}

proof fn lemma_replace_by_nothing(nodes: Seq<PendingNode>)
    ensures
        replace_nodes(nodes, Map::empty()) == nodes,
    decreases nodes,
{
    if nodes.len() > 0 {
        let rest = nodes.subrange(1, nodes.len() as int);
        lemma_replace_by_nothing(nodes[0].children);
        lemma_replace_by_nothing(rest);
        assert(replace_node(nodes[0], Map::empty()) == nodes[0]);
        assert(seq![nodes[0]] + rest =~= nodes);
    }
}

/// Applying the same hard forks once more, as the next start does, changes nothing.
pub proof fn law_forks_apply_once(
    set: AuthoritySetView,
    pairs: Seq<(SetId, PendingChangeView<BlockHash, BlockNumber>)>,
)
    ensures
        forked_set(forked_set(set, pairs), pairs) == forked_set(set, pairs),
{
    law_replace_is_idempotent(
        set.pending_standard_changes.roots,
        by_block(only_changes(pairs)),
    );
}

/// A change that is pending at the block of a hard fork is replaced by that of the hard fork,
/// given no other hard fork for the block. A change at any other block stays as it is.
pub proof fn law_fork_replaces_change(forks: Seq<AuthoritySetHardFork>, node: PendingNode)
    requires
        forall|i: int, j: int|
            0 <= i < j < forks.len() ==> (#[trigger] forks[i]).block.0 != (
            #[trigger] forks[j]).block.0,
    ensures
        forall|i: int|
            0 <= i < forks.len() && (#[trigger] forks[i]).block.0 == node.hash ==> replace_node(
                node,
                by_block(only_changes(fork_changes(forks))),
            ).change == fork_change(forks[i]),
        (forall|i: int| 0 <= i < forks.len() ==> (#[trigger] forks[i]).block.0 != node.hash)
            ==> replace_node(node, by_block(only_changes(fork_changes(forks)))).change
            == node.change,
{
    let changes = only_changes(fork_changes(forks));
    assert forall|i: int| 0 <= i < forks.len() implies #[trigger] changes[i] == fork_change(
        forks[i],
    ) by {}
    lemma_by_block(changes, node.hash);
    assert forall|i: int|
        0 <= i < forks.len() && (#[trigger] forks[i]).block.0 == node.hash implies replace_node(
        node,
        by_block(changes),
    ).change == fork_change(forks[i]) by {
        assert(changes[i].canon_hash == node.hash);
    }
}

proof fn lemma_by_block(
    changes: Seq<PendingChangeView<BlockHash, BlockNumber>>,
    hash: BlockHash,
)
    ensures
        by_block(changes).contains_key(hash) <==> exists|i: int|
            0 <= i < changes.len() && (#[trigger] changes[i]).canon_hash == hash,
        by_block(changes).contains_key(hash) ==> exists|i: int|
            0 <= i < changes.len() && (#[trigger] changes[i]).canon_hash == hash && by_block(
                changes,
            )[hash] == changes[i],
    decreases changes.len(),
{
    if changes.len() > 0 {
        let shorter = changes.drop_last();
        lemma_by_block(shorter, hash);
        assert(changes[changes.len() - 1] == changes.last());
        if changes.last().canon_hash != hash && by_block(shorter).contains_key(hash) {
            let i = choose|i: int|
                0 <= i < shorter.len() && (#[trigger] shorter[i]).canon_hash == hash && by_block(
                    shorter,
                )[hash] == shorter[i];
            assert(changes[i] == shorter[i]);
        }
        if exists|i: int| 0 <= i < changes.len() && (#[trigger] changes[i]).canon_hash == hash {
            let i = choose|i: int|
                0 <= i < changes.len() && (#[trigger] changes[i]).canon_hash == hash;
            if i < shorter.len() {
                assert(shorter[i].canon_hash == hash);
            }
        }
    }
}

proof fn lemma_first_for(
    set_id: SetId,
    pairs: Seq<(SetId, PendingChangeView<BlockHash, BlockNumber>)>,
    i: int,
)
    ensures
        0 <= i < pairs.len() && pairs[i].0 == set_id && (forall|j: int|
            0 <= j < i ==> (#[trigger] pairs[j]).0 != set_id) ==> first_for(set_id, pairs) == Some(
            pairs[i].1,
        ),
        (forall|j: int| 0 <= j < pairs.len() ==> (#[trigger] pairs[j]).0 != set_id) ==> first_for(
            set_id,
            pairs,
        ) is None,
    decreases pairs.len(),
{
    if pairs.len() > 0 {
        let rest = pairs.subrange(1, pairs.len() as int);
        lemma_first_for(set_id, rest, i - 1);
        if 0 < i < pairs.len() && (forall|j: int| 0 <= j < i ==> (#[trigger] pairs[j]).0
            != set_id) {
            assert(pairs[0].0 != set_id);
            assert(rest[i - 1] == pairs[i]);
            assert forall|j: int| 0 <= j < i - 1 implies (#[trigger] rest[j]).0 != set_id by {
                assert(rest[j] == pairs[j + 1]);
            }
        }
        if forall|j: int| 0 <= j < pairs.len() ==> (#[trigger] pairs[j]).0 != set_id {
            assert(pairs[0].0 != set_id);
            assert forall|j: int| 0 <= j < rest.len() implies (#[trigger] rest[j]).0 != set_id by {
                assert(rest[j] == pairs[j + 1]);
            }
        }
    }
}

/// Of the hard forks for the current set, the first sets its authorities, forced or not. Without
/// any they stay. The rest of the set stays in either case, but for the pending standard changes.
pub proof fn law_first_fork_sets_the_authorities(
    set: &mut AuthoritySet,
    forks: Vec<(SetId, PendingChange<BlockHash, BlockNumber>)>,
    r: PbftBlockImport,
    i: int,
)
    requires
        call_ensures(PbftBlockImport::new, (set, forks), r),
    ensures
        0 <= i < forks@.len() && forks@[i].0 == old(set)@.set_id && (forall|j: int|
            0 <= j < i ==> (#[trigger] forks@[j]).0 != old(set)@.set_id)
            ==> final(set)@.current_authorities == forks@[i].1.next_authorities@,
        (forall|j: int| 0 <= j < forks@.len() ==> (#[trigger] forks@[j]).0 != old(set)@.set_id)
            ==> final(set)@.current_authorities == old(set)@.current_authorities,
        final(set)@.set_id == old(set)@.set_id,
        final(set)@.pending_standard_changes.best == old(set)@.pending_standard_changes.best,
        final(set)@.pending_forced_changes == old(set)@.pending_forced_changes,
        final(set)@.authority_set_changes == old(set)@.authority_set_changes,
{
    let pairs = pair_views(forks@);
    let set_id = old(set)@.set_id;
    lemma_first_for(set_id, pairs, i);
    if forall|j: int| 0 <= j < i ==> (#[trigger] forks@[j]).0 != set_id {
        if 0 <= i < forks@.len() {
            assert forall|j: int| 0 <= j < i implies (#[trigger] pairs[j]).0 != set_id by {
                assert(forks@[j].0 != set_id);
            }
        }
    }
    if forall|j: int| 0 <= j < forks@.len() ==> (#[trigger] forks@[j]).0 != set_id {
        assert forall|j: int| 0 <= j < pairs.len() implies (#[trigger] pairs[j]).0 != set_id by {
            assert(forks@[j].0 != set_id);
        }
    }
}

/// Wherever in the tree a standard change is pending, it stays in its place. It becomes the change
/// of the last hard fork for its block, and stays as it is where there is none. The importer finds
/// that hard fork by the block's hash, and finds none where there is none.
pub proof fn law_forks_replace_pending_changes(
    set: &mut AuthoritySet,
    forks: Vec<(SetId, PendingChange<BlockHash, BlockNumber>)>,
    r: PbftBlockImport,
    path: Seq<int>,
    hash: BlockHash,
    found: Option<&PendingChange<BlockHash, BlockNumber>>,
    i: int,
)
    requires
        call_ensures(PbftBlockImport::new, (set, forks), r),
        call_ensures(ChangesByBlock::get, (&r.authority_set_hard_forks, &hash), found),
    ensures
        match node_at(old(set)@.pending_standard_changes.roots, path) {
            None => node_at(final(set)@.pending_standard_changes.roots, path) is None,
            Some(node) => node_at(final(set)@.pending_standard_changes.roots, path) matches Some(
                after,
            ) && {
                &&& after.hash == node.hash
                &&& after.number == node.number
                &&& after.children.len() == node.children.len()
                &&& 0 <= i < forks@.len() && forks@[i].1.canon_hash == node.hash && (forall|j: int|
                    i < j < forks@.len() ==> (#[trigger] forks@[j]).1.canon_hash != node.hash)
                    ==> after.change == forks@[i].1@
                &&& (forall|j: int|
                    0 <= j < forks@.len() ==> (#[trigger] forks@[j]).1.canon_hash != node.hash)
                    ==> after.change == node.change
            },
        },
        0 <= i < forks@.len() && forks@[i].1.canon_hash == hash && (forall|j: int|
            i < j < forks@.len() ==> (#[trigger] forks@[j]).1.canon_hash != hash) ==> (
        found matches Some(change) && change@ == forks@[i].1@),
        (forall|j: int| 0 <= j < forks@.len() ==> (#[trigger] forks@[j]).1.canon_hash != hash)
            ==> found is None,
{
    let changes = only_changes(pair_views(forks@));
    law_replace_keeps_the_tree(
        old(set)@.pending_standard_changes.roots,
        by_block(changes),
        path,
    );
    lemma_fork_of_block(forks@, hash, i);
    if let Some(node) = node_at(old(set)@.pending_standard_changes.roots, path) {
        lemma_fork_of_block(forks@, node.hash, i);
    }
}

proof fn lemma_fork_of_block(
    forks: Seq<(SetId, PendingChange<BlockHash, BlockNumber>)>,
    hash: BlockHash,
    i: int,
)
    ensures
        0 <= i < forks.len() && forks[i].1.canon_hash == hash && (forall|j: int|
            i < j < forks.len() ==> (#[trigger] forks[j]).1.canon_hash != hash) ==> by_block(
            only_changes(pair_views(forks)),
        ).contains_key(hash) && by_block(only_changes(pair_views(forks)))[hash] == forks[i].1@,
        (forall|j: int| 0 <= j < forks.len() ==> (#[trigger] forks[j]).1.canon_hash != hash)
            ==> !by_block(only_changes(pair_views(forks))).contains_key(hash),
{
    let changes = only_changes(pair_views(forks));
    law_by_block(changes, hash, i);
    assert forall|j: int| 0 <= j < forks.len() implies #[trigger] changes[j] == forks[j].1@ by {}
    if 0 <= i < forks.len() && forks[i].1.canon_hash == hash && (forall|j: int|
        i < j < forks.len() ==> (#[trigger] forks[j]).1.canon_hash != hash) {
        assert(changes[i].canon_hash == hash);
        assert forall|j: int| i < j < changes.len() implies (#[trigger] changes[j]).canon_hash
            != hash by {
            assert(forks[j].1.canon_hash != hash);
        }
    }
    if forall|j: int| 0 <= j < forks.len() ==> (#[trigger] forks[j]).1.canon_hash != hash {
        assert forall|j: int| 0 <= j < changes.len() implies (#[trigger] changes[j]).canon_hash
            != hash by {
            assert(forks[j].1.canon_hash != hash);
        }
    }
}

/// A hard fork stands for a change to its authorities at its block, without delay, for its set. It
/// is forced, on top of the last finalized block, if and only if that is given.
pub proof fn law_fork_is_a_change(
    fork: AuthoritySetHardFork,
    r: (SetId, PendingChange<BlockHash, BlockNumber>),
)
    requires
        call_ensures(hard_fork_change, (fork,), r),
    ensures
        r.0 == fork.set_id,
        r.1.next_authorities@ == fork.authorities@,
        r.1.delay == 0,
        (r.1.canon_hash, r.1.canon_height) == fork.block,
        r.1.delay_kind is Finalized <==> fork.last_finalized is None,
        r.1.delay_kind matches DelayKind::Best { median_last_finalized }
            ==> fork.last_finalized == Some(median_last_finalized),
{
    assert(r.1@ == fork_change(fork));
}

/// If some hard fork has the id of the current set, the first one that has it sets the current
/// authorities, whatever was finalized before. Without any they stay.
pub proof fn law_first_fork_of_the_list(
    set: AuthoritySetView,
    forks: Seq<AuthoritySetHardFork>,
    i: int,
)
    ensures
        0 <= i < forks.len() && forks[i].set_id == set.set_id && (forall|j: int|
            0 <= j < i ==> (#[trigger] forks[j]).set_id != set.set_id) ==> forked_set(
            set,
            fork_changes(forks),
        ).current_authorities == forks[i].authorities@,
        (forall|j: int| 0 <= j < forks.len() ==> (#[trigger] forks[j]).set_id != set.set_id)
            ==> forked_set(set, fork_changes(forks)).current_authorities
            == set.current_authorities,
        forked_set(set, fork_changes(forks)).set_id == set.set_id,
        forked_set(set, fork_changes(forks)).pending_forced_changes == set.pending_forced_changes,
        forked_set(set, fork_changes(forks)).authority_set_changes == set.authority_set_changes,
{
    let pairs = fork_changes(forks);
    lemma_first_for(set.set_id, pairs, i);
    if 0 <= i < forks.len() && (forall|j: int|
        0 <= j < i ==> (#[trigger] forks[j]).set_id != set.set_id) {
        assert forall|j: int| 0 <= j < i implies (#[trigger] pairs[j]).0 != set.set_id by {
            assert(forks[j].set_id != set.set_id);
        }
    }
    if forall|j: int| 0 <= j < forks.len() ==> (#[trigger] forks[j]).set_id != set.set_id {
        assert forall|j: int| 0 <= j < pairs.len() implies (#[trigger] pairs[j]).0
            != set.set_id by {
            assert(forks[j].set_id != set.set_id);
        }
    }
}

/// The change is the one that the hard fork stands for: to its authorities, at its block, without
/// delay, and forced on top of the last finalized block if that is given.
pub open spec fn is_change_of(
    change: PendingChangeView<BlockHash, BlockNumber>,
    fork: AuthoritySetHardFork,
) -> bool {
    &&& change.next_authorities == fork.authorities@
    &&& change.delay == 0
    &&& (change.canon_hash, change.canon_height) == fork.block
    &&& fork.last_finalized is None ==> change.delay_kind is Finalized
    &&& fork.last_finalized matches Some(n) ==> (change.delay_kind matches DelayKind::Best {
        median_last_finalized,
    } && median_last_finalized == n)
}

/// The hard fork is the last for the block.
pub open spec fn is_last_for(forks: Seq<AuthoritySetHardFork>, k: int, hash: BlockHash) -> bool {
    &&& 0 <= k < forks.len()
    &&& forks[k].block.0 == hash
    &&& forall|j: int| k < j < forks.len() ==> (#[trigger] forks[j]).block.0 != hash
}

/// The set `after` is the set `before` with the hard forks applied. The authorities are those of
/// the first hard fork for its id, and stay without any. The node at the end of the path is where
/// it was, with the change of the last hard fork for its block, and with its own change without
/// any. All else stays.
pub open spec fn has_forks_applied(
    before: AuthoritySetView,
    after: AuthoritySetView,
    forks: Seq<AuthoritySetHardFork>,
    i: int,
    path: Seq<int>,
    k: int,
) -> bool {
    &&& after.set_id == before.set_id
    &&& after.pending_forced_changes == before.pending_forced_changes
    &&& after.authority_set_changes == before.authority_set_changes
    &&& after.pending_standard_changes.best == before.pending_standard_changes.best
    &&& 0 <= i < forks.len() && forks[i].set_id == before.set_id && (forall|j: int|
        0 <= j < i ==> (#[trigger] forks[j]).set_id != before.set_id) ==> after.current_authorities
        == forks[i].authorities@
    &&& (forall|j: int| 0 <= j < forks.len() ==> (#[trigger] forks[j]).set_id != before.set_id)
        ==> after.current_authorities == before.current_authorities
    &&& match node_at(before.pending_standard_changes.roots, path) {
        None => node_at(after.pending_standard_changes.roots, path) is None,
        Some(node) => {
            &&& node_at(after.pending_standard_changes.roots, path) matches Some(now)
            &&& now.hash == node.hash
            &&& now.number == node.number
            &&& now.children.len() == node.children.len()
            &&& is_last_for(forks, k, node.hash) ==> is_change_of(now.change, forks[k])
            &&& (forall|j: int|
                0 <= j < forks.len() ==> (#[trigger] forks[j]).block.0 != node.hash) ==> now.change
                == node.change
        },
    }
}

/// The importer knows a hard fork for a block if and only if there is one, and then the last.
pub open spec fn knows_forks(
    index: Map<BlockHash, PendingChangeView<BlockHash, BlockNumber>>,
    forks: Seq<AuthoritySetHardFork>,
    hash: BlockHash,
    k: int,
) -> bool {
    &&& index.contains_key(hash) <==> exists|j: int|
        0 <= j < forks.len() && (#[trigger] forks[j]).block.0 == hash
    &&& is_last_for(forks, k, hash) ==> is_change_of(index[hash], forks[k])
}

proof fn lemma_last_fork(forks: Seq<AuthoritySetHardFork>, hash: BlockHash, k: int)
    ensures
        knows_forks(by_block(only_changes(fork_changes(forks))), forks, hash, k),
        is_last_for(forks, k, hash) ==> by_block(
            only_changes(fork_changes(forks)),
        ).contains_key(hash),
        (forall|j: int| 0 <= j < forks.len() ==> (#[trigger] forks[j]).block.0 != hash)
            ==> !by_block(only_changes(fork_changes(forks))).contains_key(hash),
{
    let changes = only_changes(fork_changes(forks));
    law_by_block(changes, hash, k);
    assert forall|j: int| 0 <= j < forks.len() implies #[trigger] changes[j] == fork_change(
        forks[j],
    ) by {}
    if exists|j: int| 0 <= j < forks.len() && (#[trigger] forks[j]).block.0 == hash {
        let j = choose|j: int| 0 <= j < forks.len() && (#[trigger] forks[j]).block.0 == hash;
        assert(changes[j].canon_hash == hash);
    }
    if by_block(changes).contains_key(hash) {
        let j = choose|j: int| 0 <= j < changes.len() && (#[trigger] changes[j]).canon_hash == hash;
        assert(forks[j].block.0 == hash);
    }
    if is_last_for(forks, k, hash) {
        assert forall|j: int| k < j < changes.len() implies (#[trigger] changes[j]).canon_hash
            != hash by {
            assert(forks[j].block.0 != hash);
        }
        assert(changes[k].canon_hash == hash);
    }
}

proof fn lemma_forks_applied(
    set: AuthoritySetView,
    forks: Seq<AuthoritySetHardFork>,
    i: int,
    path: Seq<int>,
    k: int,
)
    ensures
        has_forks_applied(set, forked_set(set, fork_changes(forks)), forks, i, path, k),
{
    law_first_fork_of_the_list(set, forks, i);
    let roots = set.pending_standard_changes.roots;
    law_replace_keeps_the_tree(roots, by_block(only_changes(fork_changes(forks))), path);
    if let Some(node) = node_at(roots, path) {
        lemma_last_fork(forks, node.hash, k);
    }
}

/// Setting up the import on a database that holds an authority set and a voter set state gives
/// that state, and the set with the hard forks applied. Nothing is to be written. The importer
/// knows the last hard fork for each block.
pub proof fn law_import_applies_forks<
    R: Fn(&'static str) -> AuxRead,
    G: FnOnce() -> Result<AuthorityList, ClientError>,
>(
    read: R,
    genesis_hash: BlockHash,
    genesis_authorities: G,
    forks: Vec<AuthoritySetHardFork>,
    set: AuthoritySetView,
    state: VoterSetStateView,
    r: Result<Linked, ClientError>,
    i: int,
    path: Seq<int>,
    hash: BlockHash,
    k: int,
)
    requires
        call_ensures(
            block_import_with_authority_set_hard_forks::<R, G>,
            (read, genesis_hash, genesis_authorities, forks),
            r,
        ),
        AuthoritySet::fits(set),
        record_fits(record_of(state)),
        state matches VoterSetStateView::Live { current, .. } ==> current.dom().finite(),
        answers_known_version(read),
        answers_with(read, AUTHORITY_SET_KEY, AuthoritySet::bytes(set)),
        answers_with(read, SET_STATE_KEY, record_bytes(record_of(state))),
    ensures
        r matches Ok((import, link, writes)) && {
            let held = link.persistent_data;
            &&& writes is None
            &&& held.set_state@.state == state
            &&& held.set_state@.voting.dom() == Set::<u64>::empty()
            &&& has_forks_applied(set, held.authority_set@, forks@, i, path, k)
            &&& knows_forks(import.authority_set_hard_forks@, forks@, hash, k)
        },
{
    let genesis = (genesis_hash, 0u64);
    let found = choose|found: Result<(PersistentData, Option<Vec<AuxWrite>>), ClientError>|
        #[trigger]
        loaded(read, genesis, genesis_authorities, found) && linked(
            found,
            fork_changes(forks@),
            r,
        );
    law_load_gives_back(read, genesis, genesis_authorities, set, state, found);
    lemma_forks_applied(set, forks@, i, path, k);
    lemma_last_fork(forks@, hash, k);
}

/// Setting up the import on an empty database holds the genesis set with the hard forks applied,
/// and the voter live on top of the genesis block. What is to be written is the genesis set without
/// the hard forks, which the next start applies again, and the state.
pub proof fn law_first_import_applies_forks<
    R: Fn(&'static str) -> AuxRead,
    G: FnOnce() -> Result<AuthorityList, ClientError>,
>(
    read: R,
    genesis_hash: BlockHash,
    genesis_authorities: G,
    forks: Vec<AuthoritySetHardFork>,
    authorities: Result<Seq<AuthorityId>, ClientError>,
    r: Result<Linked, ClientError>,
    i: int,
    hash: BlockHash,
    k: int,
)
    requires
        call_ensures(
            block_import_with_authority_set_hard_forks::<R, G>,
            (read, genesis_hash, genesis_authorities, forks),
            r,
        ),
        answers_only(read, VERSION_KEY, Ok(None)),
        answers_only(read, AUTHORITY_SET_KEY, Ok(None)),
        forall|answer: Result<AuthorityList, ClientError>| #[trigger]
            call_ensures(genesis_authorities, (), answer) ==> (match answer {
                Ok(list) => authorities == Ok::<Seq<AuthorityId>, ClientError>(list@),
                Err(e) => authorities == Err::<Seq<AuthorityId>, ClientError>(e),
            }),
    ensures
        match authorities {
            Err(e) => r == Err::<Linked, ClientError>(e),
            Ok(ids) => {
                &&& r matches Ok((import, link, Some(writes)))
                &&& link.persistent_data.authority_set@.set_id == 0
                &&& 0 <= i < forks@.len() && forks@[i].set_id == 0 && (forall|j: int|
                    0 <= j < i ==> (#[trigger] forks@[j]).set_id != 0)
                    ==> link.persistent_data.authority_set@.current_authorities
                    == forks@[i].authorities@
                &&& (forall|j: int| 0 <= j < forks@.len() ==> (#[trigger] forks@[j]).set_id != 0)
                    ==> link.persistent_data.authority_set@.current_authorities == ids
                &&& is_live_at(link.persistent_data.set_state@.state, 0, ids, (genesis_hash, 0))
                &&& knows_forks(import.authority_set_hard_forks@, forks@, hash, k)
                &&& writes@.len() == 2
                &&& writes@[0].key@ == AUTHORITY_SET_KEY@
                &&& writes@[0].value@ == AuthoritySet::bytes(genesis_set(ids))
                &&& writes@[1].key@ == SET_STATE_KEY@
                &&& writes@[1].value@ == record_bytes(
                    record_of(link.persistent_data.set_state@.state),
                )
            },
        },
{
    let genesis = (genesis_hash, 0u64);
    let found = choose|found: Result<(PersistentData, Option<Vec<AuxWrite>>), ClientError>|
        #[trigger]
        loaded(read, genesis, genesis_authorities, found) && linked(
            found,
            fork_changes(forks@),
            r,
        );
    lemma_first_load(read, genesis, genesis_authorities, authorities, found);
    if let Ok(ids) = authorities {
        lemma_forks_applied(genesis_set(ids), forks@, i, Seq::empty(), k);
        lemma_last_fork(forks@, hash, k);
        law_live_state(0, ids, genesis);
    }
}

/// Setting up the import without hard forks gives what the database holds, and the importer knows
/// no hard fork. A failure of the database is the failure of setting up, with hard forks or not.
pub proof fn law_import_without_forks<
    R: Fn(&'static str) -> AuxRead,
    G: FnOnce() -> Result<AuthorityList, ClientError>,
>(
    read: R,
    genesis_hash: BlockHash,
    genesis_authorities: G,
    set: AuthoritySetView,
    state: VoterSetStateView,
    forks: Vec<AuthoritySetHardFork>,
    e: ClientError,
    r: Result<Linked, ClientError>,
    with_forks: Result<Linked, ClientError>,
    hash: BlockHash,
)
    requires
        call_ensures(block_import::<R, G>, (read, genesis_hash, genesis_authorities), r),
        call_ensures(
            block_import_with_authority_set_hard_forks::<R, G>,
            (read, genesis_hash, genesis_authorities, forks),
            with_forks,
        ),
        AuthoritySet::fits(set),
        record_fits(record_of(state)),
        state matches VoterSetStateView::Live { current, .. } ==> current.dom().finite(),
    ensures
        answers_known_version(read) && answers_with(
            read,
            AUTHORITY_SET_KEY,
            AuthoritySet::bytes(set),
        ) && answers_with(read, SET_STATE_KEY, record_bytes(record_of(state))) ==> (r matches Ok(
            (import, link, writes),
        ) && {
            &&& writes is None
            &&& link.persistent_data.authority_set@ == set
            &&& link.persistent_data.set_state@.state == state
            &&& !import.authority_set_hard_forks@.contains_key(hash)
        }),
        answers_only(read, VERSION_KEY, Err(e)) ==> r == Err::<Linked, ClientError>(e)
            && with_forks == Err::<Linked, ClientError>(e),
{
    let genesis = (genesis_hash, 0u64);
    let found = choose|found: Result<(PersistentData, Option<Vec<AuxWrite>>), ClientError>|
        #[trigger]
        loaded(read, genesis, genesis_authorities, found) && (match found {
            Err(e) => r == Err::<Linked, ClientError>(e),
            Ok((data, to_write)) => {
                &&& r matches Ok((import, link, writes))
                &&& import.authority_set_hard_forks@.dom() == Set::<BlockHash>::empty()
                &&& link.persistent_data@ == data@
                &&& writes == to_write
            },
        });
    if answers_known_version(read) && answers_with(
        read,
        AUTHORITY_SET_KEY,
        AuthoritySet::bytes(set),
    ) && answers_with(read, SET_STATE_KEY, record_bytes(record_of(state))) {
        law_load_gives_back(read, genesis, genesis_authorities, set, state, found);
    }
    if answers_only(read, VERSION_KEY, Err(e)) {
        lemma_read_fails(read, genesis, genesis_authorities, e, found);
        let other = choose|other: Result<(PersistentData, Option<Vec<AuxWrite>>), ClientError>|
            #[trigger]
            loaded(read, genesis, genesis_authorities, other) && linked(
                other,
                fork_changes(forks@),
                with_forks,
            );
        lemma_read_fails(read, genesis, genesis_authorities, e, other);
    }
}

/// The authorities that the runtime encoded are the ones that are read, whatever stands behind.
pub proof fn law_authority_list_is_read(
    ids: Seq<AuthorityId>,
    behind: Seq<u8>,
    call_result: &[u8],
    r: Result<AuthorityList, ClientError>,
)
    requires
        AuthorityList::fits(ids),
        call_result@ == AuthorityList::bytes(ids) + behind,
        call_ensures(decode_authority_list, (call_result,), r),
    ensures
        r matches Ok(list) && list@ == ids,
{
    law_read_back::<AuthorityList>(ids, behind, ids);
    if let Ok(list) = r {
        law_read_back::<AuthorityList>(ids, behind, list@);
    }
}

} // verus!
