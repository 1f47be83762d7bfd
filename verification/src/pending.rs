//! Changes of the authority set that wait for finality, across forks.
use crate::fields::{
    Field, DELAY_KIND_BEST_MEDIAN_LAST_FINALIZED, PENDING_CHANGE_CANON_HASH,
    PENDING_CHANGE_CANON_HEIGHT, PENDING_CHANGE_DELAY, PENDING_CHANGE_DELAY_KIND,
    PENDING_CHANGE_NEXT_AUTHORITIES,
};
use crate::messages::{
    copy_ids, same_bytes, AuthorityId, AuthorityList, BlockHash, BlockNumber, Ids,
};
use crate::scale::{
    begins, chained, compact_bytes, le_bytes, lemma_begins_concat, lemma_compact_unique,
    lemma_tagged, no_variant, no_variant_byte, unknown, unknown_variant, Codec, TOO_SHORT,
};
use fork_tree::ForkTree;
use parity_scale_codec::{Decode, Encode};
use vstd::prelude::*;

verus! {

/// Kinds of delays for pending changes.
#[derive(Clone, Copy, Debug, PartialEq, Eq)]
pub enum DelayKind<N> {
    /// Depth in finalized chain.
    Finalized,
    /// Depth in best chain. The median last finalized block is calculated at the time the
    /// change was signaled.
    Best { median_last_finalized: N },
}

/// A pending change to the authority set.
///
/// This will be applied when the announcing block is at some depth within
/// the finalized or unfinalized chain.
#[derive(Debug, PartialEq, Eq)]
pub struct PendingChange<H, N> {
    /// The new authorities to apply.
    pub next_authorities: AuthorityList,
    /// How deep in the chain the announcing block must be before the change is applied.
    pub delay: N,
    /// The announcing block's height.
    pub canon_height: N,
    /// The announcing block's hash.
    pub canon_hash: H,
    /// The delay kind.
    pub delay_kind: DelayKind<N>,
}

/// What a pending change says.
#[verifier::ext_equal]
pub struct PendingChangeView<H, N> {
    /// The new authorities.
    pub next_authorities: Seq<AuthorityId>,
    /// The delay.
    pub delay: N,
    /// The announcing block's height.
    pub canon_height: N,
    /// The announcing block's hash.
    pub canon_hash: H,
    /// The delay kind.
    pub delay_kind: DelayKind<N>,
}

impl<H, N> View for PendingChange<H, N> {
    type V = PendingChangeView<H, N>;

    open spec fn view(&self) -> PendingChangeView<H, N> {
        PendingChangeView {
            next_authorities: self.next_authorities@,
            delay: self.delay,
            canon_height: self.canon_height,
            canon_hash: self.canon_hash,
            delay_kind: self.delay_kind,
        }
    }
}

/// A pending change as the fork tree holds it: its fields in order, with the median of the best
/// chain's delay kind as an option.
pub type ChangeRow = (
    AuthorityList,
    (BlockNumber, (BlockNumber, (BlockHash, Option<BlockNumber>))),
);

/// The median of the best chain's delay kind.
pub open spec fn median_of(kind: DelayKind<BlockNumber>) -> Option<BlockNumber> {
    match kind {
        DelayKind::Finalized => None,
        DelayKind::Best { median_last_finalized } => Some(median_last_finalized),
    }
}

/// The pending change that a row holds.
pub open spec fn row_change(row: ChangeRow) -> PendingChangeView<BlockHash, BlockNumber> {
    PendingChangeView {
        next_authorities: row.0@,
        delay: row.1.0,
        canon_height: row.1.1.0,
        canon_hash: row.1.1.1.0,
        delay_kind: match row.1.1.1.1 {
            Some(median) => DelayKind::Best { median_last_finalized: median },
            None => DelayKind::Finalized,
        },
    }
}

/// `ForkTree` of `fork_tree`: values at blocks, ordered by the blocks' ancestry.
#[verifier::external_type_specification]
#[verifier::external_body]
#[verifier::reject_recursive_types(H)]
#[verifier::reject_recursive_types(N)]
#[verifier::reject_recursive_types(V)]
pub struct ExForkTree<H, N, V>(ForkTree<H, N, V>);

/// A pending change at the block that announced it, with the changes announced on top.
#[verifier::ext_equal]
pub struct PendingNode {
    /// The block's hash.
    pub hash: BlockHash,
    /// The block's number.
    pub number: BlockNumber,
    /// The change.
    pub change: PendingChangeView<BlockHash, BlockNumber>,
    /// The changes on top of this one.
    pub children: Seq<PendingNode>,
}

/// The changes of a tree that are on top of no other.
pub uninterp spec fn tree_roots(tree: ForkTree<BlockHash, BlockNumber, ChangeRow>) -> Seq<
    PendingNode,
>;

/// The highest block number that was finalized in the tree.
pub uninterp spec fn tree_best(tree: ForkTree<BlockHash, BlockNumber, ChangeRow>) -> Option<
    BlockNumber,
>;

/// The encoding of a node: hash, number, change, and the nodes on top.
pub open spec fn node_bytes(node: PendingNode) -> Seq<u8>
    decreases node,
{
    node.hash@ + BlockNumber::bytes(node.number) + change_bytes(node.change) + (compact_bytes(
        node.children.len() as u32,
    ) + nodes_bytes(node.children))
}

/// The encodings of the nodes, one behind the other.
pub open spec fn nodes_bytes(nodes: Seq<PendingNode>) -> Seq<u8>
    decreases nodes,
{
    if nodes.len() == 0 {
        Seq::empty()
    } else {
        node_bytes(nodes[0]) + nodes_bytes(nodes.subrange(1, nodes.len() as int))
    }
}

/// The encoding of a pending change: its fields in order.
pub open spec fn change_bytes(change: PendingChangeView<BlockHash, BlockNumber>) -> Seq<u8> {
    ChangeRow::bytes(change_row(change))
}

/// What the row of a change stands for.
pub open spec fn change_row(change: PendingChangeView<BlockHash, BlockNumber>) -> (
    Seq<AuthorityId>,
    (BlockNumber, (BlockNumber, (BlockHash, Option<BlockNumber>))),
) {
    (
        change.next_authorities,
        (
            change.delay,
            (
                change.canon_height,
                (
                    change.canon_hash,
                    median_of(change.delay_kind),
                ),
            ),
        ),
    )
}

/// No list in the nodes is too long to be written.
pub open spec fn nodes_fit(nodes: Seq<PendingNode>) -> bool
    decreases nodes,
{
    nodes.len() > 0 ==> {
        &&& node_fits(nodes[0])
        &&& nodes_fit(nodes.subrange(1, nodes.len() as int))
    }
}

/// No list in the node is too long to be written.
pub open spec fn node_fits(node: PendingNode) -> bool
    decreases node,
{
    &&& ChangeRow::fits(change_row(node.change))
    &&& node.children.len() <= u32::MAX
    &&& nodes_fit(node.children)
}

/// `ForkTree::new` of `fork_tree`: a tree without nodes.
#[verifier::external_body]
fn fork_tree_new() -> (r: ForkTree<BlockHash, BlockNumber, ChangeRow>)
    ensures
        tree_roots(r) == Seq::<PendingNode>::empty(),
        tree_best(r) is None,
{
    ForkTree::new()
}

/// `ForkTree::clone` of `fork_tree`: the same nodes in the same places.
#[verifier::external_body]
fn fork_tree_clone(tree: &ForkTree<BlockHash, BlockNumber, ChangeRow>) -> (r: ForkTree<
    BlockHash,
    BlockNumber,
    ChangeRow,
>)
    ensures
        tree_roots(r) == tree_roots(*tree),
        tree_best(r) == tree_best(*tree),
{
    tree.clone()
}

/// `ForkTree::encode` of `fork_tree`, which `parity_scale_codec` derives: the number of roots,
/// the roots, and the best finalized number as an option.
#[verifier::external_body]
fn fork_tree_encode(tree: &ForkTree<BlockHash, BlockNumber, ChangeRow>) -> (r: Vec<u8>)
    requires
        forest_fits(tree_roots(*tree)),
    ensures
        r@ == forest_bytes(tree_roots(*tree), tree_best(*tree)),
{
    tree.encode()
}

/// What `ForkTree::decode` of `fork_tree` says of bytes at whose front no tree stands.
pub uninterp spec fn fork_tree_error(bytes: Seq<u8>) -> Seq<char>;

/// `ForkTree::decode` of `fork_tree`, which `parity_scale_codec` derives: reads a tree from the
/// front of `input` and leaves the rest, and fails only where no encoding of a tree stands
/// there. The reader recurses once for each generation of nodes; how many the stack holds is
/// not stated. The error is handed on as its text, which is a function of the bytes: which of
/// the nested fields could not be read, and why.
#[verifier::external_body]
fn fork_tree_decode(input: &[u8]) -> (r: Result<
    (ForkTree<BlockHash, BlockNumber, ChangeRow>, &[u8]),
    String,
>)
    ensures
        match r {
            Ok((tree, rest)) => forest_fits(tree_roots(tree)) && input@ == forest_bytes(
                tree_roots(tree),
                tree_best(tree),
            ) + rest@,
            Err(e) => {
                &&& forall|roots: Seq<PendingNode>, best: Option<BlockNumber>|
                    forest_fits(roots) ==> !begins(input@, #[trigger] forest_bytes(roots, best))
                &&& e@ == fork_tree_error(input@)
            },
        },
{
    let mut rest: &[u8] = input;
    let tree: ForkTree<BlockHash, BlockNumber, ChangeRow> =
        ForkTree::decode(&mut rest).map_err(|e| e.to_string())?;
    Ok((tree, rest))
}

/// The encoding of a tree.
pub open spec fn forest_bytes(roots: Seq<PendingNode>, best: Option<BlockNumber>) -> Seq<u8> {
    compact_bytes(roots.len() as u32) + nodes_bytes(roots) + Option::<BlockNumber>::bytes(best)
}

/// No list in the tree is too long to be written.
pub open spec fn forest_fits(roots: Seq<PendingNode>) -> bool {
    roots.len() <= u32::MAX && nodes_fit(roots)
}

proof fn lemma_change_unique(
    s: Seq<u8>,
    a: PendingChangeView<BlockHash, BlockNumber>,
    b: PendingChangeView<BlockHash, BlockNumber>,
)
    requires
        ChangeRow::fits(change_row(a)),
        ChangeRow::fits(change_row(b)),
        begins(s, change_bytes(a)),
        begins(s, change_bytes(b)),
    ensures
        a == b,
{
    ChangeRow::unique(s, change_row(a), change_row(b));
}

proof fn lemma_node_unique(s: Seq<u8>, a: PendingNode, b: PendingNode)
    requires
        node_fits(a),
        node_fits(b),
        begins(s, node_bytes(a)),
        begins(s, node_bytes(b)),
    ensures
        a == b,
    decreases a,
{
    let (a1, b1) = (a.hash@, b.hash@);
    let (a2, b2) = (a1 + BlockNumber::bytes(a.number), b1 + BlockNumber::bytes(b.number));
    let (a3, b3) = (a2 + change_bytes(a.change), b2 + change_bytes(b.change));
    let (ac, bc) = (
        compact_bytes(a.children.len() as u32),
        compact_bytes(b.children.len() as u32),
    );
    lemma_begins_concat(s, a3, ac + nodes_bytes(a.children));
    lemma_begins_concat(s, b3, bc + nodes_bytes(b.children));
    lemma_begins_concat(s, a2, change_bytes(a.change));
    lemma_begins_concat(s, b2, change_bytes(b.change));
    lemma_begins_concat(s, a1, BlockNumber::bytes(a.number));
    lemma_begins_concat(s, b1, BlockNumber::bytes(b.number));
    BlockHash::unique(s, a.hash, b.hash);
    BlockNumber::unique(s.subrange(a1.len() as int, s.len() as int), a.number, b.number);
    lemma_change_unique(s.subrange(a2.len() as int, s.len() as int), a.change, b.change);
    let t = s.subrange(a3.len() as int, s.len() as int);
    lemma_begins_concat(t, ac, nodes_bytes(a.children));
    lemma_begins_concat(t, bc, nodes_bytes(b.children));
    lemma_compact_unique(t, a.children.len() as u32, b.children.len() as u32);
    lemma_nodes_unique(t.subrange(ac.len() as int, t.len() as int), a.children, b.children);
}

proof fn lemma_nodes_unique(s: Seq<u8>, a: Seq<PendingNode>, b: Seq<PendingNode>)
    requires
        nodes_fit(a),
        nodes_fit(b),
        a.len() == b.len(),
        begins(s, nodes_bytes(a)),
        begins(s, nodes_bytes(b)),
    ensures
        a == b,
    decreases a,
{
    if a.len() == 0 {
        assert(a =~= b);
    } else {
        let (at, bt) = (a.subrange(1, a.len() as int), b.subrange(1, b.len() as int));
        lemma_begins_concat(s, node_bytes(a[0]), nodes_bytes(at));
        lemma_begins_concat(s, node_bytes(b[0]), nodes_bytes(bt));
        lemma_node_unique(s, a[0], b[0]);
        lemma_nodes_unique(
            s.subrange(node_bytes(a[0]).len() as int, s.len() as int),
            at,
            bt,
        );
        assert forall|i: int| 0 <= i < a.len() implies a[i] == b[i] by {
            if i > 0 {
                assert(at[i - 1] == bt[i - 1]);
            }
        }
        assert(a =~= b);
    }
}

/// The pending standard changes of an authority set, in the tree of the blocks that announced
/// them.
#[derive(Debug)]
pub struct PendingTree {
    /// The tree.
    pub tree: ForkTree<BlockHash, BlockNumber, ChangeRow>,
}

/// What a tree of pending changes holds.
#[verifier::ext_equal]
pub struct PendingForest {
    /// The changes that are on top of no other.
    pub roots: Seq<PendingNode>,
    /// The highest block number that was finalized in the tree.
    pub best: Option<BlockNumber>,
}

impl View for PendingTree {
    type V = PendingForest;

    open spec fn view(&self) -> PendingForest {
        PendingForest { roots: tree_roots(self.tree), best: tree_best(self.tree) }
    }
}

impl PendingTree {
    /// A tree without changes.
    pub fn new() -> (r: Self)
        ensures
            r@ == (PendingForest { roots: Seq::empty(), best: None }),
    {
        PendingTree { tree: fork_tree_new() }
    }
}

impl Clone for PendingTree {
    fn clone(&self) -> (r: Self)
        ensures
            r@ == self@,
    {
        PendingTree { tree: fork_tree_clone(&self.tree) }
    }
}

/// The tree as `parity_scale_codec` encodes it.
impl Codec for PendingTree {
    type Value = PendingForest;

    open spec fn value(&self) -> PendingForest {
        self@
    }

    open spec fn fits(v: PendingForest) -> bool {
        forest_fits(v.roots)
    }

    open spec fn bytes(v: PendingForest) -> Seq<u8> {
        forest_bytes(v.roots, v.best)
    }

    open spec fn error(s: Seq<u8>) -> Seq<char> {
        fork_tree_error(s)
    }

    proof fn unique(s: Seq<u8>, a: PendingForest, b: PendingForest) {
        let (ac, bc) = (compact_bytes(a.roots.len() as u32), compact_bytes(b.roots.len() as u32));
        let (a1, b1) = (ac + nodes_bytes(a.roots), bc + nodes_bytes(b.roots));
        lemma_begins_concat(s, a1, Option::<BlockNumber>::bytes(a.best));
        lemma_begins_concat(s, b1, Option::<BlockNumber>::bytes(b.best));
        lemma_begins_concat(s, ac, nodes_bytes(a.roots));
        lemma_begins_concat(s, bc, nodes_bytes(b.roots));
        lemma_compact_unique(s, a.roots.len() as u32, b.roots.len() as u32);
        lemma_nodes_unique(s.subrange(ac.len() as int, s.len() as int), a.roots, b.roots);
        Option::<BlockNumber>::unique(
            s.subrange(a1.len() as int, s.len() as int),
            a.best,
            b.best,
        );
    }

    fn encode_to(&self, out: &mut Vec<u8>) {
        let mut b = fork_tree_encode(&self.tree);
        out.append(&mut b);
    }

    fn decode_at(input: &[u8], at: usize) -> (r: Result<(Self, usize), String>) {
        let front = vstd::slice::slice_subrange(input, at, input.len());
        match fork_tree_decode(front) {
            Ok((tree, rest)) => {
                let found = PendingTree { tree };
                assert(front@.len() == Self::bytes(found@).len() + rest@.len());
                let end: usize = input.len() - rest.len();
                proof {
                    let b = Self::bytes(found@);
                    assert(front@.subrange(0, b.len() as int) =~= b);
                    assert(input@.subrange(at as int, end as int) =~= front@.subrange(
                        0,
                        b.len() as int,
                    ));
                }
                Ok((found, end))
            },
            Err(e) => {
                proof {
                    assert forall|v: PendingForest| Self::fits(v) implies !begins(
                        input@.subrange(at as int, input@.len() as int),
                        #[trigger] Self::bytes(v),
                    ) by {
                        assert(Self::bytes(v) == forest_bytes(v.roots, v.best));
                    }
                }
                Err(e)
            },
        }
    }
}

impl Clone for PendingChange<BlockHash, BlockNumber> {
    fn clone(&self) -> (r: Self)
        ensures
            r@ == self@,
    {
        PendingChange {
            next_authorities: copy_ids(self.next_authorities.as_slice()),
            delay: self.delay,
            canon_height: self.canon_height,
            canon_hash: self.canon_hash,
            delay_kind: self.delay_kind,
        }
    }
}

/// The row that holds a change.
fn row_of(change: &PendingChange<BlockHash, BlockNumber>) -> (r: ChangeRow)
    ensures
        row_change(r) == change@,
        r.value() == change_row(change@),
{
    let median = match change.delay_kind {
        DelayKind::Finalized => None,
        DelayKind::Best { median_last_finalized } => Some(median_last_finalized),
    };
    let row: ChangeRow = (
        copy_ids(change.next_authorities.as_slice()),
        (change.delay, (change.canon_height, (change.canon_hash, median))),
    );
    assert(row.0.value() =~= row.0@);
    row
}

/// The median of the best chain's delay kind, as it is read.
type MedianCode = Field<DELAY_KIND_BEST_MEDIAN_LAST_FINALIZED, BlockNumber>;

proof fn lemma_kind_begins(s: Seq<u8>, v: DelayKind<BlockNumber>)
    ensures
        begins(s, DelayKind::bytes(v)) ==> s.len() > 0 && s[0] == (if v is Finalized {
            0u8
        } else {
            1u8
        }) && (v matches DelayKind::Best { median_last_finalized } ==> begins(
            s.subrange(1, s.len() as int),
            MedianCode::bytes(median_last_finalized),
        )),
{
    match v {
        DelayKind::Finalized => {
            if begins(s, DelayKind::bytes(v)) {
                assert(s.subrange(0, 1)[0] == s[0]);
            }
        },
        DelayKind::Best { median_last_finalized } => {
            lemma_tagged(s, 1u8, BlockNumber::bytes(median_last_finalized));
        },
    }
}

/// A byte that tells the kind, and the median of the best chain's.
impl Codec for DelayKind<BlockNumber> {
    type Value = DelayKind<BlockNumber>;

    open spec fn value(&self) -> DelayKind<BlockNumber> {
        *self
    }

    open spec fn fits(v: DelayKind<BlockNumber>) -> bool {
        true
    }

    open spec fn bytes(v: DelayKind<BlockNumber>) -> Seq<u8> {
        Option::<BlockNumber>::bytes(median_of(v))
    }

    open spec fn error(s: Seq<u8>) -> Seq<char> {
        if s.len() == 0 {
            no_variant("DelayKind"@)
        } else if s[0] == 1 {
            MedianCode::error(s.subrange(1, s.len() as int))
        } else {
            unknown("DelayKind"@)
        }
    }

    proof fn unique(s: Seq<u8>, a: DelayKind<BlockNumber>, b: DelayKind<BlockNumber>) {
        Option::<BlockNumber>::unique(s, median_of(a), median_of(b));
    }

    fn encode_to(&self, out: &mut Vec<u8>) {
        let ghost before = out@;
        match self {
            DelayKind::Finalized => {
                out.push(0);
            },
            DelayKind::Best { median_last_finalized } => {
                out.push(1);
                Codec::encode_to(median_last_finalized, out);
            },
        }
        assert(out@ =~= before + Self::bytes(*self));
    }

    fn decode_at(input: &[u8], at: usize) -> (r: Result<(Self, usize), String>) {
        let ghost rest = input@.subrange(at as int, input@.len() as int);
        let ghost tail = input@.subrange(at + 1, input@.len() as int);
        proof {
            assert forall|v: DelayKind<BlockNumber>|
                begins(rest, #[trigger] Self::bytes(v)) implies rest.len() > 0 && rest[0] == (
            if v is Finalized {
                0u8
            } else {
                1u8
            }) && (v matches DelayKind::Best { median_last_finalized } ==> begins(
                tail,
                MedianCode::bytes(median_last_finalized),
            )) by {
                lemma_kind_begins(rest, v);
                assert(rest.subrange(1, rest.len() as int) =~= tail);
            }
        }
        if at >= input.len() {
            return Err(no_variant_byte("DelayKind"));
        }
        let tag: u8 = input[at];
        assert(rest.subrange(1, rest.len() as int) =~= tail);
        assert(input@.subrange(at as int, at + 1) =~= seq![tag]);
        if tag == 0 {
            Ok((DelayKind::Finalized, at + 1))
        } else if tag == 1 {
            match MedianCode::decode_at(input, at + 1) {
                Ok((median, end)) => {
                    assert(input@.subrange(at as int, end as int) =~= seq![tag] + input@.subrange(
                        at + 1,
                        end as int,
                    ));
                    Ok((DelayKind::Best { median_last_finalized: median.value }, end))
                },
                Err(e) => Err(e),
            }
        } else {
            Err(unknown_variant("DelayKind"))
        }
    }
}

/// The fields of a pending change, in order.
type ChangeCode = (
    Field<PENDING_CHANGE_NEXT_AUTHORITIES, Ids>,
    (
        Field<PENDING_CHANGE_DELAY, BlockNumber>,
        (
            Field<PENDING_CHANGE_CANON_HEIGHT, BlockNumber>,
            (
                Field<PENDING_CHANGE_CANON_HASH, BlockHash>,
                Field<PENDING_CHANGE_DELAY_KIND, DelayKind<BlockNumber>>,
            ),
        ),
    ),
);

/// What the fields of a change stand for.
pub open spec fn change_code(change: PendingChangeView<BlockHash, BlockNumber>) -> (
    Seq<AuthorityId>,
    (BlockNumber, (BlockNumber, (BlockHash, DelayKind<BlockNumber>))),
) {
    (
        change.next_authorities,
        (change.delay, (change.canon_height, (change.canon_hash, change.delay_kind))),
    )
}

/// The fields in order.
impl Codec for PendingChange<BlockHash, BlockNumber> {
    type Value = PendingChangeView<BlockHash, BlockNumber>;

    open spec fn value(&self) -> PendingChangeView<BlockHash, BlockNumber> {
        self@
    }

    open spec fn fits(v: PendingChangeView<BlockHash, BlockNumber>) -> bool {
        ChangeRow::fits(change_row(v))
    }

    open spec fn bytes(v: PendingChangeView<BlockHash, BlockNumber>) -> Seq<u8> {
        change_bytes(v)
    }

    open spec fn error(s: Seq<u8>) -> Seq<char> {
        ChangeCode::error(s)
    }

    proof fn unique(
        s: Seq<u8>,
        a: PendingChangeView<BlockHash, BlockNumber>,
        b: PendingChangeView<BlockHash, BlockNumber>,
    ) {
        lemma_change_unique(s, a, b);
    }

    fn encode_to(&self, out: &mut Vec<u8>) {
        Codec::encode_to(&row_of(self), out);
    }

    fn decode_at(input: &[u8], at: usize) -> (r: Result<(Self, usize), String>) {
        proof {
            assert forall|v: PendingChangeView<BlockHash, BlockNumber>| #[trigger]
                Self::bytes(v) == ChangeCode::bytes(change_code(v)) && Self::fits(v)
                    == ChangeCode::fits(change_code(v)) by {
                assert(Option::<BlockNumber>::bytes(change_row(v).1.1.1.1) == DelayKind::bytes(
                    v.delay_kind,
                ));
            }
        }
        match ChangeCode::decode_at(input, at) {
            Ok((code, end)) => {
                let (authorities, (delay, (canon_height, (canon_hash, delay_kind)))) = code;
                let change = PendingChange {
                    next_authorities: authorities.value.ids,
                    delay: delay.value,
                    canon_height: canon_height.value,
                    canon_hash: canon_hash.value,
                    delay_kind: delay_kind.value,
                };
                assert(Self::bytes(change@) == ChangeCode::bytes(change_code(change@)));
                Ok((change, end))
            },
            Err(e) => {
                proof {
                    assert forall|v: PendingChangeView<BlockHash, BlockNumber>|
                        Self::fits(v) implies !begins(
                        input@.subrange(at as int, input@.len() as int),
                        #[trigger] Self::bytes(v),
                    ) by {
                        assert(Self::bytes(v) == ChangeCode::bytes(change_code(v)));
                    }
                }
                Err(e)
            },
        }
    }
}

/// The changes by the hash of the block that announced them; of two for one block the later.
pub open spec fn by_block(changes: Seq<PendingChangeView<BlockHash, BlockNumber>>) -> Map<
    BlockHash,
    PendingChangeView<BlockHash, BlockNumber>,
>
    decreases changes.len(),
{
    if changes.len() == 0 {
        Map::empty()
    } else {
        by_block(changes.drop_last()).insert(changes.last().canon_hash, changes.last())
    }
}

/// Changes indexed by the block that announced them.
#[derive(Debug)]
pub struct ChangesByBlock {
    changes: Vec<PendingChange<BlockHash, BlockNumber>>,
}

impl View for ChangesByBlock {
    type V = Map<BlockHash, PendingChangeView<BlockHash, BlockNumber>>;

    closed spec fn view(&self) -> Map<BlockHash, PendingChangeView<BlockHash, BlockNumber>> {
        by_block(views_of(self.changes@))
    }
}

/// What each change says.
pub open spec fn views_of(changes: Seq<PendingChange<BlockHash, BlockNumber>>) -> Seq<
    PendingChangeView<BlockHash, BlockNumber>,
> {
    changes.map_values(|c: PendingChange<BlockHash, BlockNumber>| c@)
}

impl ChangesByBlock {
    /// Indexes the changes; of two for one block the later counts.
    pub fn new(changes: Vec<PendingChange<BlockHash, BlockNumber>>) -> (r: Self)
        ensures
            r@ == by_block(views_of(changes@)),
    {
        ChangesByBlock { changes }
    }

    /// The change that the block announced, if any.
    pub fn get(&self, hash: &BlockHash) -> (r: Option<&PendingChange<BlockHash, BlockNumber>>)
        ensures
            r is Some <==> self@.contains_key(*hash),
            r matches Some(change) ==> change@ == self@[*hash],
    {
        let ghost all = views_of(self.changes@);
        let mut n: usize = self.changes.len();
        assert(all.subrange(0, n as int) =~= all);
        while n > 0
            invariant
                n <= self.changes@.len(),
                all == views_of(self.changes@),
                self@.contains_key(*hash) <==> by_block(all.subrange(0, n as int)).contains_key(
                    *hash,
                ),
                self@.contains_key(*hash) ==> self@[*hash] == by_block(
                    all.subrange(0, n as int),
                )[*hash],
            decreases n,
        {
            proof {
                let front = all.subrange(0, n as int);
                assert(front.drop_last() =~= all.subrange(0, n - 1));
                assert(front.last() == self.changes@[n - 1]@);
            }
            n = n - 1;
            if same_bytes(&self.changes[n].canon_hash, hash) {
                return Some(&self.changes[n]);
            }
        }
        None
    }

    /// The row to keep at a block: that of the change indexed for the block, or else `original`.
    fn row_at(&self, hash: &BlockHash, original: ChangeRow) -> (r: ChangeRow)
        ensures
            row_change(r) == change_at(self@, *hash, row_change(original)),
    {
        match self.get(hash) {
            Some(change) => row_of(change),
            None => original,
        }
    }
}

/// The change indexed for the block, or else `original`.
pub open spec fn change_at(
    index: Map<BlockHash, PendingChangeView<BlockHash, BlockNumber>>,
    hash: BlockHash,
    original: PendingChangeView<BlockHash, BlockNumber>,
) -> PendingChangeView<BlockHash, BlockNumber> {
    if index.contains_key(hash) {
        index[hash]
    } else {
        original
    }
}

/// The node with each change replaced by the one indexed for its block, if there is one.
pub open spec fn replace_node(
    node: PendingNode,
    index: Map<BlockHash, PendingChangeView<BlockHash, BlockNumber>>,
) -> PendingNode
    decreases node,
{
    PendingNode {
        hash: node.hash,
        number: node.number,
        change: change_at(index, node.hash, node.change),
        children: replace_nodes(node.children, index),
    }
}

/// The nodes with each change replaced by the one indexed for its block, if there is one.
pub open spec fn replace_nodes(
    nodes: Seq<PendingNode>,
    index: Map<BlockHash, PendingChangeView<BlockHash, BlockNumber>>,
) -> Seq<PendingNode>
    decreases nodes,
{
    if nodes.len() == 0 {
        Seq::empty()
    } else {
        seq![replace_node(nodes[0], index)] + replace_nodes(
            nodes.subrange(1, nodes.len() as int),
            index,
        )
    }
}

/// `ForkTree::map` of `fork_tree`, with the row that `index` has for a node's hash as the new
/// value: every node stays where it is, with its hash and number, and gets its new value.
#[verifier::external_body]
fn fork_tree_map(
    tree: ForkTree<BlockHash, BlockNumber, ChangeRow>,
    index: &ChangesByBlock,
) -> (r: ForkTree<BlockHash, BlockNumber, ChangeRow>)
    ensures
        tree_roots(r) == replace_nodes(tree_roots(tree), index@),
        tree_best(r) == tree_best(tree),
{
    tree.map(&mut |hash, _, original| index.row_at(hash, original))
}

impl PendingTree {
    /// Replaces every pending change that was announced by a block for which `index` has a
    /// change by that change.
    pub fn replace(&mut self, index: &ChangesByBlock)
        ensures
            final(self)@ == (PendingForest {
                roots: replace_nodes(old(self)@.roots, index@),
                best: old(self)@.best,
            }),
    {
        self.tree = fork_tree_map(fork_tree_clone(&self.tree), index);
    }
}

proof fn lemma_replace_nodes_twice(
    nodes: Seq<PendingNode>,
    index: Map<BlockHash, PendingChangeView<BlockHash, BlockNumber>>,
)
    ensures
        replace_nodes(replace_nodes(nodes, index), index) == replace_nodes(nodes, index),
        replace_nodes(nodes, index).len() == nodes.len(),
    decreases nodes,
{
    if nodes.len() > 0 {
        let tail = nodes.subrange(1, nodes.len() as int);
        let once = replace_nodes(nodes, index);
        lemma_replace_node_twice(nodes[0], index);
        lemma_replace_nodes_twice(tail, index);
        assert(once[0] == replace_node(nodes[0], index));
        assert(once.subrange(1, once.len() as int) =~= replace_nodes(tail, index));
    }
}

proof fn lemma_replace_node_twice(
    node: PendingNode,
    index: Map<BlockHash, PendingChangeView<BlockHash, BlockNumber>>,
)
    ensures
        replace_node(replace_node(node, index), index) == replace_node(node, index),
    decreases node,
{
    lemma_replace_nodes_twice(node.children, index);
}

/// Replacing pending changes a second time by the same index changes nothing, and the number
/// of branches stays the same.
pub proof fn law_replace_is_idempotent(
    roots: Seq<PendingNode>,
    index: Map<BlockHash, PendingChangeView<BlockHash, BlockNumber>>,
)
    ensures
        replace_nodes(replace_nodes(roots, index), index) == replace_nodes(roots, index),
        replace_nodes(roots, index).len() == roots.len(),
{
    lemma_replace_nodes_twice(roots, index);
}

/// The node at the end of a path: the first step picks a root, each further one a node on top.
pub open spec fn node_at(nodes: Seq<PendingNode>, path: Seq<int>) -> Option<PendingNode>
    decreases path.len(),
{
    if path.len() == 0 || !(0 <= path[0] < nodes.len()) {
        None
    } else if path.len() == 1 {
        Some(nodes[path[0]])
    } else {
        node_at(nodes[path[0]].children, path.drop_first())
    }
}

proof fn lemma_replaced_at(
    nodes: Seq<PendingNode>,
    index: Map<BlockHash, PendingChangeView<BlockHash, BlockNumber>>,
    i: int,
)
    ensures
        replace_nodes(nodes, index).len() == nodes.len(),
        0 <= i < nodes.len() ==> replace_nodes(nodes, index)[i] == replace_node(nodes[i], index),
    decreases nodes.len(),
{
    if nodes.len() > 0 {
        let tail = nodes.subrange(1, nodes.len() as int);
        lemma_replaced_at(tail, index, i - 1);
        if 0 < i < nodes.len() {
            assert(replace_nodes(nodes, index)[i] == replace_nodes(tail, index)[i - 1]);
        }
    }
}

/// Replacing pending changes leaves every node in its place, with its hash, its number and as many
/// nodes on top, wherever in the tree it is. Its change becomes the one indexed for its hash, and
/// stays where none is.
pub proof fn law_replace_keeps_the_tree(
    roots: Seq<PendingNode>,
    index: Map<BlockHash, PendingChangeView<BlockHash, BlockNumber>>,
    path: Seq<int>,
)
    ensures
        match node_at(roots, path) {
            None => node_at(replace_nodes(roots, index), path) is None,
            Some(node) => node_at(replace_nodes(roots, index), path) matches Some(replaced) && {
                &&& replaced.hash == node.hash
                &&& replaced.number == node.number
                &&& replaced.children.len() == node.children.len()
                &&& index.contains_key(node.hash) ==> replaced.change == index[node.hash]
                &&& !index.contains_key(node.hash) ==> replaced.change == node.change
            },
        },
    decreases path.len(),
{
    lemma_replaced_at(roots, index, 0);
    if path.len() > 0 {
        lemma_replaced_at(roots, index, path[0]);
        if 0 <= path[0] < roots.len() {
            let node = roots[path[0]];
            lemma_replaced_at(node.children, index, 0);
            if path.len() > 1 {
                law_replace_keeps_the_tree(node.children, index, path.drop_first());
            }
        }
    }
}

/// The index has a change for a block if and only if one of the changes was announced there, and
/// then the last one of those.
pub proof fn law_last_change_of_a_block_counts(
    changes: Vec<PendingChange<BlockHash, BlockNumber>>,
    index: ChangesByBlock,
    hash: BlockHash,
    r: Option<&PendingChange<BlockHash, BlockNumber>>,
    i: int,
)
    requires
        call_ensures(ChangesByBlock::new, (changes,), index),
        call_ensures(ChangesByBlock::get, (&index, &hash), r),
    ensures
        r is Some <==> exists|k: int|
            0 <= k < changes@.len() && (#[trigger] changes@[k]).canon_hash == hash,
        0 <= i < changes@.len() && changes@[i].canon_hash == hash && (forall|j: int|
            i < j < changes@.len() ==> (#[trigger] changes@[j]).canon_hash != hash) ==> (
        r matches Some(change) && change@ == changes@[i]@),
{
    let all = views_of(changes@);
    law_by_block(all, hash, i);
    if exists|k: int| 0 <= k < changes@.len() && (#[trigger] changes@[k]).canon_hash == hash {
        let k = choose|k: int|
            0 <= k < changes@.len() && (#[trigger] changes@[k]).canon_hash == hash;
        assert(all[k].canon_hash == hash);
    }
    if by_block(all).contains_key(hash) {
        let k = choose|k: int| 0 <= k < all.len() && (#[trigger] all[k]).canon_hash == hash;
        assert(changes@[k].canon_hash == hash);
    }
    if 0 <= i < changes@.len() && changes@[i].canon_hash == hash && (forall|j: int|
        i < j < changes@.len() ==> (#[trigger] changes@[j]).canon_hash != hash) {
        assert forall|j: int| i < j < all.len() implies (#[trigger] all[j]).canon_hash != hash by {
            assert(changes@[j].canon_hash != hash);
        }
        assert(all[i] == changes@[i]@);
    }
}

/// Of the changes for one block, the last counts.
pub proof fn law_by_block(
    changes: Seq<PendingChangeView<BlockHash, BlockNumber>>,
    hash: BlockHash,
    i: int,
)
    ensures
        by_block(changes).contains_key(hash) <==> exists|k: int|
            0 <= k < changes.len() && (#[trigger] changes[k]).canon_hash == hash,
        0 <= i < changes.len() && changes[i].canon_hash == hash && (forall|j: int|
            i < j < changes.len() ==> (#[trigger] changes[j]).canon_hash != hash) ==> by_block(
            changes,
        )[hash] == changes[i],
    decreases changes.len(),
{
    if changes.len() > 0 {
        let front = changes.drop_last();
        law_by_block(front, hash, i);
        assert(changes.last() == changes[changes.len() - 1]);
        if exists|k: int| 0 <= k < changes.len() && (#[trigger] changes[k]).canon_hash == hash {
            let k = choose|k: int|
                0 <= k < changes.len() && (#[trigger] changes[k]).canon_hash == hash;
            if k < front.len() {
                assert(front[k].canon_hash == hash);
            }
        }
        if by_block(front).contains_key(hash) {
            let k = choose|k: int| 0 <= k < front.len() && (#[trigger] front[k]).canon_hash == hash;
            assert(changes[k].canon_hash == hash);
        }
        if 0 <= i < changes.len() && changes[i].canon_hash == hash && (forall|j: int|
            i < j < changes.len() ==> (#[trigger] changes[j]).canon_hash != hash) {
            if i < front.len() {
                assert(changes[changes.len() - 1].canon_hash != hash);
                assert(front[i] == changes[i]);
                assert forall|j: int| i < j < front.len() implies (#[trigger] front[j]).canon_hash
                    != hash by {
                    assert(front[j] == changes[j]);
                }
            }
        }
    }
}

/// The encoding of a pending change: the authorities, the delay, the height and the hash of the
/// block, and the kind of delay, of which that in the best chain has the median behind it.
pub proof fn law_change_encoding(c: PendingChangeView<BlockHash, BlockNumber>, median: BlockNumber)
    ensures
        PendingChange::<BlockHash, BlockNumber>::bytes(c) == Vec::<AuthorityId>::bytes(
            c.next_authorities,
        ) + le_bytes(c.delay as nat, 8) + le_bytes(c.canon_height as nat, 8) + c.canon_hash@
            + DelayKind::<BlockNumber>::bytes(c.delay_kind),
        DelayKind::<BlockNumber>::bytes(DelayKind::Finalized) == seq![0u8],
        DelayKind::<BlockNumber>::bytes(DelayKind::Best { median_last_finalized: median }) == seq![
            1u8,
        ] + le_bytes(median as nat, 8),
        PendingChange::<BlockHash, BlockNumber>::fits(c) <==> c.next_authorities.len() <= u32::MAX,
{
    assert(PendingChange::<BlockHash, BlockNumber>::bytes(c) =~= Vec::<AuthorityId>::bytes(
        c.next_authorities,
    ) + le_bytes(c.delay as nat, 8) + le_bytes(c.canon_height as nat, 8) + c.canon_hash@
        + DelayKind::<BlockNumber>::bytes(c.delay_kind));
}

/// A new tree has no changes. Replacing the changes of a tree leaves every node in its place, and
/// gives it the change that is indexed for its hash, or leaves it its own where none is.
pub proof fn law_tree_of_changes(
    made: PendingTree,
    tree: &mut PendingTree,
    index: ChangesByBlock,
    path: Seq<int>,
)
    requires
        call_ensures(PendingTree::new, (), made),
        call_ensures(PendingTree::replace, (tree, &index), ()),
    ensures
        made@.roots.len() == 0 && made@.best is None,
        final(tree)@.best == old(tree)@.best,
        match node_at(old(tree)@.roots, path) {
            None => node_at(final(tree)@.roots, path) is None,
            Some(node) => {
                &&& node_at(final(tree)@.roots, path) matches Some(now)
                &&& now.hash == node.hash
                &&& now.number == node.number
                &&& now.children.len() == node.children.len()
                &&& index@.contains_key(node.hash) ==> now.change == index@[node.hash]
                &&& !index@.contains_key(node.hash) ==> now.change == node.change
            },
        },
{
    law_replace_keeps_the_tree(old(tree)@.roots, index@, path);
}

/// What is said of bytes that hold no pending change: which of its fields cannot be read, the
/// first one at fault, and what is said of that field.
pub proof fn law_pending_change_errors(s: Seq<u8>)
    ensures
        PendingChange::<BlockHash, BlockNumber>::error(s)
            == <(
                Field<PENDING_CHANGE_NEXT_AUTHORITIES, Ids>,
                (
                    Field<PENDING_CHANGE_DELAY, BlockNumber>,
                    (
                        Field<PENDING_CHANGE_CANON_HEIGHT, BlockNumber>,
                        (
                            Field<PENDING_CHANGE_CANON_HASH, BlockHash>,
                            Field<
                                PENDING_CHANGE_DELAY_KIND,
                                DelayKind<BlockNumber>,
                            >,
                        ),
                    ),
                ),
            )>::error(s),
{
}

/// What is said of bytes that hold no kind of delay: that the first byte is missing or stands for
/// nothing, or which field behind it cannot be read, and what is said of that field.
pub proof fn law_delay_kind_errors(s: Seq<u8>)
    ensures
        DelayKind::<BlockNumber>::error(Seq::empty()) == chained(
            "Could not decode `"@ + "DelayKind"@ + "`, failed to read variant byte"@,
            TOO_SHORT@,
        ),
        s.len() > 0 && s[0] != 0 && s[0] != 1 ==> DelayKind::<BlockNumber>::error(s)
            == "Could not decode `"@ + "DelayKind"@ + "`, variant doesn't exist"@,
        s.len() > 0 && s[0] == 1 ==> DelayKind::<BlockNumber>::error(s)
            == Field::<DELAY_KIND_BEST_MEDIAN_LAST_FINALIZED, BlockNumber>::error(
                s.subrange(1, s.len() as int),
            ),
{
}

} // verus!
