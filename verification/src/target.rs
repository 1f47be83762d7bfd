//! The block to vote on next.
use crate::error::ClientError;
use crate::messages::{same_bytes, BlockHash, BlockNumber};
use vstd::prelude::*;

verus! {

/// What is read of a block's header.
#[derive(Clone, Copy, Debug, PartialEq, Eq)]
pub struct Header {
    /// The hash of the block.
    pub hash: BlockHash,
    /// The number of the block.
    pub number: BlockNumber,
    /// The hash of the block's parent.
    pub parent_hash: BlockHash,
}

/// The block to vote on next.
#[derive(Clone, Copy, Debug, PartialEq, Eq)]
pub enum NextTarget {
    /// There is no block to vote on.
    Nothing,
    /// The block with this number and hash.
    Block(BlockNumber, BlockHash),
    /// The headers do not lead back to the base: one is unknown, or their numbers do not fall
    /// by steps to that of the base.
    Broken,
}

/// The answer for the parent of the child.
pub open spec fn answers<H: Fn(BlockHash) -> Result<Option<Header>, ClientError>>(
    header: H,
    child: Header,
    answer: Result<Option<Header>, ClientError>,
) -> bool {
    call_ensures(header, (child.parent_hash,), answer)
}

/// Each block of the path is the parent of the one before, by the headers that were answered.
pub open spec fn leads_back<H: Fn(BlockHash) -> Result<Option<Header>, ClientError>>(
    header: H,
    path: Seq<Header>,
) -> bool {
    forall|i: int|
        1 <= i < path.len() ==> answers(header, path[i - 1], Ok(Some(#[trigger] path[i])))
}

/// Behind its first block, the path stays above the base, with ever smaller numbers.
pub open spec fn falls_above(base: BlockNumber, path: Seq<Header>) -> bool {
    forall|i: int|
        1 <= i < path.len() ==> base < (#[trigger] path[i]).number && path[i].number < path[i
            - 1].number
}

/// `r` comes of a walk back from the first block of the path to the last. The walk ends with the
/// first block whose parent has the number of the base. It fails where a parent is unknown, or
/// is below the base, or does not have a smaller number than its child.
pub open spec fn walks_back<H: Fn(BlockHash) -> Result<Option<Header>, ClientError>>(
    base: BlockNumber,
    header: H,
    path: Seq<Header>,
    r: Result<NextTarget, ClientError>,
) -> bool {
    &&& leads_back(header, path)
    &&& falls_above(base, path)
    &&& match r {
        Ok(NextTarget::Block(number, hash)) => {
            &&& number == path.last().number
            &&& hash == path.last().hash
            &&& exists|parent: Header|
                parent.number == base && #[trigger] answers(header, path.last(), Ok(Some(parent)))
        },
        Ok(NextTarget::Broken) => {
            ||| answers(header, path.last(), Ok(None))
            ||| exists|parent: Header|
                {
                    &&& #[trigger] answers(header, path.last(), Ok(Some(parent)))
                    &&& parent.number < base || (base < parent.number && path.last().number
                        <= parent.number)
                }
        },
        Ok(NextTarget::Nothing) => false,
        Err(e) => answers(header, path.last(), Err(e)),
    }
}

/// `r` is found by walking back from the best block.
pub open spec fn found_from<H: Fn(BlockHash) -> Result<Option<Header>, ClientError>>(
    base: BlockNumber,
    header: H,
    best: Header,
    r: Result<NextTarget, ClientError>,
) -> bool {
    exists|path: Seq<Header>|
        path.len() > 0 && path[0] == best && #[trigger] walks_back(base, header, path, r)
}

fn walk_back<H: Fn(BlockHash) -> Result<Option<Header>, ClientError>>(
    base: BlockNumber,
    header: &H,
    best: Header,
) -> (r: Result<NextTarget, ClientError>)
    requires
        forall|hash: BlockHash| #[trigger] call_requires(*header, (hash,)),
    ensures
        found_from(base, *header, best, r),
{
    let mut target = best;
    let ghost mut path = seq![best];
    loop
        invariant
            forall|hash: BlockHash| #[trigger] call_requires(*header, (hash,)),
            path.len() > 0,
            path[0] == best,
            path.last() == target,
            leads_back(*header, path),
            falls_above(base, path),
        decreases target.number,
    {
        let answer = header(target.parent_hash);
        assert(answers(*header, path.last(), answer));
        match answer {
            Err(e) => {
                let r = Err(e);
                assert(walks_back(base, *header, path, r));
                return r;
            },
            Ok(None) => {
                let r = Ok(NextTarget::Broken);
                assert(walks_back(base, *header, path, r));
                return r;
            },
            Ok(Some(parent)) => {
                assert(answers(*header, path.last(), Ok(Some(parent))));
                if parent.number == base {
                    let r = Ok(NextTarget::Block(target.number, target.hash));
                    assert(walks_back(base, *header, path, r));
                    return r;
                }
                if parent.number < base || target.number <= parent.number {
                    let r = Ok(NextTarget::Broken);
                    assert(walks_back(base, *header, path, r));
                    return r;
                }
                proof {
                    let longer = path.push(parent);
                    assert forall|i: int| 1 <= i < longer.len() implies answers(
                        *header,
                        longer[i - 1],
                        Ok(Some(#[trigger] longer[i])),
                    ) by {
                        if i < path.len() {
                            assert(longer[i] == path[i] && longer[i - 1] == path[i - 1]);
                        }
                    }
                    assert forall|i: int| 1 <= i < longer.len() implies base < (
                    #[trigger] longer[i]).number && longer[i].number < longer[i - 1].number by {
                        if i < path.len() {
                            assert(longer[i] == path[i] && longer[i - 1] == path[i - 1]);
                        }
                    }
                    path = longer;
                }
                target = parent;
            },
        }
    }
}

/// The block to vote on next.
pub open spec fn is_next_target<H: Fn(BlockHash) -> Result<Option<Header>, ClientError>>(
    base: Option<Header>,
    best: Result<BlockHash, String>,
    header: H,
    r: Result<NextTarget, ClientError>,
) -> bool {
    match (base, best) {
        (Some(base), Ok(best)) => exists|answer: Result<Option<Header>, ClientError>| #[trigger]
            call_ensures(header, (best,), answer) && (match answer {
                Err(e) => r == Err::<NextTarget, ClientError>(e),
                Ok(None) => r == Ok::<NextTarget, ClientError>(NextTarget::Broken),
                Ok(Some(best)) => if best == base {
                    r == Ok::<NextTarget, ClientError>(NextTarget::Block(base.number, base.hash))
                } else {
                    found_from(base.number, header, best, r)
                },
            }),
        _ => r == Ok::<NextTarget, ClientError>(NextTarget::Nothing),
    }
}

/// The block to vote on next, given the header of the last block voted on, if it is known, the
/// hash of the best block to finalize above it, if one was found, and the headers by their
/// hash. If the best block is the base itself, it is that. Otherwise the walk goes backwards from
/// the best block until it finds the block just above the base.
pub fn next_target<H: Fn(BlockHash) -> Result<Option<Header>, ClientError>>(
    base: Option<Header>,
    best: Result<BlockHash, String>,
    header: H,
) -> (r: Result<NextTarget, ClientError>)
    requires
        forall|hash: BlockHash| #[trigger] call_requires(header, (hash,)),
    ensures
        is_next_target(base, best, header, r),
{
    let (base, best) = match (base, best) {
        (Some(base), Ok(best)) => (base, best),
        _ => return Ok(NextTarget::Nothing),
    };
    match header(best) {
        Err(e) => Err(e),
        Ok(None) => Ok(NextTarget::Broken),
        Ok(Some(best)) => {
            if same_bytes(&best.hash, &base.hash) && best.number == base.number && same_bytes(
                &best.parent_hash,
                &base.parent_hash,
            ) {
                Ok(NextTarget::Block(best.number, best.hash))
            } else {
                walk_back(base.number, &header, best)
            }
        },
    }
}

/// Where the number of a parent is always one less than that of its child, the block found by
/// walking back is the one just above the base.
pub proof fn law_target_is_above_the_base<
    H: Fn(BlockHash) -> Result<Option<Header>, ClientError>,
>(base: BlockNumber, header: H, best: Header, number: BlockNumber, hash: BlockHash)
    requires
        found_from(base, header, best, Ok(NextTarget::Block(number, hash))),
        forall|child: Header, parent: Header| #[trigger]
            answers(header, child, Ok(Some(parent))) ==> child.number == parent.number + 1,
    ensures
        number == base + 1,
{
}

/// The block found by walking back is never above the best block.
pub proof fn law_target_is_not_above_the_best<
    H: Fn(BlockHash) -> Result<Option<Header>, ClientError>,
>(base: BlockNumber, header: H, best: Header, number: BlockNumber, hash: BlockHash)
    requires
        found_from(base, header, best, Ok(NextTarget::Block(number, hash))),
    ensures
        number <= best.number,
{
    let r = Ok(NextTarget::Block(number, hash));
    let path = choose|path: Seq<Header>|
        path.len() > 0 && path[0] == best && #[trigger] walks_back(base, header, path, r);
    lemma_falls(base, path, path.len() - 1);
}

proof fn lemma_falls(base: BlockNumber, path: Seq<Header>, i: int)
    requires
        falls_above(base, path),
        0 <= i < path.len(),
    ensures
        path[i].number <= path[0].number,
    decreases i,
{
    if i > 0 {
        lemma_falls(base, path, i - 1);
    }
}

/// There is nothing to vote on if and only if the base is unknown or no best block was found. A
/// best block that is the base is the target itself. Where its header cannot be read, that error
/// is given, and where it is unknown the headers are broken.
pub proof fn law_target_of_the_best<H: Fn(BlockHash) -> Result<Option<Header>, ClientError>>(
    base: Option<Header>,
    best: Result<BlockHash, String>,
    header: H,
    answer: Result<Option<Header>, ClientError>,
    r: Result<NextTarget, ClientError>,
)
    requires
        call_ensures(next_target::<H>, (base, best, header), r),
        best matches Ok(hash) ==> forall|found: Result<Option<Header>, ClientError>| #[trigger]
            call_ensures(header, (hash,), found) ==> found == answer,
    ensures
        r == Ok::<NextTarget, ClientError>(NextTarget::Nothing) <==> base is None || best is Err,
        base is Some && best is Ok ==> {
            &&& answer matches Err(e) ==> r == Err::<NextTarget, ClientError>(e)
            &&& answer matches Ok(None) ==> r == Ok::<NextTarget, ClientError>(NextTarget::Broken)
            &&& answer == Ok::<Option<Header>, ClientError>(base) ==> r == Ok::<
                NextTarget,
                ClientError,
            >(NextTarget::Block((base->0).number, (base->0).hash))
        },
{
    if let (Some(base), Ok(hash)) = (base, best) {
        if let Ok(Some(found)) = answer {
            if found != base {
                assert(found_from(base.number, header, found, r));
            }
        }
    }
}

/// Where the headers lead back from the best block to the base, block by block, the target is the
/// block of that path that is just above the base.
pub proof fn law_target_is_on_the_path<H: Fn(BlockHash) -> Result<Option<Header>, ClientError>>(
    base: Header,
    best: BlockHash,
    header: H,
    path: Seq<Header>,
    r: Result<NextTarget, ClientError>,
)
    requires
        call_ensures(next_target::<H>, (Some(base), Ok(best), header), r),
        path.len() >= 2,
        path.last() == base,
        path[0] != base,
        forall|found: Result<Option<Header>, ClientError>| #[trigger]
            call_ensures(header, (best,), found) ==> found == Ok::<Option<Header>, ClientError>(
                Some(path[0]),
            ),
        forall|i: int, found: Result<Option<Header>, ClientError>|
            0 <= i < path.len() - 1 && #[trigger] call_ensures(
                header,
                (path[i].parent_hash,),
                found,
            ) ==> found == Ok::<Option<Header>, ClientError>(Some(path[i + 1])),
        forall|i: int|
            0 <= i < path.len() - 1 ==> (#[trigger] path[i]).number == path[i + 1].number + 1,
    ensures
        r == Ok::<NextTarget, ClientError>(
            NextTarget::Block(path[path.len() - 2].number, path[path.len() - 2].hash),
        ),
        path[path.len() - 2].number == base.number + 1,
{
    assert(found_from(base.number, header, path[0], r));
    let walk = choose|walk: Seq<Header>|
        walk.len() > 0 && walk[0] == path[0] && #[trigger] walks_back(
            base.number,
            header,
            walk,
            r,
        );
    let n = walk.len() - 1;
    lemma_walk_on_path(base.number, header, path, walk, n);
    lemma_numbers(path, path.len() - 1);
    assert(walk.last() == path[n]);
    assert(path[n].number == base.number + (path.len() - 1 - n)) by {
        lemma_numbers_from(path, n);
    }
    assert(path[n + 1].number == base.number + (path.len() - 2 - n)) by {
        lemma_numbers_from(path, n + 1);
    }
}

proof fn lemma_numbers(path: Seq<Header>, i: int)
    requires
        0 <= i < path.len(),
        forall|k: int|
            0 <= k < path.len() - 1 ==> (#[trigger] path[k]).number == path[k + 1].number + 1,
    ensures
        path[i].number + i == path[0].number,
    decreases i,
{
    if i > 0 {
        lemma_numbers(path, i - 1);
        assert(path[i - 1].number == path[i - 1 + 1].number + 1);
    }
}

proof fn lemma_numbers_from(path: Seq<Header>, i: int)
    requires
        0 <= i < path.len(),
        forall|k: int|
            0 <= k < path.len() - 1 ==> (#[trigger] path[k]).number == path[k + 1].number + 1,
    ensures
        path[i].number == path.last().number + (path.len() - 1 - i),
{
    lemma_numbers(path, i);
    lemma_numbers(path, path.len() - 1);
}

proof fn lemma_walk_on_path<H: Fn(BlockHash) -> Result<Option<Header>, ClientError>>(
    base: BlockNumber,
    header: H,
    path: Seq<Header>,
    walk: Seq<Header>,
    i: int,
)
    requires
        0 <= i < walk.len(),
        leads_back(header, walk),
        falls_above(base, walk),
        path.len() >= 2,
        walk[0] == path[0],
        path.last().number == base,
        forall|k: int, found: Result<Option<Header>, ClientError>|
            0 <= k < path.len() - 1 && #[trigger] call_ensures(
                header,
                (path[k].parent_hash,),
                found,
            ) ==> found == Ok::<Option<Header>, ClientError>(Some(path[k + 1])),
    ensures
        i < path.len() - 1,
        walk[i] == path[i],
    decreases i,
{
    if i > 0 {
        lemma_walk_on_path(base, header, path, walk, i - 1);
        assert(answers(header, walk[i - 1], Ok(Some(walk[i]))));
        assert(call_ensures(header, (path[i - 1].parent_hash,), Ok(Some(walk[i]))));
        assert(walk[i] == path[i - 1 + 1]);
        assert(walk[i].number > base);
    }
}

/// The way back from the best block, as far as the headers are known: above the base, with ever
/// smaller numbers. What is found is decided by the next header: if it is at the height of the
/// base, the last block of the way is the target. If it cannot be read, that error is given. If
/// it is unknown, or below the base, or not below the last block of the way, the headers are
/// broken.
pub proof fn law_target_by_the_headers<H: Fn(BlockHash) -> Result<Option<Header>, ClientError>>(
    base: Header,
    best: BlockHash,
    header: H,
    way: Seq<Header>,
    next: Result<Option<Header>, ClientError>,
    r: Result<NextTarget, ClientError>,
)
    requires
        call_ensures(next_target::<H>, (Some(base), Ok(best), header), r),
        way.len() > 0,
        way[0] != base,
        forall|found: Result<Option<Header>, ClientError>| #[trigger]
            call_ensures(header, (best,), found) ==> found == Ok::<Option<Header>, ClientError>(
                Some(way[0]),
            ),
        forall|i: int, found: Result<Option<Header>, ClientError>|
            0 <= i < way.len() - 1 && #[trigger] call_ensures(
                header,
                (way[i].parent_hash,),
                found,
            ) ==> found == Ok::<Option<Header>, ClientError>(Some(way[i + 1])),
        forall|found: Result<Option<Header>, ClientError>| #[trigger]
            call_ensures(header, (way.last().parent_hash,), found) ==> found == next,
        forall|i: int|
            1 <= i < way.len() ==> base.number < (#[trigger] way[i]).number && way[i].number
                < way[i - 1].number,
        next matches Ok(Some(parent)) ==> !(base.number < parent.number && parent.number
            < way.last().number),
    ensures
        match next {
            Err(e) => r == Err::<NextTarget, ClientError>(e),
            Ok(Some(parent)) if parent.number == base.number => r == Ok::<
                NextTarget,
                ClientError,
            >(NextTarget::Block(way.last().number, way.last().hash)),
            _ => r == Ok::<NextTarget, ClientError>(NextTarget::Broken),
        },
{
    assert(found_from(base.number, header, way[0], r));
    let walk = choose|walk: Seq<Header>|
        walk.len() > 0 && walk[0] == way[0] && #[trigger] walks_back(
            base.number,
            header,
            walk,
            r,
        );
    let n = walk.len() - 1;
    lemma_walk_on_way(base.number, header, way, next, walk, n);
    assert forall|found: Result<Option<Header>, ClientError>| #[trigger]
        answers(header, walk.last(), found) implies found == (if n < way.len() - 1 {
        Ok::<Option<Header>, ClientError>(Some(way[n + 1]))
    } else {
        next
    }) by {
        assert(call_ensures(header, (way[n].parent_hash,), found));
        if n == way.len() - 1 {
            assert(way.last() == way[n]);
            assert(call_ensures(header, (way.last().parent_hash,), found));
        }
    }
    if n < way.len() - 1 {
        assert(base.number < way[n + 1].number && way[n + 1].number < way[n + 1 - 1].number);
    }
}

proof fn lemma_walk_on_way<H: Fn(BlockHash) -> Result<Option<Header>, ClientError>>(
    base: BlockNumber,
    header: H,
    way: Seq<Header>,
    next: Result<Option<Header>, ClientError>,
    walk: Seq<Header>,
    i: int,
)
    requires
        0 <= i < walk.len(),
        leads_back(header, walk),
        falls_above(base, walk),
        way.len() > 0,
        walk[0] == way[0],
        forall|k: int, found: Result<Option<Header>, ClientError>|
            0 <= k < way.len() - 1 && #[trigger] call_ensures(
                header,
                (way[k].parent_hash,),
                found,
            ) ==> found == Ok::<Option<Header>, ClientError>(Some(way[k + 1])),
        forall|found: Result<Option<Header>, ClientError>| #[trigger]
            call_ensures(header, (way.last().parent_hash,), found) ==> found == next,
        next matches Ok(Some(parent)) ==> !(base < parent.number && parent.number
            < way.last().number),
    ensures
        i < way.len(),
        walk[i] == way[i],
    decreases i,
{
    if i > 0 {
        lemma_walk_on_way(base, header, way, next, walk, i - 1);
        assert(answers(header, walk[i - 1], Ok(Some(walk[i]))));
        assert(call_ensures(header, (way[i - 1].parent_hash,), Ok(Some(walk[i]))));
        assert(base < walk[i].number && walk[i].number < walk[i - 1].number);
        if i < way.len() {
            assert(walk[i] == way[i - 1 + 1]);
        } else {
            assert(way.last() == way[i - 1]);
            assert(call_ensures(header, (way.last().parent_hash,), Ok(Some(walk[i]))));
        }
    }
}

} // verus!
