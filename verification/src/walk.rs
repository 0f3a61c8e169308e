//! The order in which a hive's keys are visited, stated over positions: a
//! position is the sequence of child indices that leads from the root to a
//! key, and the root's own position is empty.

use vstd::prelude::*;
use crate::error::DecodeError;
use crate::key::RegfKey;

verus! {

/// The key that `pos` leads to from `root`.
pub open spec fn node_at(root: RegfKey, pos: Seq<usize>) -> RegfKey
    decreases pos.len(),
{
    if pos.len() == 0 {
        root
    } else {
        node_at(root, pos.drop_last()).kid(pos.last() as int)
    }
}

/// Whether every index of `pos` opens a sub-key under the bounds check of
/// the key it is applied to.
pub open spec fn reachable(root: RegfKey, pos: Seq<usize>) -> bool
    decreases pos.len(),
{
    pos.len() == 0 || (reachable(root, pos.drop_last()) && opens(
        node_at(root, pos.drop_last()),
        pos.last(),
    ))
}

/// Whether index `i` opens a sub-key of `k` under the bounds check.
pub open spec fn opens(k: RegfKey, i: usize) -> bool {
    k.child_outcome(i) is Ok && k.child_outcome(i)->Ok_0 is Some
}

/// The position reached from key `k` at `pos` by descending through first
/// sub-keys until a key has none.
pub open spec fn seek_from(k: RegfKey, pos: Seq<usize>) -> Result<Seq<usize>, DecodeError>
    decreases k,
{
    match k.child_outcome(0) {
        Err(e) => Err(e),
        Ok(None) => Ok(pos),
        Ok(Some(_)) => seek_from(k.kid(0), pos.push(0)),
    }
}

/// The position of the first key visited.
pub open spec fn first_position(root: RegfKey) -> Result<Seq<usize>, DecodeError> {
    seek_from(root, Seq::empty())
}

/// The position visited after the key at `pos`, which is not the root: the
/// lowest key under the next sibling if there is one, else the parent.
pub open spec fn next_position(root: RegfKey, pos: Seq<usize>) -> Result<Seq<usize>, DecodeError>
    recommends
        pos.len() > 0,
        reachable(root, pos),
{
    let up = pos.drop_last();
    let parent = node_at(root, up);
    let sibling = (pos.last() + 1) as usize;
    match parent.child_outcome(sibling) {
        Err(e) => Err(e),
        Ok(None) => Ok(up),
        Ok(Some(_)) => seek_from(parent.kid(sibling as int), up.push(sibling)),
    }
}

/// The names along `pos`, the root's first and that of the key at `pos`
/// last, or the failure of the first key on the way whose name cannot be
/// had.
pub open spec fn path_at(root: RegfKey, pos: Seq<usize>) -> Result<Seq<Seq<char>>, DecodeError>
    decreases pos.len(),
{
    if pos.len() == 0 {
        match root.name_outcome() {
            Err(e) => Err(e),
            Ok(name) => Ok(seq![name]),
        }
    } else {
        match path_at(root, pos.drop_last()) {
            Err(e) => Err(e),
            Ok(parts) => match node_at(root, pos).name_outcome() {
                Err(e) => Err(e),
                Ok(name) => Ok(parts.push(name)),
            },
        }
    }
}

/// Every prefix of a reachable position is reachable.
pub proof fn lemma_reachable_prefix(root: RegfKey, pos: Seq<usize>, n: int)
    requires
        reachable(root, pos),
        0 <= n <= pos.len(),
    ensures
        reachable(root, pos.subrange(0, n)),
    decreases pos.len(),
{
    if n == pos.len() {
        assert(pos.subrange(0, n) =~= pos);
    } else {
        lemma_reachable_prefix(root, pos.drop_last(), n);
        assert(pos.drop_last().subrange(0, n) =~= pos.subrange(0, n));
    }
}

/// Once the names along a prefix of a position cannot be had, neither can
/// those along the position, and for the same reason.
pub proof fn lemma_path_prefix_fails(root: RegfKey, pos: Seq<usize>, n: int)
    requires
        0 <= n <= pos.len(),
        path_at(root, pos.subrange(0, n)) is Err,
    ensures
        path_at(root, pos) == path_at(root, pos.subrange(0, n)),
    decreases pos.len(),
{
    if n == pos.len() {
        assert(pos.subrange(0, n) =~= pos);
    } else {
        assert(pos.drop_last().subrange(0, n) =~= pos.subrange(0, n));
        lemma_path_prefix_fails(root, pos.drop_last(), n);
    }
}

} // verus!
