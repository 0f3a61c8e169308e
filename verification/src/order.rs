//! What the enumerator's order amounts to on a hive whose engine answers
//! every lookup that its counts announce: each key is visited exactly once,
//! siblings by rising index, every key after all keys below it, and the
//! root last.

use vstd::prelude::*;
use crate::error::DecodeError;
use crate::key::RegfKey;
use crate::walk::{
    first_position, lemma_reachable_prefix, next_position, node_at, opens, path_at, reachable,
    seek_from,
};

verus! {

/// The number of sub-keys that lookups under `k` can open.
pub open spec fn kids(k: RegfKey) -> nat {
    k.sub_keys@.len()
}

/// The number of sub-keys fits the index type.
pub proof fn lemma_kids_bound(k: RegfKey)
    ensures
        kids(k) <= usize::MAX,
{
    assert(k.sub_keys.len() == k.sub_keys@.len());
}

/// Whether the engine's answers agree for `k` and for every key below it:
/// the count it reports is the number of its lookups, and each of them
/// opens a sub-key.
pub open spec fn sound(k: RegfKey) -> bool
    decreases k,
{
    &&& k.sub_keys_len_outcome() == Ok::<usize, DecodeError>(k.sub_keys.len())
    &&& forall|i: int|
        0 <= i < k.sub_keys@.len() ==> (#[trigger] k.sub_keys@[i]) is Some && sound(
            k.sub_keys@[i]->Some_0,
        )
}

/// The number of keys in the tree under `k`, `k` included.
pub open spec fn size(k: RegfKey) -> nat
    decreases k, 1nat, 0nat,
{
    1 + size_below(k, kids(k))
}

/// The number of keys in the trees under the first `n` sub-keys of `k`.
pub open spec fn size_below(k: RegfKey, n: nat) -> nat
    decreases k, 0nat, n,
{
    if n == 0 || n > k.sub_keys@.len() {
        0
    } else {
        size_below(k, (n - 1) as nat) + (match k.sub_keys@[n - 1] {
            Some(below) => size(below),
            None => 0,
        })
    }
}

/// The positions of the keys under `k`, which stands at `at`, in the order
/// of the visit: those under each sub-key in turn, then `k` itself.
pub open spec fn visits(k: RegfKey, at: Seq<usize>) -> Seq<Seq<usize>>
    decreases k, 1nat, 0nat,
{
    visits_below(k, at, kids(k)).push(at)
}

/// The positions of the keys under the first `n` sub-keys of `k`, in the
/// order of the visit.
pub open spec fn visits_below(k: RegfKey, at: Seq<usize>, n: nat) -> Seq<Seq<usize>>
    decreases k, 0nat, n,
{
    if n == 0 || n > k.sub_keys@.len() {
        Seq::empty()
    } else {
        visits_below(k, at, (n - 1) as nat) + (match k.sub_keys@[n - 1] {
            Some(below) => visits(below, at.push((n - 1) as usize)),
            None => Seq::empty(),
        })
    }
}

/// The order in which the keys of the hive under `root` are visited, each
/// by its position.
pub open spec fn post_order(root: RegfKey) -> Seq<Seq<usize>> {
    visits(root, Seq::empty())
}

/// The number of keys visited before any key under the one at `pos`.
pub open spec fn offset(root: RegfKey, pos: Seq<usize>) -> nat
    decreases pos.len(),
{
    if pos.len() == 0 {
        0
    } else {
        offset(root, pos.drop_last()) + size_below(node_at(root, pos.drop_last()), pos.last() as nat)
    }
}

/// The number of keys visited before the one at `pos`.
pub open spec fn rank(root: RegfKey, pos: Seq<usize>) -> nat {
    (offset(root, pos) + size(node_at(root, pos)) - 1) as nat
}

/// As many positions are visited under a key as there are keys under it.
pub proof fn lemma_visits_len(k: RegfKey, at: Seq<usize>)
    ensures
        visits(k, at).len() == size(k),
    decreases k, 1nat, 0nat,
{
    lemma_visits_below_len(k, at, kids(k));
}

/// As many positions are visited under the first sub-keys of a key as
/// there are keys under them.
pub proof fn lemma_visits_below_len(k: RegfKey, at: Seq<usize>, n: nat)
    ensures
        visits_below(k, at, n).len() == size_below(k, n),
    decreases k, 0nat, n,
{
    if n == 0 || n > k.sub_keys@.len() {
    } else {
        lemma_visits_below_len(k, at, (n - 1) as nat);
        if k.sub_keys@[n - 1] is Some {
            lemma_visits_len(k.kid(n - 1), at.push((n - 1) as usize));
        }
    }
}

/// The count of keys under the first sub-keys grows with their number.
pub proof fn lemma_size_below_grows(k: RegfKey, m: nat, n: nat)
    requires
        m <= n <= k.sub_keys@.len(),
    ensures
        size_below(k, m) <= size_below(k, n),
        m < n && k.sub_keys@[m as int] is Some ==> size_below(k, m) + size(k.kid(m as int))
            <= size_below(k, n),
    decreases n,
{
    if m < n {
        lemma_size_below_grows(k, m, (n - 1) as nat);
    }
}

/// An index that opens a sub-key is one at which the key has a sub-key, and
/// that sub-key is the one opened.
pub proof fn lemma_opens_bound(k: RegfKey, i: usize)
    requires
        opens(k, i),
    ensures
        i < kids(k),
        k.sub_keys@[i as int] is Some,
        k.child_outcome(i) == Ok::<Option<RegfKey>, DecodeError>(Some(k.kid(i as int))),
{
}

/// In a sound key, an index opens a sub-key exactly if it is under the
/// count; at or beyond the count there is none, and no failure.
pub proof fn lemma_sound_lookup(k: RegfKey, i: usize)
    requires
        sound(k),
    ensures
        opens(k, i) <==> i < kids(k),
        i < kids(k) ==> k.sub_keys@[i as int] is Some && k.child_outcome(i) == Ok::<
            Option<RegfKey>,
            DecodeError,
        >(Some(k.kid(i as int))) && sound(k.kid(i as int)),
        i >= kids(k) ==> k.child_outcome(i) == Ok::<Option<RegfKey>, DecodeError>(None),
{
    lemma_kids_bound(k);
}

/// Every key at a reachable position of a sound hive is sound.
pub proof fn lemma_sound_at(root: RegfKey, pos: Seq<usize>)
    requires
        sound(root),
        reachable(root, pos),
    ensures
        sound(node_at(root, pos)),
    decreases pos.len(),
{
    if pos.len() > 0 {
        lemma_sound_at(root, pos.drop_last());
        lemma_sound_lookup(node_at(root, pos.drop_last()), pos.last());
    }
}

/// The visit of the keys under the first `n` sub-keys of `k` holds, from
/// the place where those of sub-key `i` begin, the visit of sub-key `i`.
pub proof fn lemma_below_block(k: RegfKey, at: Seq<usize>, n: nat, i: nat, r: nat)
    requires
        i < n <= k.sub_keys@.len(),
        k.sub_keys@[i as int] is Some,
        r < size(k.kid(i as int)),
    ensures
        size_below(k, i) + r < size_below(k, n),
        visits_below(k, at, n)[(size_below(k, i) + r) as int] == visits(
            k.kid(i as int),
            at.push(i as usize),
        )[r as int],
    decreases n,
{
    let head = visits_below(k, at, (n - 1) as nat);
    let tail = match k.sub_keys@[n - 1] {
        Some(below) => visits(below, at.push((n - 1) as usize)),
        None => Seq::empty(),
    };
    lemma_visits_below_len(k, at, (n - 1) as nat);
    if k.sub_keys@[n - 1] is Some {
        lemma_visits_len(k.kid(n - 1), at.push((n - 1) as usize));
    }
    if i == n - 1 {
        assert((head + tail)[(size_below(k, i) + r) as int] == tail[r as int]);
    } else {
        lemma_below_block(k, at, (n - 1) as nat, i, r);
        assert((head + tail)[(size_below(k, i) + r) as int] == head[(size_below(k, i) + r) as int]);
    }
}

/// The visit of a key holds, from the place where those of sub-key `i`
/// begin, the visit of sub-key `i`.
pub proof fn lemma_visits_block(k: RegfKey, at: Seq<usize>, i: nat, r: nat)
    requires
        i < kids(k),
        k.sub_keys@[i as int] is Some,
        r < size(k.kid(i as int)),
    ensures
        size_below(k, i) + r < size(k) - 1,
        visits(k, at)[(size_below(k, i) + r) as int] == visits(k.kid(i as int), at.push(i as usize))[r as int],
{
    lemma_below_block(k, at, kids(k), i, r);
    lemma_visits_below_len(k, at, kids(k));
}

/// The visit of a key ends with the key itself.
pub proof fn lemma_visits_last(k: RegfKey, at: Seq<usize>)
    ensures
        size(k) >= 1,
        visits(k, at).len() == size(k),
        visits(k, at)[size(k) - 1] == at,
{
    lemma_visits_len(k, at);
    lemma_visits_below_len(k, at, kids(k));
}

/// Descending from a sound key through first sub-keys ends at the first
/// position of the key's visit.
pub proof fn lemma_seek_first(k: RegfKey, at: Seq<usize>)
    requires
        sound(k),
    ensures
        seek_from(k, at) == Ok::<Seq<usize>, DecodeError>(visits(k, at)[0]),
    decreases k,
{
    lemma_sound_lookup(k, 0);
    if kids(k) == 0 {
        lemma_visits_last(k, at);
    } else {
        let c = k.kid(0);
        lemma_seek_first(c, at.push(0));
        lemma_visits_last(c, at.push(0));
        lemma_visits_block(k, at, 0, 0);
    }
}

/// The sub-key among the first `n` of `k` under which place `j` of the
/// visit falls.
pub open spec fn slot(k: RegfKey, n: nat, j: nat) -> nat
    decreases n,
{
    if n == 0 {
        0
    } else if j >= size_below(k, (n - 1) as nat) {
        (n - 1) as nat
    } else {
        slot(k, (n - 1) as nat, j)
    }
}

/// Each place of the visit under the first sub-keys falls under one of
/// them.
pub proof fn lemma_slot(k: RegfKey, n: nat, j: nat)
    requires
        n <= k.sub_keys@.len(),
        j < size_below(k, n),
    ensures
        slot(k, n, j) < n,
        size_below(k, slot(k, n, j)) <= j < size_below(k, slot(k, n, j)) + size(
            k.kid(slot(k, n, j) as int),
        ),
    decreases n,
{
    if n > 0 && j < size_below(k, (n - 1) as nat) {
        lemma_slot(k, (n - 1) as nat, j);
    }
}

/// Place `j` of the visit of the key at `at` holds a reachable position,
/// and as many keys are visited before it as before the key's own visit
/// and `j` more.
pub proof fn lemma_rank_of_visit(root: RegfKey, at: Seq<usize>, j: nat)
    requires
        sound(root),
        reachable(root, at),
        j < size(node_at(root, at)),
    ensures
        reachable(root, visits(node_at(root, at), at)[j as int]),
        rank(root, visits(node_at(root, at), at)[j as int]) == offset(root, at) + j,
    decreases node_at(root, at),
{
    let k = node_at(root, at);
    lemma_sound_at(root, at);
    lemma_visits_last(k, at);
    if j == size(k) - 1 {
    } else {
        lemma_slot(k, kids(k), j);
        lemma_kids_bound(k);
        let i = slot(k, kids(k), j);
        let r = (j - size_below(k, i)) as nat;
        let down = at.push(i as usize);
        lemma_sound_lookup(k, i as usize);
        assert(down.drop_last() =~= at);
        assert(down.last() == i as usize);
        assert(node_at(root, down) == k.kid(i as int));
        assert(reachable(root, down));
        lemma_visits_block(k, at, i, r);
        lemma_rank_of_visit(root, down, r);
    }
}

/// A reachable position stands in the visit of each key above it, at the
/// place that its rank gives; under a key strictly above it, before that
/// key's own place.
pub proof fn lemma_block_at(root: RegfKey, pos: Seq<usize>, n: int)
    requires
        reachable(root, pos),
        0 <= n <= pos.len(),
    ensures
        offset(root, pos.subrange(0, n)) <= rank(root, pos),
        rank(root, pos) - offset(root, pos.subrange(0, n)) < size(node_at(root, pos.subrange(0, n))),
        n < pos.len() ==> rank(root, pos) - offset(root, pos.subrange(0, n)) < size(
            node_at(root, pos.subrange(0, n)),
        ) - 1,
        visits(node_at(root, pos.subrange(0, n)), pos.subrange(0, n))[rank(root, pos) - offset(
            root,
            pos.subrange(0, n),
        )] == pos,
    decreases pos.len() - n,
{
    let at = pos.subrange(0, n);
    let k = node_at(root, at);
    if n == pos.len() {
        assert(at =~= pos);
        lemma_visits_last(k, pos);
    } else {
        let down = pos.subrange(0, n + 1);
        let i = pos[n];
        assert(down.drop_last() =~= at);
        assert(down.last() == i);
        assert(down =~= at.push(i));
        lemma_reachable_prefix(root, pos, n + 1);
        lemma_opens_bound(k, i);
        lemma_block_at(root, pos, n + 1);
        let r = (rank(root, pos) - offset(root, down)) as nat;
        lemma_visits_block(k, at, i as nat, r);
    }
}

/// After a key that is not the root comes the key of the next rank.
pub proof fn lemma_next_rank(root: RegfKey, pos: Seq<usize>)
    requires
        sound(root),
        reachable(root, pos),
        pos.len() > 0,
    ensures
        next_position(root, pos) is Ok,
        reachable(root, next_position(root, pos)->Ok_0),
        rank(root, next_position(root, pos)->Ok_0) == rank(root, pos) + 1,
{
    let up = pos.drop_last();
    let k = node_at(root, up);
    let i = pos.last();
    lemma_sound_at(root, up);
    lemma_sound_at(root, pos);
    lemma_sound_lookup(k, i);
    lemma_visits_last(node_at(root, pos), pos);
    if i + 1 < kids(k) {
        let sibling = (i + 1) as usize;
        let side = up.push(sibling);
        lemma_sound_lookup(k, sibling);
        lemma_seek_first(k.kid(sibling as int), side);
        assert(side.drop_last() =~= up);
        assert(side.last() == sibling);
        assert(reachable(root, side));
        lemma_visits_last(node_at(root, side), side);
        lemma_rank_of_visit(root, side, 0);
        lemma_size_below_grows(k, i as nat, sibling as nat);
    } else {
        lemma_sound_lookup(k, (i + 1) as usize);
        lemma_size_below_grows(k, i as nat, kids(k));
    }
}

/// Descending through first sub-keys, where it succeeds, ends at a
/// reachable position that is not visited before the visit of the key it
/// started from begins.
pub proof fn lemma_seek_stays(root: RegfKey, at: Seq<usize>)
    requires
        reachable(root, at),
        seek_from(node_at(root, at), at) is Ok,
    ensures
        reachable(root, seek_from(node_at(root, at), at)->Ok_0),
        offset(root, at) <= rank(root, seek_from(node_at(root, at), at)->Ok_0),
    decreases node_at(root, at),
{
    let k = node_at(root, at);
    if opens(k, 0) {
        let down = at.push(0);
        lemma_opens_bound(k, 0);
        assert(down.drop_last() =~= at);
        assert(down.last() == 0);
        assert(node_at(root, down) == k.kid(0));
        lemma_seek_stays(root, down);
    }
}

/// Whatever the engine answers, a step that succeeds leads to a reachable
/// position of higher rank.
pub proof fn lemma_step_climbs(root: RegfKey, pos: Seq<usize>)
    requires
        reachable(root, pos),
        pos.len() > 0,
        next_position(root, pos) is Ok,
    ensures
        reachable(root, next_position(root, pos)->Ok_0),
        rank(root, pos) < rank(root, next_position(root, pos)->Ok_0),
{
    let up = pos.drop_last();
    let k = node_at(root, up);
    let i = pos.last();
    lemma_opens_bound(k, i);
    lemma_kids_bound(k);
    let sibling = (i + 1) as usize;
    if opens(k, sibling) {
        let side = up.push(sibling);
        lemma_opens_bound(k, sibling);
        assert(side.drop_last() =~= up);
        assert(side.last() == sibling);
        assert(node_at(root, side) == k.kid(sibling as int));
        lemma_seek_stays(root, side);
        lemma_size_below_grows(k, i as nat, sibling as nat);
    } else {
        lemma_size_below_grows(k, i as nat, kids(k));
    }
}

/// The rank of a reachable position is under the number of keys.
pub proof fn lemma_rank_bound(root: RegfKey, pos: Seq<usize>)
    requires
        reachable(root, pos),
    ensures
        rank(root, pos) < size(root),
{
    lemma_block_at(root, pos, 0);
    assert(pos.subrange(0, 0) =~= Seq::<usize>::empty());
}

/// The pass over a sound hive begins at the first position of the order.
pub proof fn law_first(root: RegfKey)
    requires
        sound(root),
    ensures
        post_order(root).len() == size(root),
        size(root) >= 1,
        first_position(root) == Ok::<Seq<usize>, DecodeError>(post_order(root)[0]),
{
    lemma_visits_last(root, Seq::empty());
    lemma_seek_first(root, Seq::empty());
}

/// In a sound hive, the step from the key at place `j` of the order leads
/// to the key at place `j + 1`; only the last place holds the root.
pub proof fn law_next(root: RegfKey, j: nat)
    requires
        sound(root),
        j + 1 < size(root),
    ensures
        post_order(root)[j as int].len() > 0,
        next_position(root, post_order(root)[j as int]) == Ok::<Seq<usize>, DecodeError>(
            post_order(root)[j as int + 1],
        ),
{
    let here = post_order(root)[j as int];
    lemma_rank_of_visit(root, Seq::empty(), j);
    lemma_next_rank(root, here);
    let there = next_position(root, here)->Ok_0;
    lemma_block_at(root, there, 0);
    assert(there.subrange(0, 0) =~= Seq::<usize>::empty());
}

/// The order has one place for each key, and the root is visited last.
pub proof fn law_root_last(root: RegfKey)
    ensures
        post_order(root).len() == size(root),
        size(root) >= 1,
        post_order(root).last() == Seq::<usize>::empty(),
{
    lemma_visits_last(root, Seq::empty());
}

/// Each key of a hive is visited exactly once: every place of the order
/// holds a reachable position, no two places hold the same, and every
/// reachable position stands at the place that its rank gives.
pub proof fn law_each_key_once(root: RegfKey)
    requires
        sound(root),
    ensures
        post_order(root).len() == size(root),
        forall|j: int| 0 <= j < size(root) ==> reachable(root, #[trigger] post_order(root)[j]),
        forall|i: int, j: int|
            0 <= i < j < size(root) ==> #[trigger] post_order(root)[i] != #[trigger] post_order(
                root,
            )[j],
        forall|pos: Seq<usize>| #[trigger]
            reachable(root, pos) ==> rank(root, pos) < size(root) && post_order(root)[rank(
                root,
                pos,
            ) as int] == pos,
{
    lemma_visits_last(root, Seq::empty());
    assert forall|j: int| 0 <= j < size(root) implies reachable(
        root,
        #[trigger] post_order(root)[j],
    ) && rank(root, post_order(root)[j]) == j by {
        lemma_rank_of_visit(root, Seq::empty(), j as nat);
    }
    assert forall|pos: Seq<usize>| #[trigger] reachable(root, pos) implies rank(root, pos) < size(
        root,
    ) && post_order(root)[rank(root, pos) as int] == pos by {
        lemma_block_at(root, pos, 0);
        assert(pos.subrange(0, 0) =~= Seq::<usize>::empty());
    }
}

/// Siblings are visited by rising index.
pub proof fn law_siblings_ascend(root: RegfKey, at: Seq<usize>, i: usize, j: usize)
    requires
        reachable(root, at.push(i)),
        reachable(root, at.push(j)),
        i < j,
    ensures
        rank(root, at.push(i)) < rank(root, at.push(j)),
{
    let k = node_at(root, at);
    assert(at.push(i).drop_last() =~= at);
    assert(at.push(j).drop_last() =~= at);
    lemma_opens_bound(k, i);
    lemma_opens_bound(k, j);
    lemma_size_below_grows(k, i as nat, j as nat);
    lemma_visits_last(k.kid(i as int), at.push(i));
    lemma_visits_last(k.kid(j as int), at.push(j));
}

/// A key is visited only after every key below it.
pub proof fn law_parent_after_descendants(root: RegfKey, pos: Seq<usize>, n: int)
    requires
        reachable(root, pos),
        0 <= n < pos.len(),
    ensures
        reachable(root, pos.subrange(0, n)),
        rank(root, pos) < rank(root, pos.subrange(0, n)),
{
    lemma_reachable_prefix(root, pos, n);
    lemma_block_at(root, pos, n);
}

/// Whether `k` and every key below it has a name that can be had.
pub open spec fn named(k: RegfKey) -> bool
    decreases k,
{
    &&& k.name_outcome() is Ok
    &&& forall|i: int|
        0 <= i < k.sub_keys@.len() && (#[trigger] k.sub_keys@[i]) is Some ==> named(
            k.sub_keys@[i]->Some_0,
        )
}

/// Whether no two sub-keys of one key, under `k` or below, are reported
/// under the same name.
pub open spec fn distinct_names(k: RegfKey) -> bool
    decreases k,
{
    &&& forall|i: int, j: int|
        0 <= i < j < k.sub_keys@.len() && (#[trigger] k.sub_keys@[i]) is Some && (
        #[trigger] k.sub_keys@[j]) is Some ==> k.kid(i).name_outcome() != k.kid(j).name_outcome()
    &&& forall|i: int|
        0 <= i < k.sub_keys@.len() && (#[trigger] k.sub_keys@[i]) is Some ==> distinct_names(
            k.sub_keys@[i]->Some_0,
        )
}

/// Where every key has a name, the names along a reachable position can be
/// had.
pub proof fn lemma_path_named(root: RegfKey, pos: Seq<usize>)
    requires
        named(root),
        reachable(root, pos),
    ensures
        named(node_at(root, pos)),
        path_at(root, pos) is Ok,
    decreases pos.len(),
{
    if pos.len() > 0 {
        let up = node_at(root, pos.drop_last());
        lemma_path_named(root, pos.drop_last());
        lemma_opens_bound(up, pos.last());
        assert(named(up.kid(pos.last() as int)));
        assert(node_at(root, pos) == up.kid(pos.last() as int));
    }
    assert(node_at(root, pos).name_outcome() is Ok);
}

/// The keys below a hive with distinct sibling names have distinct sibling
/// names.
pub proof fn lemma_distinct_at(root: RegfKey, pos: Seq<usize>)
    requires
        distinct_names(root),
        reachable(root, pos),
    ensures
        distinct_names(node_at(root, pos)),
    decreases pos.len(),
{
    if pos.len() > 0 {
        lemma_distinct_at(root, pos.drop_last());
        lemma_opens_bound(node_at(root, pos.drop_last()), pos.last());
    }
}

/// The names along a position are one more than its indices.
pub proof fn lemma_path_len(root: RegfKey, pos: Seq<usize>)
    requires
        path_at(root, pos) is Ok,
    ensures
        path_at(root, pos)->Ok_0.len() == pos.len() + 1,
    decreases pos.len(),
{
    if pos.len() > 0 {
        lemma_path_len(root, pos.drop_last());
    }
}

/// Where siblings never share a name, two different keys never share the
/// names along their paths.
pub proof fn law_paths_unique(root: RegfKey, p: Seq<usize>, q: Seq<usize>)
    requires
        distinct_names(root),
        reachable(root, p),
        reachable(root, q),
        p != q,
        path_at(root, p) is Ok,
        path_at(root, q) is Ok,
    ensures
        path_at(root, p)->Ok_0 != path_at(root, q)->Ok_0,
    decreases p.len(),
{
    lemma_path_len(root, p);
    lemma_path_len(root, q);
    if p.len() != q.len() {
    } else if p.len() == 0 {
        assert(p =~= q);
    } else {
        let a = path_at(root, p.drop_last())->Ok_0;
        let b = path_at(root, q.drop_last())->Ok_0;
        let path_p = path_at(root, p)->Ok_0;
        let path_q = path_at(root, q)->Ok_0;
        assert(path_p.drop_last() =~= a);
        assert(path_q.drop_last() =~= b);
        if p.drop_last() == q.drop_last() {
            let k = node_at(root, p.drop_last());
            if p.last() == q.last() {
                assert(p =~= p.drop_last().push(p.last()));
                assert(q =~= q.drop_last().push(q.last()));
            }
            lemma_distinct_at(root, p.drop_last());
            lemma_opens_bound(k, p.last());
            lemma_opens_bound(k, q.last());
            assert(k.kid(p.last() as int).name_outcome() != k.kid(q.last() as int).name_outcome());
            assert(path_p.last() != path_q.last());
        } else {
            law_paths_unique(root, p.drop_last(), q.drop_last());
        }
    }
}

/// Asked for all sub-keys, a key hands out exactly as many as it reports,
/// the one at place `i` being the one that index `i` opens; where the
/// engine's answers agree, these are all the sub-keys there are.
pub proof fn law_children_match_count(k: RegfKey)
    ensures
        k.sub_keys_outcome() is Ok ==> k.sub_keys_len_outcome() == Ok::<usize, DecodeError>(
            k.sub_keys_outcome()->Ok_0.len() as usize,
        ) && forall|i: int|
            0 <= i < k.sub_keys_outcome()->Ok_0.len() ==> k.has_kid(i)
                && #[trigger] k.sub_keys_outcome()->Ok_0[i] == k.kid(i),
        sound(k) ==> k.sub_keys_outcome() is Ok && k.sub_keys_outcome()->Ok_0.len() == kids(k),
{
    lemma_kids_bound(k);
}

/// At a key without sub-keys the descent ends at once, where it stands.
pub proof fn law_leaf_seek(k: RegfKey, at: Seq<usize>)
    requires
        k.sub_keys_len_outcome() == Ok::<usize, DecodeError>(0),
    ensures
        seek_from(k, at) == Ok::<Seq<usize>, DecodeError>(at),
{
}

} // verus!
