//! An opened hive and the enumerator that visits each of its keys once.

use vstd::prelude::*;
use crate::error::{DecodeError, OpenError, RootError, TraversalError};
use crate::file::RegfFile;
use crate::key::RegfKey;
use crate::kv::Key;
use crate::order::{
    law_each_key_once, law_first, law_next, law_root_last, lemma_path_named, lemma_rank_bound,
    lemma_seek_stays, lemma_step_climbs, named, post_order, rank, size, sound,
};
use crate::value::texts_view;
use crate::walk::{
    first_position, lemma_path_prefix_fails, lemma_reachable_prefix, next_position, node_at,
    opens, path_at, reachable, seek_from,
};

verus! {

/// An opened hive.
#[derive(Debug)]
pub struct Hive {
    pub file: RegfFile,
}

/// Where an enumerator stands: before its first key, at the key it last
/// handed out, or at its end.
#[derive(Clone, Copy, Debug, PartialEq, Eq, Structural)]
pub enum Phase {
    Fresh,
    At,
    Done,
}

/// A single pass over every key of a hive. The stack holds one child index
/// per level below the root and so names the current key; dropping its last
/// entry ascends one level.
#[derive(Debug)]
pub struct HiveIterator<'a> {
    pub hive: &'a Hive,
    pub root: &'a RegfKey,
    pub state: Vec<usize>,
    pub phase: Phase,
}

/// What one advance of an enumerator hands out, over positions and names:
/// nothing at the end, else the failure that ends the pass, else the next
/// position with the names along it.
pub open spec fn visit(root: RegfKey, target: Result<Seq<usize>, DecodeError>) -> Result<
    (Seq<usize>, Seq<Seq<char>>),
    DecodeError,
> {
    match target {
        Err(e) => Err(e),
        Ok(pos) => match path_at(root, pos) {
            Err(e) => Err(e),
            Ok(parts) => Ok((pos, parts)),
        },
    }
}

/// The position that the next advance aims for from a phase and a stack, if
/// the pass has not ended: the first position at the start; none after the
/// root, which comes last; else the one after the current.
pub open spec fn target_of(root: RegfKey, phase: Phase, state: Seq<usize>) -> Option<
    Result<Seq<usize>, DecodeError>,
> {
    match phase {
        Phase::Done => None,
        Phase::Fresh => Some(first_position(root)),
        Phase::At => if state.len() == 0 {
            None
        } else {
            Some(next_position(root, state))
        },
    }
}

/// A bound on the advances that are left from a phase and a stack.
pub open spec fn remaining_of(root: RegfKey, phase: Phase, state: Seq<usize>) -> nat {
    match phase {
        Phase::Fresh => size(root) + 1,
        Phase::At => if rank(root, state) < size(root) {
            (size(root) - rank(root, state)) as nat
        } else {
            0
        },
        Phase::Done => 0,
    }
}

/// What a run of at most `fuel` advances hands out from a phase and a
/// stack: the positions visited, each with the names along it, or the
/// failure that ended the run.
pub open spec fn run(root: RegfKey, phase: Phase, state: Seq<usize>, fuel: nat) -> Result<
    Seq<(Seq<usize>, Seq<Seq<char>>)>,
    DecodeError,
>
    decreases fuel,
{
    if fuel == 0 {
        Ok(Seq::empty())
    } else {
        match target_of(root, phase, state) {
            None => Ok(Seq::empty()),
            Some(t) => match visit(root, t) {
                Err(e) => Err(e),
                Ok(item) => match run(root, Phase::At, item.0, (fuel - 1) as nat) {
                    Err(e) => Err(e),
                    Ok(rest) => Ok(seq![item] + rest),
                },
            },
        }
    }
}

/// What a run to the end hands out from a phase and a stack.
pub open spec fn run_to_end(root: RegfKey, phase: Phase, state: Seq<usize>) -> Result<
    Seq<(Seq<usize>, Seq<Seq<char>>)>,
    DecodeError,
> {
    run(root, phase, state, remaining_of(root, phase, state))
}

/// The items `done`, followed by what `rest` hands out.
pub open spec fn followed_by(
    done: Seq<(Seq<usize>, Seq<Seq<char>>)>,
    rest: Result<Seq<(Seq<usize>, Seq<Seq<char>>)>, DecodeError>,
) -> Result<Seq<(Seq<usize>, Seq<Seq<char>>)>, DecodeError> {
    match rest {
        Err(e) => Err(e),
        Ok(items) => Ok(done + items),
    }
}

/// Whether `key` is the key at the position of `item`, with its names.
pub open spec fn key_matches(root: RegfKey, key: Key, item: (Seq<usize>, Seq<Seq<char>>)) -> bool {
    *key.inner == node_at(root, item.0) && texts_view(key.path_parts@) == item.1
}

/// Each advance that hands out a key leaves fewer advances.
pub proof fn lemma_advance_leaves_less(root: RegfKey, phase: Phase, state: Seq<usize>)
    requires
        reachable(root, state),
        target_of(root, phase, state) is Some,
        target_of(root, phase, state)->Some_0 is Ok,
    ensures
        reachable(root, target_of(root, phase, state)->Some_0->Ok_0),
        remaining_of(root, phase, state) >= 1,
        remaining_of(root, Phase::At, target_of(root, phase, state)->Some_0->Ok_0) + 1
            <= remaining_of(root, phase, state),
{
    lemma_rank_bound(root, state);
    if phase == Phase::Fresh {
        assert(node_at(root, Seq::<usize>::empty()) == root);
        lemma_seek_stays(root, Seq::empty());
    } else {
        lemma_step_climbs(root, state);
    }
    lemma_rank_bound(root, target_of(root, phase, state)->Some_0->Ok_0);
}

/// Advances beyond those that are left change nothing.
pub proof fn lemma_run_fuel(root: RegfKey, phase: Phase, state: Seq<usize>, fuel: nat)
    requires
        reachable(root, state),
        fuel >= remaining_of(root, phase, state),
    ensures
        run(root, phase, state, fuel) == run_to_end(root, phase, state),
    decreases fuel,
{
    let left = remaining_of(root, phase, state);
    match target_of(root, phase, state) {
        None => {
            assert(run(root, phase, state, left) == Ok::<
                Seq<(Seq<usize>, Seq<Seq<char>>)>,
                DecodeError,
            >(Seq::empty()));
        },
        Some(t) => {
            lemma_rank_bound(root, state);
            assert(left >= 1);
            match visit(root, t) {
                Err(_) => {},
                Ok(item) => {
                    lemma_advance_leaves_less(root, phase, state);
                    lemma_run_fuel(root, Phase::At, item.0, (fuel - 1) as nat);
                    lemma_run_fuel(root, Phase::At, item.0, (left - 1) as nat);
                },
            }
        },
    }
}

impl Hive {
    /// Opens the hive that the engine presented for `path`.
    pub fn from_path(path: &str, file: RegfFile) -> (r: Result<Hive, OpenError>)
        ensures
            match file.open_outcome(path@) {
                Ok(_) => r is Ok && r->Ok_0.file == file,
                Err(e) => r is Err && r->Err_0 == e,
            },
    {
        match RegfFile::open(path, file) {
            Ok(file) => Ok(Hive { file }),
            Err(e) => Err(e),
        }
    }

    /// An enumerator over every key of the hive.
    pub fn into_iter(&self) -> (r: Result<HiveIterator<'_>, RootError>)
        ensures
            match self.file.root_outcome() {
                Err(e) => r is Err && r->Err_0 == e,
                Ok(k) => r is Ok && r->Ok_0.wf() && r->Ok_0.hive == self && *r->Ok_0.root == k
                    && r->Ok_0.phase == Phase::Fresh && r->Ok_0.state@.len() == 0,
            },
    {
        HiveIterator::from_hive(self)
    }

    /// The root key. A hive that did not pass every step of opening, or
    /// whose engine hands out no root, has none to offer.
    pub fn root(&self) -> (r: Result<Key<'_>, RootError>)
        ensures
            match self.file.root_outcome() {
                Err(e) => r is Err && r->Err_0 == e,
                Ok(k) => r is Ok && *r->Ok_0.inner == k && r->Ok_0.path_parts@.len() == 0,
            },
    {
        match self.file.root_node() {
            Ok(k) => Ok(Key::new(k)),
            Err(e) => Err(e),
        }
    }
}

impl<'a> HiveIterator<'a> {
    /// The enumerator stands on its hive's root, and its stack names a key
    /// that the lookups it stands for do open.
    pub open spec fn wf(&self) -> bool {
        &&& self.hive.file.root_outcome() == Ok::<RegfKey, RootError>(*self.root)
        &&& reachable(*self.root, self.state@)
    }

    /// The position that the next advance aims for, if the pass has not
    /// ended: the first position at the start; none after the root, which
    /// comes last; else the one after the current.
    pub open spec fn target(&self) -> Option<Result<Seq<usize>, DecodeError>> {
        target_of(*self.root, self.phase, self.state@)
    }

    /// A fresh enumerator over `hive`, which must have a root to offer.
    pub fn from_hive(hive: &'a Hive) -> (r: Result<HiveIterator<'a>, RootError>)
        ensures
            match hive.file.root_outcome() {
                Err(e) => r is Err && r->Err_0 == e,
                Ok(k) => r is Ok && r->Ok_0.wf() && r->Ok_0.hive == hive && *r->Ok_0.root == k
                    && r->Ok_0.phase == Phase::Fresh && r->Ok_0.state@.len() == 0,
            },
    {
        match hive.file.root_node() {
            Ok(root) => Ok(HiveIterator { hive, root, state: Vec::new(), phase: Phase::Fresh }),
            Err(e) => Err(e),
        }
    }

    /// The key that the first `depth` entries of the stack lead to, found
    /// by walking down from the root.
    pub fn node(&self, depth: usize) -> (r: &'a RegfKey)
        requires
            self.wf(),
            depth <= self.state@.len(),
        ensures
            *r == node_at(*self.root, self.state@.subrange(0, depth as int)),
    {
        let mut cur: &'a RegfKey = self.root;
        let mut d: usize = 0;
        assert(self.state@.subrange(0, 0) =~= Seq::<usize>::empty());
        while d < depth
            invariant
                d <= depth <= self.state@.len(),
                self.wf(),
                *cur == node_at(*self.root, self.state@.subrange(0, d as int)),
            decreases depth - d,
        {
            proof {
                let longer = self.state@.subrange(0, d as int + 1);
                lemma_reachable_prefix(*self.root, self.state@, d as int + 1);
                assert(longer.drop_last() =~= self.state@.subrange(0, d as int));
                assert(longer.last() == self.state@[d as int]);
                assert(opens(*cur, self.state@[d as int]));
            }
            cur = match &cur.sub_keys[self.state[d]] {
                Some(below) => below,
                None => cur,
            };
            d += 1;
        }
        cur
    }
    /// Descends from `current`, the key that the stack names, through first
    /// sub-keys until a key has none, recording each step on the stack. At a
    /// key without sub-keys it ends at once and leaves the stack as it was.
    pub fn seek_lowest(&mut self, current: &Key<'a>) -> (r: Result<(), TraversalError>)
        requires
            old(self).wf(),
            *current.inner == node_at(*old(self).root, old(self).state@),
        ensures
            final(self).wf(),
            final(self).hive == old(self).hive,
            final(self).root == old(self).root,
            final(self).phase == old(self).phase,
            match seek_from(*current.inner, old(self).state@) {
                Ok(pos) => r is Ok && final(self).state@ == pos,
                Err(e) => r == Err::<(), TraversalError>(TraversalError { cause: e }),
            },
            current.inner.sub_keys_len_outcome() == Ok::<usize, DecodeError>(0) ==> r is Ok
                && final(self).state@ == old(self).state@,
    {
        let mut cur: &'a RegfKey = current.inner;
        loop
            invariant
                self.wf(),
                self.hive == old(self).hive,
                self.root == old(self).root,
                self.phase == old(self).phase,
                *cur == node_at(*self.root, self.state@),
                seek_from(*cur, self.state@) == seek_from(*current.inner, old(self).state@),
            decreases cur,
        {
            match cur.child(0) {
                Err(e) => {
                    return Err(TraversalError::new(e.kind));
                },
                Ok(None) => {
                    return Ok(());
                },
                Ok(Some(c)) => {
                    let ghost before = self.state@;
                    self.state.push(0);
                    proof {
                        assert(self.state@.drop_last() =~= before);
                        assert(opens(*cur, 0));
                    }
                    cur = c;
                },
            }
        }
    }

    /// Steps onto `current`, the first sub-key of the key that the stack
    /// names, and descends from it to the lowest key.
    pub fn set_lowest(&mut self, current: &Key<'a>) -> (r: Result<(), TraversalError>)
        requires
            old(self).wf(),
            opens(node_at(*old(self).root, old(self).state@), 0),
            *current.inner == node_at(*old(self).root, old(self).state@).kid(0),
        ensures
            final(self).wf(),
            final(self).hive == old(self).hive,
            final(self).root == old(self).root,
            final(self).phase == old(self).phase,
            match seek_from(*current.inner, old(self).state@.push(0)) {
                Ok(pos) => r is Ok && final(self).state@ == pos,
                Err(e) => r == Err::<(), TraversalError>(TraversalError { cause: e }),
            },
    {
        let ghost before = self.state@;
        self.state.push(0);
        proof {
            assert(self.state@.drop_last() =~= before);
        }
        self.seek_lowest(current)
    }

    /// The names along the stack, from the root's to that of the key that
    /// the stack names.
    pub fn generate_path_parts(&self) -> (r: Result<Vec<String>, TraversalError>)
        requires
            self.wf(),
        ensures
            match path_at(*self.root, self.state@) {
                Ok(parts) => r is Ok && texts_view(r->Ok_0@) == parts,
                Err(e) => r == Err::<Vec<String>, TraversalError>(TraversalError { cause: e }),
            },
    {
        let mut path: Vec<String> = Vec::new();
        let mut cur: &'a RegfKey = self.root;
        let mut d: usize = 0;
        assert(self.state@.subrange(0, 0) =~= Seq::<usize>::empty());
        match cur.get_name() {
            Ok(name) => {
                path.push(name);
                assert(texts_view(path@) =~= seq![name@]);
            },
            Err(e) => {
                proof {
                    lemma_path_prefix_fails(*self.root, self.state@, 0);
                }
                return Err(TraversalError::new(e.kind));
            },
        }
        while d < self.state.len()
            invariant
                d <= self.state@.len(),
                self.wf(),
                *cur == node_at(*self.root, self.state@.subrange(0, d as int)),
                path_at(*self.root, self.state@.subrange(0, d as int)) == Ok::<
                    Seq<Seq<char>>,
                    DecodeError,
                >(texts_view(path@)),
            decreases self.state@.len() - d,
        {
            let ghost before = path@;
            proof {
                let longer = self.state@.subrange(0, d as int + 1);
                lemma_reachable_prefix(*self.root, self.state@, d as int + 1);
                assert(longer.drop_last() =~= self.state@.subrange(0, d as int));
                assert(longer.last() == self.state@[d as int]);
                assert(opens(*cur, self.state@[d as int]));
            }
            cur = match &cur.sub_keys[self.state[d]] {
                Some(below) => below,
                None => cur,
            };
            d += 1;
            match cur.get_name() {
                Ok(name) => {
                    path.push(name);
                    assert(texts_view(path@) =~= texts_view(before).push(name@));
                },
                Err(e) => {
                    proof {
                        lemma_path_prefix_fails(*self.root, self.state@, d as int);
                    }
                    return Err(TraversalError::new(e.kind));
                },
            }
        }
        assert(self.state@.subrange(0, d as int) =~= self.state@);
        Ok(path)
    }
    /// Advances to the next key and hands it out with the names along its
    /// path. The first advance goes to the lowest key under the root's
    /// first sub-key, or to the root itself if it has none. Each later one
    /// goes to the lowest key under the next sibling of the current key, or,
    /// where there is no such sibling, up to the parent. The root comes
    /// last. A failure on the way is handed out once and ends the pass.
    pub fn next_key(&mut self) -> (r: Option<Result<Key<'a>, TraversalError>>)
        requires
            old(self).wf(),
        ensures
            final(self).wf(),
            final(self).hive == old(self).hive,
            final(self).root == old(self).root,
            match old(self).target() {
                None => r is None && final(self).phase == Phase::Done,
                Some(t) => match visit(*old(self).root, t) {
                    Err(e) => r == Some(Err::<Key<'a>, TraversalError>(TraversalError { cause: e }))
                        && final(self).phase == Phase::Done,
                    Ok((pos, parts)) => r is Some && r->Some_0 is Ok && *r->Some_0->Ok_0.inner
                        == node_at(*old(self).root, pos) && texts_view(
                        r->Some_0->Ok_0.path_parts@,
                    ) == parts && final(self).state@ == pos && final(self).phase == Phase::At,
                },
            },
    {
        let moved: Result<(), TraversalError> = match self.phase {
            Phase::Done => {
                return None;
            },
            Phase::Fresh => {
                self.state = Vec::new();
                match self.root.child(0) {
                    Err(e) => Err(TraversalError::new(e.kind)),
                    Ok(None) => Ok(()),
                    Ok(Some(first)) => {
                        let first_key = Key::new(first);
                        self.set_lowest(&first_key)
                    },
                }
            },
            Phase::At => {
                if self.state.len() == 0 {
                    self.phase = Phase::Done;
                    return None;
                }
                let depth: usize = self.state.len() - 1;
                let top: usize = self.state[depth];
                let parent = self.node(depth);
                let ghost up = self.state@.drop_last();
                proof {
                    assert(self.state@.subrange(0, depth as int) =~= up);
                    assert(opens(*parent, top));
                }
                match parent.child(top + 1) {
                    Err(e) => Err(TraversalError::new(e.kind)),
                    Ok(None) => {
                        self.state.pop();
                        Ok(())
                    },
                    Ok(Some(sibling)) => {
                        self.state.pop();
                        self.state.push(top + 1);
                        proof {
                            assert(self.state@.drop_last() =~= up);
                            assert(self.state@ =~= up.push((top + 1) as usize));
                        }
                        let sibling_key = Key::new(sibling);
                        self.seek_lowest(&sibling_key)
                    },
                }
            },
        };
        match moved {
            Err(e) => {
                self.phase = Phase::Done;
                Some(Err(e))
            },
            Ok(()) => match self.generate_path_parts() {
                Err(e) => {
                    self.phase = Phase::Done;
                    Some(Err(e))
                },
                Ok(path_parts) => {
                    self.phase = Phase::At;
                    let inner = self.node(self.state.len());
                    proof {
                        assert(self.state@.subrange(0, self.state@.len() as int) =~= self.state@);
                    }
                    Some(Ok(Key { path_parts, inner }))
                },
            },
        }
    }
    /// A bound on the advances that the enumerator has left.
    pub open spec fn remaining(&self) -> nat {
        remaining_of(*self.root, self.phase, self.state@)
    }

    /// Runs the enumerator to its end and gathers the keys it hands out,
    /// in their order; the first failure ends the run and is returned
    /// instead. Of a fresh enumerator over a hive whose engine's answers
    /// agree and whose keys all have names, the result holds every key once,
    /// in the order of the visit, each with the names along its path.
    pub fn collect_keys(&mut self) -> (r: Result<Vec<Key<'a>>, TraversalError>)
        requires
            old(self).wf(),
        ensures
            final(self).wf(),
            final(self).hive == old(self).hive,
            final(self).root == old(self).root,
            final(self).phase == Phase::Done,
            match run_to_end(*old(self).root, old(self).phase, old(self).state@) {
                Err(e) => r == Err::<Vec<Key<'a>>, TraversalError>(TraversalError { cause: e }),
                Ok(items) => r is Ok && r->Ok_0@.len() == items.len() && forall|j: int|
                    0 <= j < items.len() ==> key_matches(
                        *old(self).root,
                        #[trigger] r->Ok_0@[j],
                        items[j],
                    ),
            },
            old(self).phase == Phase::Fresh && sound(*old(self).root) && named(*old(self).root)
                ==> r is Ok && r->Ok_0@.len() == size(*old(self).root) && forall|j: int|
                0 <= j < size(*old(self).root) ==> *(#[trigger] r->Ok_0@[j]).inner == node_at(
                    *old(self).root,
                    post_order(*old(self).root)[j],
                ) && path_at(*old(self).root, post_order(*old(self).root)[j]) == Ok::<
                    Seq<Seq<char>>,
                    DecodeError,
                >(texts_view(r->Ok_0@[j].path_parts@)),
    {
        let ghost root = *self.root;
        let ghost whole = self.phase == Phase::Fresh && sound(root) && named(root);
        let ghost whole_run = run_to_end(root, self.phase, self.state@);
        let ghost mut items: Seq<(Seq<usize>, Seq<Seq<char>>)> = Seq::empty();
        let mut keys: Vec<Key<'a>> = Vec::new();
        proof {
            law_root_last(root);
            match whole_run {
                Ok(all) => {
                    assert(items + all =~= all);
                },
                Err(_) => {},
            }
        }
        loop
            invariant
                self.wf(),
                self.hive == old(self).hive,
                self.root == old(self).root,
                root == *self.root,
                post_order(root).len() == size(root),
                whole_run == run_to_end(*old(self).root, old(self).phase, old(self).state@),
                whole_run == followed_by(items, run_to_end(root, self.phase, self.state@)),
                items.len() == keys@.len(),
                forall|j: int| 0 <= j < keys@.len() ==> key_matches(root, #[trigger] keys@[j], items[j]),
                whole <==> old(self).phase == Phase::Fresh && sound(root) && named(root),
                whole ==> keys@.len() <= size(root),
                whole && keys@.len() == 0 ==> self.phase == Phase::Fresh,
                whole && keys@.len() > 0 ==> self.phase == Phase::At && self.state@ == post_order(
                    root,
                )[keys@.len() - 1],
                whole ==> forall|j: int|
                    0 <= j < keys@.len() ==> *(#[trigger] keys@[j]).inner == node_at(
                        root,
                        post_order(root)[j],
                    ) && path_at(root, post_order(root)[j]) == Ok::<Seq<Seq<char>>, DecodeError>(
                        texts_view(keys@[j].path_parts@),
                    ),
            decreases self.remaining(),
        {
            let ghost done = keys@.len();
            proof {
                law_root_last(root);
                if self.phase == Phase::At {
                    lemma_rank_bound(root, self.state@);
                    if self.state@.len() > 0 && next_position(root, self.state@) is Ok {
                        lemma_step_climbs(root, self.state@);
                        lemma_rank_bound(root, next_position(root, self.state@)->Ok_0);
                    }
                }
                if whole {
                    law_each_key_once(root);
                    if done == 0 {
                        law_first(root);
                        lemma_path_named(root, post_order(root)[0]);
                    } else if done < size(root) {
                        law_next(root, (done - 1) as nat);
                        lemma_path_named(root, post_order(root)[done as int]);
                    }
                }
            }
            let ghost phase = self.phase;
            let ghost state = self.state@;
            proof {
                lemma_rank_bound(root, state);
            }
            match self.next_key() {
                None => {
                    proof {
                        assert(items + Seq::<(Seq<usize>, Seq<Seq<char>>)>::empty() =~= items);
                    }
                    return Ok(keys);
                },
                Some(Err(e)) => {
                    return Err(e);
                },
                Some(Ok(key)) => {
                    proof {
                        let item = visit(root, target_of(root, phase, state)->Some_0)->Ok_0;
                        lemma_rank_bound(root, self.state@);
                        lemma_advance_leaves_less(root, phase, state);
                        lemma_run_fuel(
                            root,
                            Phase::At,
                            item.0,
                            (remaining_of(root, phase, state) - 1) as nat,
                        );
                        match run_to_end(root, Phase::At, item.0) {
                            Ok(rest) => {
                                assert(items + (seq![item] + rest) =~= items.push(item) + rest);
                            },
                            Err(_) => {},
                        }
                        items = items.push(item);
                    }
                    keys.push(key);
                },
            }
        }
    }
}

} // verus!
