//! Causal ancestry over the memos that a slab holds.
use crate::memo::{Memo, MemoId, MemoRefHead};
use crate::memoref::MemoRef;
use crate::slab::{is_resident_in, Slab, Store};
use vstd::prelude::*;

verus! {

broadcast use vstd::std_specs::hash::group_hash_axioms;

/// Whether `target` is reached from the memo ids `parents` by following
/// parent links through memos resident in `s`, taking at most `depth` links
/// past `parents` themselves.
pub open spec fn descends_within(s: Store, parents: Seq<MemoId>, target: MemoId, depth: nat) -> bool
    decreases depth,
{
    exists|i: int|
        0 <= i < parents.len() && (#[trigger] parents[i] == target || (depth > 0 && s.contains_key(
            parents[i],
        ) && s[parents[i]].memo is Some && descends_within(
            s,
            s[parents[i]].memo.unwrap().parents_view(),
            target,
            (depth - 1) as nat,
        )))
}

/// Whether memo `m` causally descends from memo `target` in the store `s`:
/// the search follows at most as many links as the store has entries, which
/// bounds it on a graph with cycles too.
pub open spec fn descends_in(s: Store, m: Memo, target: MemoId) -> bool {
    descends_within(s, m.parents_view(), target, s.len())
}

/// Whether memo `m` adds nothing to the frontier `head`: it is already there,
/// or some resident member of the frontier descends from it.
pub open spec fn dominated(s: Store, head: Seq<MemoId>, m: Memo) -> bool {
    exists|i: int|
        0 <= i < head.len() && (#[trigger] head[i] == m.id || (is_resident_in(s, head[i])
            && descends_in(s, s[head[i]].memo.unwrap(), m.id)))
}

/// The members of `head` that `m` does not descend from, in order.
pub open spec fn prune(s: Store, head: Seq<MemoId>, m: Memo) -> Seq<MemoId>
    decreases head.len(),
{
    if head.len() == 0 {
        head
    } else if descends_in(s, m, head.last()) {
        prune(s, head.drop_last(), m)
    } else {
        prune(s, head.drop_last(), m).push(head.last())
    }
}

/// The frontier after learning memo `m`: unchanged when `m` is dominated;
/// otherwise every member that `m` descends from leaves, and `m` joins at
/// the end.
pub open spec fn head_after(s: Store, head: Seq<MemoId>, m: Memo) -> Seq<MemoId> {
    if dominated(s, head, m) {
        head
    } else {
        prune(s, head, m).push(m.id)
    }
}

/// A deeper search finds every ancestor a shallower one finds.
pub proof fn lemma_descends_monotone(
    s: Store,
    parents: Seq<MemoId>,
    target: MemoId,
    d1: nat,
    d2: nat,
)
    requires
        d1 <= d2,
        descends_within(s, parents, target, d1),
    ensures
        descends_within(s, parents, target, d2),
    decreases d1,
{
    let i = choose|i: int|
        0 <= i < parents.len() && (#[trigger] parents[i] == target || (d1 > 0 && s.contains_key(
            parents[i],
        ) && s[parents[i]].memo is Some && descends_within(
            s,
            s[parents[i]].memo.unwrap().parents_view(),
            target,
            (d1 - 1) as nat,
        )));
    if parents[i] != target {
        lemma_descends_monotone(
            s,
            s[parents[i]].memo.unwrap().parents_view(),
            target,
            (d1 - 1) as nat,
            (d2 - 1) as nat,
        );
    }
}

/// Causal ancestry along a chain `a <- b <- c`, with `b` resident in the
/// store and `a` at the root: `c` descends from `a`, while `a` descends from
/// neither `c` nor itself.
pub proof fn lemma_chain_ancestry(s: Store, a: Memo, b: Memo, c: Memo)
    requires
        s.dom().finite(),
        b.parents_view().contains(a.id),
        c.parents_view().contains(b.id),
        s.contains_key(b.id),
        s[b.id].memo == Some(b),
        a.parents_view().len() == 0,
    ensures
        descends_in(s, c, a.id),
        !descends_in(s, a, c.id),
        !descends_in(s, a, a.id),
{
    assert(s.dom().remove(b.id).len() == s.dom().len() - 1);
    let d = s.len();
    assert(d >= 1);
    assert(descends_within(s, b.parents_view(), a.id, (d - 1) as nat));
    let ib = choose|i: int| 0 <= i < c.parents_view().len() && c.parents_view()[i] == b.id;
    assert(c.parents_view()[ib] == b.id);
}

/// The chain law for the memos of a slab: with `b` resident there, `c`
/// descends from `a`, while `a`, at the root, descends from neither `c` nor
/// itself.
pub proof fn lemma_chain_ancestry_in_slab(slab: &Slab, a: Memo, b: Memo, c: Memo)
    requires
        slab.wf(),
        b.parents_view().contains(a.id),
        c.parents_view().contains(b.id),
        slab.store().contains_key(b.id),
        slab.store()[b.id].memo == Some(b),
        a.parents_view().len() == 0,
    ensures
        descends_in(slab.store(), c, a.id),
        !descends_in(slab.store(), a, c.id),
        !descends_in(slab.store(), a, a.id),
{
    assert(slab.memorefs_by_id@.dom().finite());
    assert(slab.store().dom() =~= slab.memorefs_by_id@.dom());
    lemma_chain_ancestry(slab.store(), a, b, c);
}

impl Slab {
    /// Searches the ancestry of `parents` for `target`: the parents
    /// themselves first, then the ancestry of each in turn.
    fn ancestry_contains(&self, parents: &Vec<MemoId>, target: MemoId, depth: usize) -> (r: bool)
        requires
            self.wf(),
        ensures
            r == descends_within(self.store(), parents@, target, depth as nat),
        decreases depth,
    {
        let n = parents.len();
        let mut i: usize = 0;
        while i < n
            invariant
                n == parents@.len(),
                i <= n,
                forall|j: int| 0 <= j < i ==> parents@[j] != target,
            decreases n - i,
        {
            if parents[i] == target {
                assert(0 <= i < parents@.len() && parents@[i as int] == target);
                return true;
            }
            i = i + 1;
        }
        if depth == 0 {
            return false;
        }
        let ghost s = self.store();
        let mut i: usize = 0;
        while i < n
            invariant
                n == parents@.len(),
                i <= n,
                s == self.store(),
                self.wf(),
                depth > 0,
                forall|j: int| 0 <= j < n ==> parents@[j] != target,
                forall|j: int|
                    0 <= j < i ==> !(s.contains_key(#[trigger] parents@[j]) && s[parents@[j]].memo is Some
                        && descends_within(
                        s,
                        s[parents@[j]].memo.unwrap().parents_view(),
                        target,
                        (depth - 1) as nat,
                    )),
            decreases n - i,
        {
            let p = parents[i];
            match self.memorefs_by_id.get(&p) {
                Some(mr) => {
                    assert(s.contains_key(p) && s[p] == mr@);
                    match mr.get_memo_if_resident() {
                        Some(m) => {
                            if self.ancestry_contains(&m.inner.parents.0, target, depth - 1) {
                                assert(s.contains_key(parents@[i as int]));
                                return true;
                            }
                        },
                        None => {},
                    }
                },
                None => {},
            }
            i = i + 1;
        }
        false
    }
}

impl Slab {
    /// The frontier `head` after learning `memo`, by the ancestry that this
    /// slab's resident memos show: members that `memo` supersedes are pruned,
    /// and `memo` joins unless it is already there or superseded itself.
    pub fn apply_memo_to_head(&self, head: &MemoRefHead, memo: &Memo) -> (r: MemoRefHead)
        requires
            self.wf(),
        ensures
            r@ == head_after(self.store(), head@, *memo),
    {
        assert(self.store().dom() =~= self.memorefs_by_id@.dom());
        let depth = self.memorefs_by_id.len();
        let ghost s = self.store();
        let h = &head.0;
        let n = h.len();
        let mut i: usize = 0;
        while i < n
            invariant
                n == h@.len(),
                head@ == h@,
                i <= n,
                depth == s.len(),
                s == self.store(),
                self.wf(),
                forall|j: int|
                    0 <= j < i ==> !(#[trigger] h@[j] == memo.id || (is_resident_in(s, h@[j])
                        && descends_in(s, s[h@[j]].memo.unwrap(), memo.id))),
            decreases n - i,
        {
            let e = h[i];
            if e == memo.id {
                assert(h@[i as int] == memo.id);
                assert(dominated(s, head@, *memo));
                return MemoRefHead(copy_head(h));
            }
            match self.memorefs_by_id.get(&e) {
                Some(mr) => {
                    assert(s.contains_key(e) && s[e] == mr@);
                    match mr.get_memo_if_resident() {
                        Some(m) => {
                            if self.ancestry_contains(&m.inner.parents.0, memo.id, depth) {
                                assert(is_resident_in(s, h@[i as int]));
                                assert(h@[i as int] == memo.id || (is_resident_in(s, h@[i as int])
                                    && descends_in(s, s[h@[i as int]].memo.unwrap(), memo.id)));
                                assert(dominated(s, head@, *memo));
                                return MemoRefHead(copy_head(h));
                            }
                        },
                        None => {},
                    }
                },
                None => {},
            }
            i = i + 1;
        }
        assert(!dominated(s, h@, *memo));
        let mut kept: Vec<MemoId> = Vec::new();
        let mut i: usize = 0;
        while i < n
            invariant
                n == h@.len(),
                head@ == h@,
                i <= n,
                depth == s.len(),
                s == self.store(),
                self.wf(),
                kept@ == prune(s, h@.take(i as int), *memo),
            decreases n - i,
        {
            assert(h@.take(i + 1).drop_last() =~= h@.take(i as int));
            if !self.ancestry_contains(&memo.inner.parents.0, h[i], depth) {
                kept.push(h[i]);
            }
            i = i + 1;
        }
        assert(h@.take(n as int) =~= h@);
        kept.push(memo.id);
        MemoRefHead(kept)
    }
}

fn copy_head(h: &Vec<MemoId>) -> (r: Vec<MemoId>)
    ensures
        r@ == h@,
{
    let mut r: Vec<MemoId> = Vec::new();
    let mut i: usize = 0;
    while i < h.len()
        invariant
            i <= h@.len(),
            r@ == h@.take(i as int),
        decreases h@.len() - i,
    {
        r.push(h[i]);
        assert(r@ =~= h@.take(i + 1));
        i = i + 1;
    }
    assert(r@ =~= h@);
    r
}

impl Memo {
    /// Whether `memoref` is a causal ancestor of this memo, as far as the
    /// memos resident in `slab` show. A memo does not descend from itself
    /// unless the graph has a cycle.
    pub fn descends(&self, memoref: &MemoRef, slab: &Slab) -> (r: bool)
        requires
            slab.wf(),
        ensures
            r == descends_in(slab.store(), *self, memoref.id),
    {
        assert(slab.store().dom() =~= slab.memorefs_by_id@.dom());
        let depth = slab.memorefs_by_id.len();
        slab.ancestry_contains(&self.inner.parents.0, memoref.id, depth)
    }
}

} // verus!
