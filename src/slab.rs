//! The slab: one node's store of memo references, its subscriptions and peers.
use crate::memo::{Memo, MemoId, MemoPeer, MemoPeeringStatus, SlabId, SlabRef, SubjectId};
use crate::memoref::{ledger_set, MemoRef, MemoRefPtr, MemoRefView};
use std::collections::HashMap;
use vstd::prelude::*;

verus! {

broadcast use vstd::std_specs::hash::group_hash_axioms;

pub type ContextId = u64;

/// A slab's memory: memo references by id, as mathematical values.
pub type Store = Map<MemoId, MemoRefView>;

/// Each reference is filed under its own id, and a resident memo carries that id.
pub open spec fn store_wf(s: Store) -> bool {
    forall|k: MemoId|
        #[trigger] s.contains_key(k) ==> s[k].id == k && (s[k].memo matches Some(m) ==> m.id == k)
}

pub open spec fn is_resident_in(s: Store, id: MemoId) -> bool {
    s.contains_key(id) && s[id].memo.is_some()
}

/// The store after receiving one memo: a memo that is already resident is
/// left alone; otherwise it becomes resident, keeping any peering ledger
/// that a remote reference to it had gathered.
pub open spec fn put_one(s: Store, m: Memo) -> Store {
    if is_resident_in(s, m.id) {
        s
    } else {
        s.insert(
            m.id,
            MemoRefView {
                id: m.id,
                subject_id: m.subject_id,
                peers: if s.contains_key(m.id) {
                    s[m.id].peers
                } else {
                    Seq::empty()
                },
                memo: Some(m),
            },
        )
    }
}

/// The store after receiving `ms` in order.
pub open spec fn store_after(s: Store, ms: Seq<Memo>) -> Store
    decreases ms.len(),
{
    if ms.len() == 0 {
        s
    } else {
        put_one(store_after(s, ms.drop_last()), ms.last())
    }
}

/// The memos of `ms` that became resident on receipt, in order: those that
/// are dispatched to subscribers.
pub open spec fn fresh_memos(s: Store, ms: Seq<Memo>) -> Seq<Memo>
    decreases ms.len(),
{
    if ms.len() == 0 {
        Seq::empty()
    } else if is_resident_in(store_after(s, ms.drop_last()), ms.last().id) {
        fresh_memos(s, ms.drop_last())
    } else {
        fresh_memos(s, ms.drop_last()).push(ms.last())
    }
}

/// A batch of memo ids of one subject, in order of receipt.
pub type Group = (Option<SubjectId>, Seq<MemoId>);

/// The batches after adding memo `m` to the batch of its subject, or to a
/// new batch at the end when its subject has none yet.
pub open spec fn add_to_groups(g: Seq<Group>, m: Memo) -> Seq<Group> {
    if exists|i: int| 0 <= i < g.len() && g[i].0 == m.subject_id {
        Seq::new(
            g.len(),
            |i: int|
                if g[i].0 == m.subject_id {
                    (g[i].0, g[i].1.push(m.id))
                } else {
                    g[i]
                },
        )
    } else {
        g.push((m.subject_id, seq![m.id]))
    }
}

/// The ids of `ms` grouped by subject, subjects in order of first appearance.
pub open spec fn group_by_subject_spec(ms: Seq<Memo>) -> Seq<Group>
    decreases ms.len(),
{
    if ms.len() == 0 {
        Seq::empty()
    } else {
        add_to_groups(group_by_subject_spec(ms.drop_last()), ms.last())
    }
}

/// The contexts subscribed to subject `k`: none for a memo without subject.
pub open spec fn subscribers_of(subs: Map<SubjectId, Seq<ContextId>>, k: Option<SubjectId>) -> Seq<
    ContextId,
> {
    match k {
        Some(id) => if subs.contains_key(id) {
            subs[id]
        } else {
            Seq::empty()
        },
        None => Seq::empty(),
    }
}

/// The store after demoting one memo to remote: its body is dropped, its
/// ledger kept.
pub open spec fn remotize_one(s: Store, id: MemoId) -> Store {
    if s.contains_key(id) {
        s.insert(id, MemoRefView { memo: None, ..s[id] })
    } else {
        s
    }
}

pub open spec fn remotize_all(s: Store, ids: Seq<MemoId>) -> Store
    decreases ids.len(),
{
    if ids.len() == 0 {
        s
    } else {
        remotize_one(remotize_all(s, ids.drop_last()), ids.last())
    }
}

/// `s` with every occurrence of `c` taken out.
pub open spec fn without(s: Seq<ContextId>, c: ContextId) -> Seq<ContextId>
    decreases s.len(),
{
    if s.len() == 0 {
        s
    } else if s.last() == c {
        without(s.drop_last(), c)
    } else {
        without(s.drop_last(), c).push(s.last())
    }
}

/// The combined id of the `counter`th item made by slab `slab_id`: the slab id
/// in the high 32 bits, the counter in the low 32.
pub open spec fn combined_id(slab_id: SlabId, counter: u32) -> int {
    slab_id as int * 0x1_0000_0000 + counter as int
}

/// How many peers each memo is pushed to.
pub const PEERING_TARGET: u8 = 5;

pub struct Slab {
    pub id: SlabId,
    pub memorefs_by_id: HashMap<MemoId, MemoRef>,
    pub subject_subscriptions: HashMap<SubjectId, Vec<ContextId>>,
    pub last_memo_id: u32,
    pub last_subject_id: u32,
    pub last_context_id: u32,
    pub peer_refs: Vec<SlabRef>,
    pub inbound: Vec<Memo>,
}

/// A batch of newly stored memos of one subject, and the contexts it is
/// handed to.
pub struct Dispatch {
    pub subject_id: Option<SubjectId>,
    pub memo_ids: Vec<MemoId>,
    pub contexts: Vec<ContextId>,
}

/// A batch of memo ids of one subject.
pub struct SubjectBatch {
    pub subject_id: Option<SubjectId>,
    pub memo_ids: Vec<MemoId>,
}

pub open spec fn batches_view(b: Seq<SubjectBatch>) -> Seq<Group> {
    b.map_values(|x: SubjectBatch| (x.subject_id, x.memo_ids@))
}

pub open spec fn dispatches_view(d: Seq<Dispatch>) -> Seq<(Option<SubjectId>, Seq<MemoId>, Seq<ContextId>)> {
    d.map_values(|x: Dispatch| (x.subject_id, x.memo_ids@, x.contexts@))
}

/// What receiving a batch hands out: each subject's batch of newly stored
/// memos, with the contexts subscribed to that subject.
pub open spec fn dispatch_plan(subs: Map<SubjectId, Seq<ContextId>>, fresh: Seq<Memo>) -> Seq<(Option<SubjectId>, Seq<MemoId>, Seq<ContextId>)> {
    group_by_subject_spec(fresh).map_values(|g: Group| (g.0, g.1, subscribers_of(subs, g.0)))
}

/// A memo to be sent to a peer slab.
pub struct Transmission {
    pub to_slab_id: SlabId,
    pub memo: Memo,
}

/// What `emit_memos` sends: each memo in turn, to each of `targets`.
pub open spec fn emitted(ms: Seq<Memo>, targets: Seq<SlabId>) -> Seq<(SlabId, Memo)>
    decreases ms.len(),
{
    if ms.len() == 0 {
        Seq::empty()
    } else {
        emitted(ms.drop_last(), targets) + targets.map_values(|t: SlabId| (t, ms.last()))
    }
}

impl Slab {
    pub open spec fn store(&self) -> Store {
        self.memorefs_by_id@.map_values(|r: MemoRef| r@)
    }

    pub open spec fn subscriptions(&self) -> Map<SubjectId, Seq<ContextId>> {
        self.subject_subscriptions@.map_values(|v: Vec<ContextId>| v@)
    }

    pub open spec fn memo_counter(&self) -> u32 {
        self.last_memo_id
    }

    pub open spec fn subject_counter(&self) -> u32 {
        self.last_subject_id
    }

    pub open spec fn context_counter(&self) -> u32 {
        self.last_context_id
    }

    /// The ids of the peer slabs, in the order they were added.
    pub open spec fn peers(&self) -> Seq<SlabId> {
        self.peer_refs@.map_values(|p: SlabRef| p.slab_id)
    }

    /// Memos handed in from elsewhere and not yet delivered.
    pub open spec fn pending(&self) -> Seq<Memo> {
        self.inbound@
    }

    pub open spec fn wf(&self) -> bool {
        store_wf(self.store())
    }

    pub fn new_with_id(id: SlabId) -> (r: Slab)
        ensures
            r.wf(),
            r.id == id,
            r.store() == Store::empty(),
            r.subscriptions() == Map::<SubjectId, Seq<ContextId>>::empty(),
            r.peers() == Seq::<SlabId>::empty(),
            r.pending() == Seq::<Memo>::empty(),
            r.memo_counter() == 0,
            r.subject_counter() == 0,
            r.context_counter() == 0,
    {
        let r = Slab {
            id,
            memorefs_by_id: HashMap::new(),
            subject_subscriptions: HashMap::new(),
            last_memo_id: 0,
            last_subject_id: 0,
            last_context_id: 0,
            peer_refs: Vec::new(),
            inbound: Vec::new(),
        };
        assert(r.store() =~= Store::empty());
        assert(r.subscriptions() =~= Map::<SubjectId, Seq<ContextId>>::empty());
        assert(r.peers() =~= Seq::<SlabId>::empty());
        r
    }

    /// The size of the local store: every memo reference held, remote ones
    /// included.
    pub fn count_of_memorefs_resident(&self) -> (r: usize)
        ensures
            r == self.store().len(),
    {
        assert(self.store().dom() =~= self.memorefs_by_id@.dom());
        self.memorefs_by_id.len()
    }

    /// Whether the body of memo `id` is held here.
    pub fn is_memo_resident(&self, id: MemoId) -> (r: bool)
        ensures
            r == is_resident_in(self.store(), id),
    {
        match self.memorefs_by_id.get(&id) {
            Some(mr) => mr.is_resident(),
            None => false,
        }
    }

    /// Stores each memo that is not already resident, in order, and returns
    /// those it stored.
    fn store_memos(&mut self, memos: Vec<Memo>) -> (r: Vec<Memo>)
        requires
            old(self).wf(),
        ensures
            final(self).wf(),
            final(self).store() == store_after(old(self).store(), memos@),
            r@ == fresh_memos(old(self).store(), memos@),
            final(self).id == old(self).id,
            final(self).subject_subscriptions == old(self).subject_subscriptions,
            final(self).peer_refs == old(self).peer_refs,
            final(self).inbound == old(self).inbound,
            final(self).last_memo_id == old(self).last_memo_id,
            final(self).last_subject_id == old(self).last_subject_id,
            final(self).last_context_id == old(self).last_context_id,
    {
        let ghost s0 = self.store();
        let mut stored: Vec<Memo> = Vec::new();
        let n = memos.len();
        let mut i: usize = 0;
        while i < n
            invariant
                n == memos@.len(),
                i <= n,
                self.wf(),
                self.store() == store_after(s0, memos@.take(i as int)),
                stored@ == fresh_memos(s0, memos@.take(i as int)),
                self.id == old(self).id,
                self.subject_subscriptions == old(self).subject_subscriptions,
                self.peer_refs == old(self).peer_refs,
                self.inbound == old(self).inbound,
                self.last_memo_id == old(self).last_memo_id,
                self.last_subject_id == old(self).last_subject_id,
                self.last_context_id == old(self).last_context_id,
            decreases n - i,
        {
            let memo = memos[i].share();
            let ghost before = self.store();
            proof {
                assert(memos@.take(i + 1).drop_last() =~= memos@.take(i as int));
                assert(memos@.take(i + 1).last() == memo);
            }
            let resident = self.is_memo_resident(memo.id);
            if !resident {
                let id = memo.id;
                stored.push(memo.share());
                let prior = self.memorefs_by_id.remove(&id);
                let mr = match prior {
                    Some(p) => MemoRef {
                        id,
                        subject_id: memo.subject_id,
                        peers: p.peers,
                        ptr: MemoRefPtr::Resident(memo),
                    },
                    None => MemoRef::new_from_memo(&memo),
                };
                self.memorefs_by_id.insert(id, mr);
                assert(self.store() =~= put_one(before, memos@.take(i + 1).last()));
            }
            i = i + 1;
        }
        assert(memos@.take(n as int) =~= memos@);
        stored
    }

    /// Stores each memo that is not already resident, in order; then hands
    /// the newly stored ones, grouped by subject, to the contexts subscribed
    /// to that subject. A memo already resident is neither stored again nor
    /// handed out again.
    pub fn put_memos(&mut self, memos: Vec<Memo>) -> (r: Vec<Dispatch>)
        requires
            old(self).wf(),
        ensures
            final(self).wf(),
            final(self).store() == store_after(old(self).store(), memos@),
            dispatches_view(r@) == dispatch_plan(
                old(self).subscriptions(),
                fresh_memos(old(self).store(), memos@),
            ),
            final(self).id == old(self).id,
            final(self).subject_subscriptions == old(self).subject_subscriptions,
            final(self).peer_refs == old(self).peer_refs,
            final(self).inbound == old(self).inbound,
            final(self).last_memo_id == old(self).last_memo_id,
            final(self).last_subject_id == old(self).last_subject_id,
            final(self).last_context_id == old(self).last_context_id,
    {
        let stored = self.store_memos(memos);
        let groups = group_by_subject(&stored);
        let mut out: Vec<Dispatch> = Vec::new();
        let n = groups.len();
        let mut i: usize = 0;
        while i < n
            invariant
                n == groups@.len(),
                i <= n,
                batches_view(groups@) == group_by_subject_spec(stored@),
                self.subject_subscriptions == old(self).subject_subscriptions,
                dispatches_view(out@) == batches_view(groups@).take(i as int).map_values(
                    |g: Group| (g.0, g.1, subscribers_of(self.subscriptions(), g.0)),
                ),
            decreases n - i,
        {
            let g = &groups[i];
            let contexts = match g.subject_id {
                Some(subject_id) => self.dispatch_subject_memorefs(subject_id),
                None => Vec::new(),
            };
            let ids = copy_ids(&g.memo_ids);
            let ghost prev = out@;
            let d = Dispatch { subject_id: g.subject_id, memo_ids: ids, contexts };
            out.push(d);
            assert(out@ =~= prev.push(d));
            assert(dispatches_view(out@) =~= dispatches_view(prev).push(
                (d.subject_id, d.memo_ids@, d.contexts@),
            ));
            assert(batches_view(groups@).take(i + 1) =~= batches_view(groups@).take(i as int).push(
                batches_view(groups@)[i as int],
            ));
            assert(dispatches_view(out@) =~= batches_view(groups@).take(i + 1).map_values(
                |g: Group| (g.0, g.1, subscribers_of(self.subscriptions(), g.0)),
            ));
            i = i + 1;
        }
        assert(batches_view(groups@).take(n as int) =~= batches_view(groups@));
        out
    }

    /// A new memo id, unique over the network: this slab's id in the high
    /// bits and a fresh counter in the low bits.
    pub fn gen_memo_id(&mut self) -> (r: u64)
        requires
            old(self).last_memo_id < u32::MAX,
        ensures
            final(self).last_memo_id == old(self).last_memo_id + 1,
            r as int == combined_id(old(self).id, final(self).last_memo_id),
            final(self).id == old(self).id,
            final(self).memorefs_by_id == old(self).memorefs_by_id,
            final(self).subject_subscriptions == old(self).subject_subscriptions,
            final(self).peer_refs == old(self).peer_refs,
            final(self).inbound == old(self).inbound,
            final(self).last_subject_id == old(self).last_subject_id,
            final(self).last_context_id == old(self).last_context_id,
    {
        self.last_memo_id = self.last_memo_id + 1;
        combine_ids(self.id, self.last_memo_id)
    }

    /// A new subject id, unique over the network, made as memo ids are.
    pub fn generate_subject_id(&mut self) -> (r: u64)
        requires
            old(self).last_subject_id < u32::MAX,
        ensures
            final(self).last_subject_id == old(self).last_subject_id + 1,
            r as int == combined_id(old(self).id, final(self).last_subject_id),
            final(self).id == old(self).id,
            final(self).memorefs_by_id == old(self).memorefs_by_id,
            final(self).subject_subscriptions == old(self).subject_subscriptions,
            final(self).peer_refs == old(self).peer_refs,
            final(self).inbound == old(self).inbound,
            final(self).last_memo_id == old(self).last_memo_id,
            final(self).last_context_id == old(self).last_context_id,
    {
        self.last_subject_id = self.last_subject_id + 1;
        combine_ids(self.id, self.last_subject_id)
    }

    /// A new context of this slab, told apart from its others by its id.
    pub fn create_context(&mut self) -> (r: ContextId)
        requires
            old(self).last_context_id < u32::MAX,
        ensures
            final(self).last_context_id == old(self).last_context_id + 1,
            r == final(self).last_context_id as u64,
            final(self).id == old(self).id,
            final(self).memorefs_by_id == old(self).memorefs_by_id,
            final(self).subject_subscriptions == old(self).subject_subscriptions,
            final(self).peer_refs == old(self).peer_refs,
            final(self).inbound == old(self).inbound,
            final(self).last_memo_id == old(self).last_memo_id,
            final(self).last_subject_id == old(self).last_subject_id,
    {
        self.last_context_id = self.last_context_id + 1;
        self.last_context_id as u64
    }

    pub fn add_peer(&mut self, new_peer_ref: SlabRef)
        ensures
            final(self).peer_refs@ == old(self).peer_refs@.push(new_peer_ref),
            final(self).peers() == old(self).peers().push(new_peer_ref.slab_id),
            final(self).id == old(self).id,
            final(self).memorefs_by_id == old(self).memorefs_by_id,
            final(self).subject_subscriptions == old(self).subject_subscriptions,
            final(self).inbound == old(self).inbound,
            final(self).last_memo_id == old(self).last_memo_id,
            final(self).last_subject_id == old(self).last_subject_id,
            final(self).last_context_id == old(self).last_context_id,
    {
        self.peer_refs.push(new_peer_ref);
        assert(self.peers() =~= old(self).peers().push(new_peer_ref.slab_id));
    }

    pub fn peer_slab_count(&self) -> (r: usize)
        ensures
            r == self.peers().len(),
    {
        self.peer_refs.len()
    }

    /// Adds `context` to the listeners of `subject_id`.
    pub fn subscribe_subject(&mut self, subject_id: SubjectId, context: ContextId)
        ensures
            final(self).subscriptions() == old(self).subscriptions().insert(
                subject_id,
                if old(self).subscriptions().contains_key(subject_id) {
                    old(self).subscriptions()[subject_id].push(context)
                } else {
                    seq![context]
                },
            ),
            final(self).id == old(self).id,
            final(self).memorefs_by_id == old(self).memorefs_by_id,
            final(self).peer_refs == old(self).peer_refs,
            final(self).inbound == old(self).inbound,
            final(self).last_memo_id == old(self).last_memo_id,
            final(self).last_subject_id == old(self).last_subject_id,
            final(self).last_context_id == old(self).last_context_id,
    {
        let prior = self.subject_subscriptions.remove(&subject_id);
        let subs = match prior {
            Some(v) => {
                let mut v = v;
                v.push(context);
                v
            },
            None => {
                let mut v: Vec<ContextId> = Vec::new();
                v.push(context);
                assert(v@ =~= seq![context]);
                v
            },
        };
        assert(subs@ == if old(self).subscriptions().contains_key(subject_id) {
            old(self).subscriptions()[subject_id].push(context)
        } else {
            seq![context]
        });
        self.subject_subscriptions.insert(subject_id, subs);
        assert(self.subscriptions() =~= old(self).subscriptions().insert(
            subject_id,
            if old(self).subscriptions().contains_key(subject_id) {
                old(self).subscriptions()[subject_id].push(context)
            } else {
                seq![context]
            },
        ));
    }

    /// Removes every subscription of `context` to `subject_id`.
    pub fn unsubscribe_subject(&mut self, subject_id: SubjectId, context: ContextId)
        ensures
            final(self).subscriptions() == if old(self).subscriptions().contains_key(subject_id) {
                old(self).subscriptions().insert(
                    subject_id,
                    without(old(self).subscriptions()[subject_id], context),
                )
            } else {
                old(self).subscriptions()
            },
            final(self).id == old(self).id,
            final(self).memorefs_by_id == old(self).memorefs_by_id,
            final(self).peer_refs == old(self).peer_refs,
            final(self).inbound == old(self).inbound,
            final(self).last_memo_id == old(self).last_memo_id,
            final(self).last_subject_id == old(self).last_subject_id,
            final(self).last_context_id == old(self).last_context_id,
    {
        let prior = self.subject_subscriptions.remove(&subject_id);
        match prior {
            Some(v) => {
                let mut kept: Vec<ContextId> = Vec::new();
                let n = v.len();
                let mut i: usize = 0;
                while i < n
                    invariant
                        n == v@.len(),
                        i <= n,
                        kept@ == without(v@.take(i as int), context),
                    decreases n - i,
                {
                    assert(v@.take(i + 1).drop_last() =~= v@.take(i as int));
                    if v[i] != context {
                        kept.push(v[i]);
                    }
                    i = i + 1;
                }
                assert(v@.take(n as int) =~= v@);
                self.subject_subscriptions.insert(subject_id, kept);
                assert(self.subscriptions() =~= old(self).subscriptions().insert(
                    subject_id,
                    without(old(self).subscriptions()[subject_id], context),
                ));
            },
            None => {
                assert(self.subscriptions() =~= old(self).subscriptions());
            },
        }
    }

    /// Demotes each listed memo to remote: its body is dropped here, so a
    /// later read has to fetch it from a peer. The ledger is kept.
    pub fn remotize_memo_ids(&mut self, memo_ids: &[MemoId])
        requires
            old(self).wf(),
        ensures
            final(self).wf(),
            final(self).store() == remotize_all(old(self).store(), memo_ids@),
            final(self).id == old(self).id,
            final(self).subject_subscriptions == old(self).subject_subscriptions,
            final(self).peer_refs == old(self).peer_refs,
            final(self).inbound == old(self).inbound,
            final(self).last_memo_id == old(self).last_memo_id,
            final(self).last_subject_id == old(self).last_subject_id,
            final(self).last_context_id == old(self).last_context_id,
    {
        let ghost s0 = self.store();
        let n = memo_ids.len();
        let mut i: usize = 0;
        while i < n
            invariant
                n == memo_ids@.len(),
                i <= n,
                self.wf(),
                self.store() == remotize_all(s0, memo_ids@.take(i as int)),
                self.id == old(self).id,
                self.subject_subscriptions == old(self).subject_subscriptions,
                self.peer_refs == old(self).peer_refs,
                self.inbound == old(self).inbound,
                self.last_memo_id == old(self).last_memo_id,
                self.last_subject_id == old(self).last_subject_id,
                self.last_context_id == old(self).last_context_id,
            decreases n - i,
        {
            let id = memo_ids[i];
            let ghost before = self.store();
            assert(memo_ids@.take(i + 1).drop_last() =~= memo_ids@.take(i as int));
            let prior = self.memorefs_by_id.remove(&id);
            match prior {
                Some(p) => {
                    let mr = MemoRef {
                        id: p.id,
                        subject_id: p.subject_id,
                        peers: p.peers,
                        ptr: MemoRefPtr::Remote,
                    };
                    self.memorefs_by_id.insert(id, mr);
                    assert(self.store() =~= remotize_one(before, id));
                },
                None => {
                    assert(self.store() =~= remotize_one(before, id));
                },
            }
            i = i + 1;
        }
        assert(memo_ids@.take(n as int) =~= memo_ids@);
    }

    /// Makes memo `memo_id` resident again from `fetched`, the copy that a
    /// peer supplied, if any. Fails, leaving the store as it was, when the
    /// slab holds no reference to that memo, or when it is remote and no
    /// copy of it was supplied.
    pub fn localize_memo(&mut self, memo_id: MemoId, fetched: Option<Memo>) -> (r: Result<
        Memo,
        String,
    >)
        requires
            old(self).wf(),
        ensures
            final(self).wf(),
            final(self).id == old(self).id,
            final(self).subject_subscriptions == old(self).subject_subscriptions,
            final(self).peer_refs == old(self).peer_refs,
            final(self).inbound == old(self).inbound,
            final(self).last_memo_id == old(self).last_memo_id,
            final(self).last_subject_id == old(self).last_subject_id,
            final(self).last_context_id == old(self).last_context_id,
            is_resident_in(old(self).store(), memo_id) ==> final(self).store() == old(
                self,
            ).store() && r == Ok::<Memo, String>(old(self).store()[memo_id].memo.unwrap()),
            !is_resident_in(old(self).store(), memo_id) ==> match fetched {
                Some(m) if m.id == memo_id && old(self).store().contains_key(memo_id) => {
                    &&& final(self).store() == old(self).store().insert(
                        memo_id,
                        MemoRefView { memo: Some(m), ..old(self).store()[memo_id] },
                    )
                    &&& r == Ok::<Memo, String>(m)
                },
                _ => {
                    &&& final(self).store() == old(self).store()
                    &&& r matches Err(e) && e@ == "unable to localize memo"@
                },
            },
    {
        match self.memorefs_by_id.get(&memo_id) {
            Some(mr) => {
                match mr.get_memo_if_resident() {
                    Some(m) => {
                        return Ok(m.share());
                    },
                    None => {},
                }
            },
            None => {
                return Err(unable_to_localize());
            },
        }
        match fetched {
            Some(m) => {
                if m.id != memo_id {
                    return Err(unable_to_localize());
                }
                let prior = self.memorefs_by_id.remove(&memo_id);
                match prior {
                    Some(p) => {
                        let mr = MemoRef {
                            id: p.id,
                            subject_id: p.subject_id,
                            peers: p.peers,
                            ptr: MemoRefPtr::Resident(m.share()),
                        };
                        self.memorefs_by_id.insert(memo_id, mr);
                        assert(self.store() =~= old(self).store().insert(
                            memo_id,
                            MemoRefView { memo: Some(m), ..old(self).store()[memo_id] },
                        ));
                        Ok(m)
                    },
                    None => Err(unable_to_localize()),
                }
            },
            None => Err(unable_to_localize()),
        }
    }

    /// Records in the ledger of memo `memo_id` that peer `slab_id` has `status`.
    /// Nothing changes when the slab holds no reference to that memo.
    pub fn set_peer_status(&mut self, memo_id: MemoId, slab_id: SlabId, status: MemoPeeringStatus)
        requires
            old(self).wf(),
        ensures
            final(self).wf(),
            final(self).store() == if old(self).store().contains_key(memo_id) {
                old(self).store().insert(
                    memo_id,
                    MemoRefView {
                        peers: ledger_set(
                            old(self).store()[memo_id].peers,
                            MemoPeer { slab_id, status },
                        ),
                        ..old(self).store()[memo_id]
                    },
                )
            } else {
                old(self).store()
            },
            final(self).id == old(self).id,
            final(self).subject_subscriptions == old(self).subject_subscriptions,
            final(self).peer_refs == old(self).peer_refs,
            final(self).inbound == old(self).inbound,
            final(self).last_memo_id == old(self).last_memo_id,
            final(self).last_subject_id == old(self).last_subject_id,
            final(self).last_context_id == old(self).last_context_id,
    {
        let prior = self.memorefs_by_id.remove(&memo_id);
        match prior {
            Some(p) => {
                let mut p = p;
                p.set_peer_status(slab_id, status);
                self.memorefs_by_id.insert(memo_id, p);
                assert(self.store() =~= old(self).store().insert(
                    memo_id,
                    MemoRefView {
                        peers: ledger_set(
                            old(self).store()[memo_id].peers,
                            MemoPeer { slab_id, status },
                        ),
                        ..old(self).store()[memo_id]
                    },
                ));
            },
            None => {
                assert(self.store() =~= old(self).store());
            },
        }
    }

    /// Queues a memo for the next `deliver_all_memos`.
    pub fn enqueue_memo(&mut self, memo: Memo)
        ensures
            final(self).inbound@ == old(self).inbound@.push(memo),
            final(self).id == old(self).id,
            final(self).memorefs_by_id == old(self).memorefs_by_id,
            final(self).subject_subscriptions == old(self).subject_subscriptions,
            final(self).peer_refs == old(self).peer_refs,
            final(self).last_memo_id == old(self).last_memo_id,
            final(self).last_subject_id == old(self).last_subject_id,
            final(self).last_context_id == old(self).last_context_id,
    {
        self.inbound.push(memo);
    }

    /// Stores every queued memo, in the order they were queued, and empties
    /// the queue. Hands out the newly stored memos as `put_memos` does.
    pub fn deliver_all_memos(&mut self) -> (r: Vec<Dispatch>)
        requires
            old(self).wf(),
        ensures
            final(self).wf(),
            final(self).store() == store_after(old(self).store(), old(self).inbound@),
            dispatches_view(r@) == dispatch_plan(
                old(self).subscriptions(),
                fresh_memos(old(self).store(), old(self).inbound@),
            ),
            final(self).inbound@ == Seq::<Memo>::empty(),
            final(self).id == old(self).id,
            final(self).subject_subscriptions == old(self).subject_subscriptions,
            final(self).peer_refs == old(self).peer_refs,
            final(self).last_memo_id == old(self).last_memo_id,
            final(self).last_subject_id == old(self).last_subject_id,
            final(self).last_context_id == old(self).last_context_id,
    {
        let mut queued: Vec<Memo> = Vec::new();
        std::mem::swap(&mut queued, &mut self.inbound);
        assert(self.store() == old(self).store());
        self.put_memos(queued)
    }

    /// Each memo in turn, pushed to as many of the first peers as the
    /// peering target asks for.
    pub fn emit_memos(&self, memos: &Vec<Memo>) -> (r: Vec<Transmission>)
        ensures
            r@.map_values(|t: Transmission| (t.to_slab_id, t.memo)) == emitted(
                memos@,
                self.peers().take(peering_target(self.peers().len())),
            ),
    {
        let k = self.check_peering_target();
        let ghost targets = self.peers().take(k as int);
        let mut out: Vec<Transmission> = Vec::new();
        let mut i: usize = 0;
        while i < memos.len()
            invariant
                i <= memos@.len(),
                k as int == peering_target(self.peers().len()),
                targets == self.peers().take(k as int),
                out@.map_values(|t: Transmission| (t.to_slab_id, t.memo)) == emitted(
                    memos@.take(i as int),
                    targets,
                ),
            decreases memos@.len() - i,
        {
            let ghost base = out@.map_values(|t: Transmission| (t.to_slab_id, t.memo));
            assert(memos@.take(i + 1).drop_last() =~= memos@.take(i as int));
            let mut j: usize = 0;
            while j < k
                invariant
                    i < memos@.len(),
                    j <= k,
                    k <= self.peer_refs@.len(),
                    targets == self.peers().take(k as int),
                    out@.map_values(|t: Transmission| (t.to_slab_id, t.memo)) == base
                        + targets.take(j as int).map_values(|t: SlabId| (t, memos@[i as int])),
                decreases k - j,
            {
                let ghost prev = out@;
                let tr = Transmission { to_slab_id: self.peer_refs[j].slab_id, memo: memos[i].share() };
                out.push(tr);
                assert(targets[j as int] == self.peer_refs@[j as int].slab_id);
                assert(targets.take(j + 1) =~= targets.take(j as int).push(targets[j as int]));
                assert(targets.take(j + 1).map_values(|t: SlabId| (t, memos@[i as int])) =~= targets.take(
                    j as int,
                ).map_values(|t: SlabId| (t, memos@[i as int])).push((tr.to_slab_id, tr.memo)));
                assert(out@ =~= prev.push(tr));
                assert(out@.map_values(|t: Transmission| (t.to_slab_id, t.memo)) =~= prev.map_values(
                    |t: Transmission| (t.to_slab_id, t.memo),
                ).push((tr.to_slab_id, tr.memo)));
                assert(out@.map_values(|t: Transmission| (t.to_slab_id, t.memo)) =~= base
                    + targets.take(j + 1).map_values(|t: SlabId| (t, memos@[i as int])));
                j = j + 1;
            }
            assert(targets.take(k as int) =~= targets);
            i = i + 1;
        }
        assert(memos@.take(memos@.len() as int) =~= memos@);
        out
    }

    /// How many peers a memo should be pushed to: the peering target, or
    /// every peer when there are fewer.
    fn check_peering_target(&self) -> (r: usize)
        ensures
            r as int == peering_target(self.peers().len()),
            r <= self.peer_refs@.len(),
    {
        let n = self.peer_refs.len();
        if n < PEERING_TARGET as usize {
            n
        } else {
            PEERING_TARGET as usize
        }
    }

    /// The contexts to which a batch of memos of `subject_id` is handed.
    pub fn dispatch_subject_memorefs(&self, subject_id: SubjectId) -> (r: Vec<ContextId>)
        ensures
            r@ == if self.subscriptions().contains_key(subject_id) {
                self.subscriptions()[subject_id]
            } else {
                Seq::empty()
            },
    {
        match self.subject_subscriptions.get(&subject_id) {
            Some(v) => {
                let mut r: Vec<ContextId> = Vec::new();
                let mut i: usize = 0;
                while i < v.len()
                    invariant
                        i <= v@.len(),
                        r@ == v@.take(i as int),
                    decreases v@.len() - i,
                {
                    r.push(v[i]);
                    assert(r@ =~= v@.take(i + 1));
                    i = i + 1;
                }
                assert(r@ =~= v@);
                r
            },
            None => Vec::new(),
        }
    }
}

/// A memo resident in the store stays resident through any later receipt.
pub proof fn lemma_resident_stays(s: Store, ms: Seq<Memo>, id: MemoId)
    requires
        is_resident_in(s, id),
    ensures
        is_resident_in(store_after(s, ms), id),
    decreases ms.len(),
{
    if ms.len() > 0 {
        lemma_resident_stays(s, ms.drop_last(), id);
    }
}

/// After receiving `ms`, every memo of `ms` is resident.
pub proof fn lemma_received_resident(s: Store, ms: Seq<Memo>)
    ensures
        forall|i: int| 0 <= i < ms.len() ==> is_resident_in(store_after(s, ms), #[trigger] ms[i].id),
    decreases ms.len(),
{
    if ms.len() > 0 {
        let p = ms.drop_last();
        lemma_received_resident(s, p);
        assert forall|i: int| 0 <= i < ms.len() implies is_resident_in(
            store_after(s, ms),
            #[trigger] ms[i].id,
        ) by {
            if i < ms.len() - 1 {
                assert(ms[i] == p[i]);
                assert(is_resident_in(store_after(s, p), p[i].id));
                lemma_resident_stays(store_after(s, p), seq![ms.last()], ms[i].id);
                assert(seq![ms.last()].drop_last() =~= Seq::<Memo>::empty());
            }
        }
    }
}

/// Receiving memos that are all resident already changes nothing and
/// stores nothing.
pub proof fn lemma_receive_resident_noop(t: Store, ms: Seq<Memo>)
    requires
        forall|i: int| 0 <= i < ms.len() ==> is_resident_in(t, #[trigger] ms[i].id),
    ensures
        store_after(t, ms) == t,
        fresh_memos(t, ms) == Seq::<Memo>::empty(),
    decreases ms.len(),
{
    if ms.len() > 0 {
        let p = ms.drop_last();
        assert forall|i: int| 0 <= i < p.len() implies is_resident_in(t, #[trigger] p[i].id) by {
            assert(p[i] == ms[i]);
        }
        lemma_receive_resident_noop(t, p);
        assert(is_resident_in(t, ms[ms.len() - 1].id));
    }
}

/// Receiving the same memos twice is receiving them once: the second time
/// the store is unchanged, so no second reference is made, and nothing is
/// handed to subscribers again.
pub proof fn lemma_put_idempotent(s: Store, ms: Seq<Memo>)
    ensures
        store_after(store_after(s, ms), ms) == store_after(s, ms),
        fresh_memos(store_after(s, ms), ms) == Seq::<Memo>::empty(),
        forall|subs: Map<SubjectId, Seq<ContextId>>|
            #[trigger] dispatch_plan(subs, fresh_memos(store_after(s, ms), ms)) == Seq::<
                (Option<SubjectId>, Seq<MemoId>, Seq<ContextId>),
            >::empty(),
{
    lemma_received_resident(s, ms);
    lemma_receive_resident_noop(store_after(s, ms), ms);
    assert forall|subs: Map<SubjectId, Seq<ContextId>>|
        #[trigger] dispatch_plan(subs, fresh_memos(store_after(s, ms), ms)) == Seq::<
            (Option<SubjectId>, Seq<MemoId>, Seq<ContextId>),
        >::empty() by {
        assert(group_by_subject_spec(Seq::<Memo>::empty()) == Seq::<Group>::empty());
        assert(dispatch_plan(subs, Seq::<Memo>::empty()) =~= Seq::<
            (Option<SubjectId>, Seq<MemoId>, Seq<ContextId>),
        >::empty());
    }
}

/// Demoting a resident memo makes it non-resident while its reference stays;
/// making it resident again with the body it had gives back the same store.
pub proof fn lemma_remotize_localize(s: Store, id: MemoId)
    requires
        is_resident_in(s, id),
    ensures
        ({
            let t = remotize_all(s, seq![id]);
            &&& t.contains_key(id)
            &&& !is_resident_in(t, id)
            &&& t.dom() == s.dom()
            &&& t.insert(id, MemoRefView { memo: s[id].memo, ..t[id] }) == s
        }),
{
    let ids = seq![id];
    assert(ids.drop_last() =~= Seq::<MemoId>::empty());
    let t = remotize_all(s, ids);
    assert(remotize_all(s, ids.drop_last()) == s);
    assert(ids.last() == id);
    assert(t == remotize_one(s, id));
    assert(t.dom() =~= s.dom());
    assert(t.insert(id, MemoRefView { memo: s[id].memo, ..t[id] }) =~= s);
}

fn copy_ids(v: &Vec<MemoId>) -> (r: Vec<MemoId>)
    ensures
        r@ == v@,
{
    let mut r: Vec<MemoId> = Vec::new();
    let mut i: usize = 0;
    while i < v.len()
        invariant
            i <= v@.len(),
            r@ == v@.take(i as int),
        decreases v@.len() - i,
    {
        r.push(v[i]);
        assert(r@ =~= v@.take(i + 1));
        i = i + 1;
    }
    assert(r@ =~= v@);
    r
}

fn same_subject(a: Option<SubjectId>, b: Option<SubjectId>) -> (r: bool)
    ensures
        r == (a == b),
{
    match (a, b) {
        (Some(x), Some(y)) => x == y,
        (None, None) => true,
        _ => false,
    }
}

/// The ids of `memos` grouped by subject, subjects in order of first
/// appearance and ids in order within each batch.
pub fn group_by_subject(memos: &Vec<Memo>) -> (r: Vec<SubjectBatch>)
    ensures
        batches_view(r@) == group_by_subject_spec(memos@),
{
    let mut batches: Vec<SubjectBatch> = Vec::new();
    let n = memos.len();
    let mut i: usize = 0;
    while i < n
        invariant
            n == memos@.len(),
            i <= n,
            batches_view(batches@) == group_by_subject_spec(memos@.take(i as int)),
        decreases n - i,
    {
        let m = &memos[i];
        assert(memos@.take(i + 1).drop_last() =~= memos@.take(i as int));
        let ghost g0 = batches_view(batches@);
        let k = batches.len();
        let mut found = false;
        let mut j: usize = 0;
        while j < k
            invariant
                k == batches@.len(),
                k == g0.len(),
                j <= k,
                found == exists|x: int| 0 <= x < j && g0[x].0 == m.subject_id,
                forall|x: int|
                    0 <= x < j ==> batches_view(batches@)[x] == (if g0[x].0 == m.subject_id {
                        (g0[x].0, g0[x].1.push(m.id))
                    } else {
                        g0[x]
                    }),
                forall|x: int| j <= x < k ==> batches_view(batches@)[x] == g0[x],
            decreases k - j,
        {
            assert(batches_view(batches@)[j as int] == g0[j as int]);
            if same_subject(batches[j].subject_id, m.subject_id) {
                let ghost prev = batches@;
                assert(batches_view(prev) == batches_view(batches@));
                let mut b = batches.remove(j);
                b.memo_ids.push(m.id);
                batches.insert(j, b);
                assert(batches@ =~= prev.update(j as int, b));
                assert(b.subject_id == prev[j as int].subject_id);
                assert(b.memo_ids@ == prev[j as int].memo_ids@.push(m.id));
                assert(batches_view(batches@)[j as int] == (g0[j as int].0, g0[j as int].1.push(
                    m.id,
                )));
                assert forall|x: int| 0 <= x < k && x != j implies batches_view(batches@)[x]
                    == batches_view(prev)[x] by {
                    assert(batches@[x] == prev[x]);
                }
                assert forall|x: int| 0 <= x < j + 1 implies batches_view(batches@)[x] == (if g0[x].0
                    == m.subject_id {
                    (g0[x].0, g0[x].1.push(m.id))
                } else {
                    g0[x]
                }) by {
                    if x < j {
                        assert(batches_view(prev)[x] == (if g0[x].0 == m.subject_id {
                            (g0[x].0, g0[x].1.push(m.id))
                        } else {
                            g0[x]
                        }));
                    }
                }
                assert(g0[j as int].0 == m.subject_id);
                found = true;
            } else {
                assert(g0[j as int].0 != m.subject_id);
            }
            j = j + 1;
        }
        if found {
            assert(batches_view(batches@) =~= add_to_groups(g0, *m));
        } else {
            let mut ids: Vec<MemoId> = Vec::new();
            ids.push(m.id);
            assert(ids@ =~= seq![m.id]);
            let ghost prev = batches@;
            let nb = SubjectBatch { subject_id: m.subject_id, memo_ids: ids };
            batches.push(nb);
            assert(batches@ =~= prev.push(nb));
            assert(prev =~= batches@.drop_last());
            assert(batches_view(prev) =~= g0);
            assert(batches_view(batches@) =~= g0.push((m.subject_id, seq![m.id])));
        }
        assert(batches_view(batches@) =~= add_to_groups(g0, *m));
        i = i + 1;
    }
    assert(memos@.take(n as int) =~= memos@);
    batches
}

/// How many of `n` peers receive each memo.
pub open spec fn peering_target(n: nat) -> int {
    if n < PEERING_TARGET as nat {
        n as int
    } else {
        PEERING_TARGET as int
    }
}

fn unable_to_localize() -> (r: String)
    ensures
        r@ == "unable to localize memo"@,
{
    proof {
        reveal_strlit("unable to localize memo");
    }
    "unable to localize memo".to_string()
}

/// `slab_id` in the high 32 bits, `counter` in the low 32.
fn combine_ids(slab_id: SlabId, counter: u32) -> (r: u64)
    ensures
        r as int == combined_id(slab_id, counter),
{
    let hi = slab_id as u64;
    let lo = counter as u64;
    assert((hi << 32u64) | lo == hi * 0x1_0000_0000u64 + lo) by (bit_vector)
        requires
            hi < 0x1_0000_0000u64,
            lo < 0x1_0000_0000u64,
    ;
    (hi << 32u64) | lo
}

} // verus!
