//! Decoding against a destination: the ids that arrive on the wire resolve to
//! the one memo reference, or the one peer handle, that the slab already
//! holds for them, and a new one is made only for an id not seen before.
use crate::memo::{
    Memo, MemoBody, MemoId, MemoPeer, MemoPeeringStatus, MemoRefHead, SlabId, SlabRef, SubjectId,
};
use crate::memoref::{ledger_merge, MemoRef, MemoRefView};
use crate::network::{Network, Packet};
use crate::slab::{Slab, Store};
use vstd::prelude::*;

verus! {

broadcast use vstd::std_specs::hash::group_hash_axioms;

/// A memo reference as it stands in a packet: an id, a subject, whether the
/// sender holds the body, and the sender's peering ledger for it.
pub struct WireMemoRef {
    pub memo_id: MemoId,
    pub subject_id: Option<SubjectId>,
    pub has_memo: bool,
    pub peers: Vec<MemoPeer>,
}

/// A packet as it stands on the wire, before its ids are resolved.
pub struct WirePacket {
    pub to_slab_id: SlabId,
    pub from_slab_id: SlabId,
    pub from_slab_peering_status: MemoPeeringStatus,
    pub memo_id: MemoId,
    pub owning_slab_id: SlabId,
    pub subject_id: Option<SubjectId>,
    pub parents: Vec<WireMemoRef>,
    pub body: MemoBody,
}

/// The store after resolving a wire reference: an id already held keeps its
/// reference, whose ledger takes in the sender's entries; a new id gets a
/// remote reference carrying them.
pub open spec fn intern(s: Store, id: MemoId, subject_id: Option<SubjectId>, peers: Seq<MemoPeer>) -> Store {
    if s.contains_key(id) {
        s.insert(id, MemoRefView { peers: ledger_merge(s[id].peers, peers), ..s[id] })
    } else {
        s.insert(id, MemoRefView { id, subject_id, peers, memo: None })
    }
}

/// The store after resolving each wire reference of `ws` in turn.
pub open spec fn intern_all(s: Store, ws: Seq<WireMemoRef>) -> Store
    decreases ws.len(),
{
    if ws.len() == 0 {
        s
    } else {
        let w = ws.last();
        intern(intern_all(s, ws.drop_last()), w.memo_id, w.subject_id, w.peers@)
    }
}

/// Whether `i` is the first position of `id` in `peers`.
pub open spec fn is_first_position(peers: Seq<SlabId>, id: SlabId, i: int) -> bool {
    &&& 0 <= i < peers.len()
    &&& peers[i] == id
    &&& forall|j: int| 0 <= j < i ==> peers[j] != id
}

/// The peer ids after resolving a slab handle: one already held is kept.
pub open spec fn intern_peer(peers: Seq<SlabId>, id: SlabId) -> Seq<SlabId> {
    if peers.contains(id) {
        peers
    } else {
        peers.push(id)
    }
}

impl Slab {
    /// Resolves a wire reference against this slab and returns its id, under
    /// which the slab now holds exactly one reference for it.
    pub fn intern_memoref(&mut self, w: &WireMemoRef) -> (r: MemoId)
        requires
            old(self).wf(),
        ensures
            final(self).wf(),
            r == w.memo_id,
            final(self).store() == intern(old(self).store(), w.memo_id, w.subject_id, w.peers@),
            final(self).id == old(self).id,
            final(self).subject_subscriptions == old(self).subject_subscriptions,
            final(self).peer_refs == old(self).peer_refs,
            final(self).inbound == old(self).inbound,
            final(self).last_memo_id == old(self).last_memo_id,
            final(self).last_subject_id == old(self).last_subject_id,
            final(self).last_context_id == old(self).last_context_id,
    {
        let id = w.memo_id;
        let prior = self.memorefs_by_id.remove(&id);
        match prior {
            Some(p) => {
                let mut p = p;
                let ghost start = p@;
                let n = w.peers.len();
                let mut i: usize = 0;
                while i < n
                    invariant
                        n == w.peers@.len(),
                        i <= n,
                        p@ == (MemoRefView {
                            peers: ledger_merge(start.peers, w.peers@.take(i as int)),
                            ..start
                        }),
                    decreases n - i,
                {
                    assert(w.peers@.take(i + 1).drop_last() =~= w.peers@.take(i as int));
                    p.set_peer_status(w.peers[i].slab_id, w.peers[i].status);
                    i = i + 1;
                }
                assert(w.peers@.take(n as int) =~= w.peers@);
                self.memorefs_by_id.insert(id, p);
            },
            None => {
                let peers = copy_peers(&w.peers);
                let mr = MemoRef::new_remote(id, w.subject_id, peers);
                self.memorefs_by_id.insert(id, mr);
            },
        }
        assert(self.store() =~= intern(old(self).store(), w.memo_id, w.subject_id, w.peers@));
        id
    }

    /// Resolves each wire reference in turn, and returns their ids as a head.
    pub fn intern_head(&mut self, ws: &Vec<WireMemoRef>) -> (r: MemoRefHead)
        requires
            old(self).wf(),
        ensures
            final(self).wf(),
            r@ == ws@.map_values(|w: WireMemoRef| w.memo_id),
            final(self).store() == intern_all(old(self).store(), ws@),
            final(self).id == old(self).id,
            final(self).subject_subscriptions == old(self).subject_subscriptions,
            final(self).peer_refs == old(self).peer_refs,
            final(self).inbound == old(self).inbound,
            final(self).last_memo_id == old(self).last_memo_id,
            final(self).last_subject_id == old(self).last_subject_id,
            final(self).last_context_id == old(self).last_context_id,
    {
        let ghost s0 = self.store();
        let mut ids: Vec<MemoId> = Vec::new();
        let n = ws.len();
        let mut i: usize = 0;
        while i < n
            invariant
                n == ws@.len(),
                i <= n,
                self.wf(),
                self.store() == intern_all(s0, ws@.take(i as int)),
                ids@ == ws@.take(i as int).map_values(|w: WireMemoRef| w.memo_id),
                self.id == old(self).id,
                self.subject_subscriptions == old(self).subject_subscriptions,
                self.peer_refs == old(self).peer_refs,
                self.inbound == old(self).inbound,
                self.last_memo_id == old(self).last_memo_id,
                self.last_subject_id == old(self).last_subject_id,
                self.last_context_id == old(self).last_context_id,
            decreases n - i,
        {
            assert(ws@.take(i + 1).drop_last() =~= ws@.take(i as int));
            let id = self.intern_memoref(&ws[i]);
            ids.push(id);
            assert(ids@ =~= ws@.take(i + 1).map_values(|w: WireMemoRef| w.memo_id));
            i = i + 1;
        }
        assert(ws@.take(n as int) =~= ws@);
        MemoRefHead(ids)
    }

    /// Resolves a peer handle against this slab's roster and returns its
    /// position there: the handle already held for that slab id, or the new
    /// one appended.
    pub fn intern_slabref(&mut self, slab_ref: SlabRef) -> (r: usize)
        ensures
            final(self).peers() == intern_peer(old(self).peers(), slab_ref.slab_id),
            r < final(self).peer_refs@.len(),
            final(self).peer_refs@[r as int].slab_id == slab_ref.slab_id,
            is_first_position(final(self).peers(), slab_ref.slab_id, r as int),
            final(self).id == old(self).id,
            final(self).memorefs_by_id == old(self).memorefs_by_id,
            final(self).subject_subscriptions == old(self).subject_subscriptions,
            final(self).inbound == old(self).inbound,
            final(self).last_memo_id == old(self).last_memo_id,
            final(self).last_subject_id == old(self).last_subject_id,
            final(self).last_context_id == old(self).last_context_id,
    {
        let n = self.peer_refs.len();
        let mut i: usize = 0;
        while i < n
            invariant
                n == self.peer_refs@.len(),
                i <= n,
                self.peer_refs == old(self).peer_refs,
                self.memorefs_by_id == old(self).memorefs_by_id,
                self.subject_subscriptions == old(self).subject_subscriptions,
                self.inbound == old(self).inbound,
                self.id == old(self).id,
                self.last_memo_id == old(self).last_memo_id,
                self.last_subject_id == old(self).last_subject_id,
                self.last_context_id == old(self).last_context_id,
                forall|j: int| 0 <= j < i ==> self.peers()[j] != slab_ref.slab_id,
            decreases n - i,
        {
            if self.peer_refs[i].slab_id == slab_ref.slab_id {
                assert(self.peers()[i as int] == slab_ref.slab_id);
                return i;
            }
            i = i + 1;
        }
        assert(!self.peers().contains(slab_ref.slab_id));
        self.add_peer(slab_ref);
        assert(self.peers()[n as int] == slab_ref.slab_id);
        n
    }
}

fn copy_peers(peers: &Vec<MemoPeer>) -> (r: Vec<MemoPeer>)
    ensures
        r@ == peers@,
{
    let mut r: Vec<MemoPeer> = Vec::new();
    let mut i: usize = 0;
    while i < peers.len()
        invariant
            i <= peers@.len(),
            r@ == peers@.take(i as int),
        decreases peers@.len() - i,
    {
        r.push(peers[i]);
        assert(r@ =~= peers@.take(i + 1));
        i = i + 1;
    }
    assert(r@ =~= peers@);
    r
}

/// Turns a wire packet into a packet for the local slab it is addressed to,
/// resolving against that slab the memo's parents, the handle `from` of the
/// sending slab, and the requesting slab's handle in a memo request. `None`, with nothing
/// changed, when no local slab has that id.
pub fn decode_packet(net: &mut Network, from: SlabRef, wire: WirePacket) -> (r: Option<Packet>)
    requires
        old(net).wf(),
    ensures
        final(net).wf(),
        final(net).last_slab_id == old(net).last_slab_id,
        final(net).slabs@.dom() == old(net).slabs@.dom(),
        match r {
            Some(p) => {
                &&& old(net).slabs@.contains_key(wire.to_slab_id)
                &&& final(net).stores() == old(net).stores().insert(
                    wire.to_slab_id,
                    intern_all(old(net).stores()[wire.to_slab_id], wire.parents@),
                )
                &&& p.to_slab_id == wire.to_slab_id
                &&& p.from_slab_id == wire.from_slab_id
                &&& p.from_slab_peering_status == wire.from_slab_peering_status
                &&& p.memo.wf()
                &&& p.memo.id == wire.memo_id
                &&& p.memo.owning_slab_id == wire.owning_slab_id
                &&& p.memo.subject_id == wire.subject_id
                &&& p.memo.parents_view() == wire.parents@.map_values(|w: WireMemoRef| w.memo_id)
                &&& p.memo.inner.body == wire.body
                &&& final(net).slabs@[wire.to_slab_id].peers() == handles_after(
                    old(net).slabs@[wire.to_slab_id].peers(),
                    from.slab_id,
                    wire.body,
                )
            },
            None => {
                &&& !old(net).slabs@.contains_key(wire.to_slab_id)
                &&& final(net).stores() == old(net).stores()
            },
        },
{
    let to = wire.to_slab_id;
    let prior = net.slabs.remove(&to);
    match prior {
        Some(slab) => {
            let mut slab = slab;
            let head = slab.intern_head(&wire.parents);
            let _ = slab.intern_slabref(from);
            match &wire.body {
                MemoBody::MemoRequest(_, requester) => {
                    let _ = slab.intern_slabref(requester.share());
                },
                _ => {},
            }
            net.slabs.insert(to, slab);
            assert(net.stores() =~= old(net).stores().insert(
                to,
                intern_all(old(net).stores()[to], wire.parents@),
            ));
            assert(net.slabs@.dom() =~= old(net).slabs@.dom());
            let memo = Memo::new(wire.memo_id, wire.owning_slab_id, wire.subject_id, head, wire.body);
            Some(
                Packet {
                    to_slab_id: to,
                    from_slab_id: wire.from_slab_id,
                    from_slab_peering_status: wire.from_slab_peering_status,
                    memo,
                },
            )
        },
        None => {
            assert(net.stores() =~= old(net).stores());
            None
        },
    }
}

/// What a parent reference carries on the wire, as the sending slab knows
/// it: its id, its subject, whether the body is held, and the ledger. A
/// parent the slab holds no reference for is sent with the memo's own
/// subject, no body and an empty ledger.
pub open spec fn parent_on_wire(s: Store, id: MemoId, memo_subject: Option<SubjectId>) -> (
    MemoId,
    Option<SubjectId>,
    bool,
    Seq<MemoPeer>,
) {
    if s.contains_key(id) {
        (id, s[id].subject_id, s[id].memo.is_some(), s[id].peers)
    } else {
        (id, memo_subject, false, Seq::empty())
    }
}

pub open spec fn wire_ref_view(w: WireMemoRef) -> (MemoId, Option<SubjectId>, bool, Seq<MemoPeer>) {
    (w.memo_id, w.subject_id, w.has_memo, w.peers@)
}

impl Slab {
    /// The wire form of `memo`'s parents: for each, an id and the sender's
    /// peering metadata, never the parent memo itself.
    pub fn encode_parents(&self, memo: &Memo) -> (r: Vec<WireMemoRef>)
        requires
            self.wf(),
        ensures
            r@.len() == memo.parents_view().len(),
            forall|i: int|
                0 <= i < r@.len() ==> wire_ref_view(#[trigger] r@[i]) == parent_on_wire(
                    self.store(),
                    memo.parents_view()[i],
                    memo.subject_id,
                ),
    {
        let parents = &memo.inner.parents.0;
        let mut out: Vec<WireMemoRef> = Vec::new();
        let mut i: usize = 0;
        while i < parents.len()
            invariant
                parents@ == memo.parents_view(),
                i <= parents@.len(),
                out@.len() == i,
                forall|j: int|
                    0 <= j < i ==> wire_ref_view(#[trigger] out@[j]) == parent_on_wire(
                        self.store(),
                        parents@[j],
                        memo.subject_id,
                    ),
            decreases parents@.len() - i,
        {
            let id = parents[i];
            let w = match self.memorefs_by_id.get(&id) {
                Some(mr) => {
                    assert(self.store().contains_key(id) && self.store()[id] == mr@);
                    WireMemoRef {
                        memo_id: id,
                        subject_id: mr.subject_id,
                        has_memo: mr.is_resident(),
                        peers: copy_peers(&mr.peers.0),
                    }
                },
                None => {
                    assert(!self.store().contains_key(id));
                    WireMemoRef {
                        memo_id: id,
                        subject_id: memo.subject_id,
                        has_memo: false,
                        peers: Vec::new(),
                    }
                },
            };
            assert(wire_ref_view(w) == parent_on_wire(self.store(), id, memo.subject_id));
            out.push(w);
            i = i + 1;
        }
        out
    }
}

/// The roster after decoding a packet from `from_id` with `body`: the
/// sender's handle is resolved, then a memo request's requester.
pub open spec fn handles_after(peers: Seq<SlabId>, from_id: SlabId, body: MemoBody) -> Seq<SlabId> {
    let p = intern_peer(peers, from_id);
    match body {
        MemoBody::MemoRequest(_, requester) => intern_peer(p, requester.slab_id),
        _ => p,
    }
}

/// Resolving the same memo id twice against one slab leaves one reference
/// for it: the store gains at most that one id, and the reference keeps the
/// subject and the body (if any) it had after the first resolution.
pub proof fn lemma_intern_identity(
    s: Store,
    id: MemoId,
    subject_a: Option<SubjectId>,
    peers_a: Seq<MemoPeer>,
    subject_b: Option<SubjectId>,
    peers_b: Seq<MemoPeer>,
)
    ensures
        ({
            let once = intern(s, id, subject_a, peers_a);
            let twice = intern(once, id, subject_b, peers_b);
            &&& twice.dom() == s.dom().insert(id)
            &&& twice.dom() == once.dom()
            &&& twice[id].id == once[id].id
            &&& twice[id].subject_id == once[id].subject_id
            &&& twice[id].memo == once[id].memo
            &&& twice[id].memo == (if s.contains_key(id) {
                s[id].memo
            } else {
                None
            })
        }),
{
    let once = intern(s, id, subject_a, peers_a);
    let twice = intern(once, id, subject_b, peers_b);
    assert(twice.dom() =~= s.dom().insert(id));
    assert(once.dom() =~= s.dom().insert(id));
}

/// A slab id has one first position in a roster: two resolutions of the
/// same id against the same roster give the same handle.
pub proof fn lemma_first_position_unique(peers: Seq<SlabId>, id: SlabId, i: int, k: int)
    requires
        is_first_position(peers, id, i),
        is_first_position(peers, id, k),
    ensures
        i == k,
{
    if i < k {
        assert(peers[i] != id);
    } else if k < i {
        assert(peers[k] != id);
    }
}

/// Resolving the same slab id twice leaves one handle for it.
pub proof fn lemma_intern_peer_identity(peers: Seq<SlabId>, id: SlabId)
    ensures
        intern_peer(intern_peer(peers, id), id) == intern_peer(peers, id),
        intern_peer(peers, id).contains(id),
{
    if !peers.contains(id) {
        assert(peers.push(id)[peers.len() as int] == id);
    }
}

} // verus!
