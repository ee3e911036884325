//! The network: the directory of local slabs, and the routing of packets to them.
use crate::memo::{Memo, MemoId, MemoPeer, MemoPeeringStatus, SlabId, SubjectId};
use crate::memoref::{ledger_set, MemoRefView};
use crate::slab::{
    dispatch_plan, dispatches_view, fresh_memos, put_one, ContextId, Dispatch, Slab, Store,
};
use std::collections::HashMap;
use vstd::prelude::*;

verus! {

broadcast use vstd::std_specs::hash::group_hash_axioms;

/// The wire envelope of one memo sent from one slab to another.
pub struct Packet {
    pub to_slab_id: SlabId,
    pub from_slab_id: SlabId,
    pub from_slab_peering_status: MemoPeeringStatus,
    pub memo: Memo,
}

impl Packet {
    /// Another handle on the same packet.
    pub fn share(&self) -> (r: Packet)
        ensures
            r == *self,
    {
        Packet {
            to_slab_id: self.to_slab_id,
            from_slab_id: self.from_slab_id,
            from_slab_peering_status: self.from_slab_peering_status,
            memo: self.memo.share(),
        }
    }
}

/// The store after noting in the ledger of memo `id` that peer `p.slab_id`
/// has status `p.status`.
pub open spec fn record_peer(s: Store, id: MemoId, p: MemoPeer) -> Store {
    if s.contains_key(id) {
        s.insert(id, MemoRefView { peers: ledger_set(s[id].peers, p), ..s[id] })
    } else {
        s
    }
}

/// The destination's store after it receives `p`: the memo is stored, and
/// the sender's declared status for it goes into the ledger.
pub open spec fn receive_packet(s: Store, p: Packet) -> Store {
    record_peer(
        put_one(s, p.memo),
        p.memo.id,
        MemoPeer { slab_id: p.from_slab_id, status: p.from_slab_peering_status },
    )
}

/// The stores of the network's slabs after routing `p`: a packet for a slab
/// that is not here is dropped.
pub open spec fn route(st: Map<SlabId, Store>, p: Packet) -> Map<SlabId, Store> {
    if st.contains_key(p.to_slab_id) {
        st.insert(p.to_slab_id, receive_packet(st[p.to_slab_id], p))
    } else {
        st
    }
}

/// The stores after routing `ps` in order.
pub open spec fn route_all(st: Map<SlabId, Store>, ps: Seq<Packet>) -> Map<SlabId, Store>
    decreases ps.len(),
{
    if ps.len() == 0 {
        st
    } else {
        route(route_all(st, ps.drop_last()), ps.last())
    }
}

/// What each slab's subscribers are: subject to contexts, by slab id.
pub type Subscriptions = Map<SlabId, Map<SubjectId, Seq<ContextId>>>;

/// A batch handed to subscribers: subject, memo ids, contexts.
pub type Handout = (Option<SubjectId>, Seq<MemoId>, Seq<ContextId>);

/// What routing `p` hands to the destination's subscribers: its memo, if it
/// is newly stored there.
pub open spec fn route_dispatch(subs: Subscriptions, st: Map<SlabId, Store>, p: Packet) -> Seq<Handout> {
    if st.contains_key(p.to_slab_id) {
        dispatch_plan(subs[p.to_slab_id], fresh_memos(st[p.to_slab_id], seq![p.memo]))
    } else {
        Seq::empty()
    }
}

/// What routing `ps` in order hands out, in order.
pub open spec fn route_all_dispatch(subs: Subscriptions, st: Map<SlabId, Store>, ps: Seq<Packet>) -> Seq<Handout>
    decreases ps.len(),
{
    if ps.len() == 0 {
        Seq::empty()
    } else {
        route_all_dispatch(subs, st, ps.drop_last()) + route_dispatch(
            subs,
            route_all(st, ps.drop_last()),
            ps.last(),
        )
    }
}

pub struct Network {
    pub slabs: HashMap<SlabId, Slab>,
    pub last_slab_id: u32,
}

impl Network {
    /// The store of each local slab, by slab id.
    pub open spec fn stores(&self) -> Map<SlabId, Store> {
        self.slabs@.map_values(|s: Slab| s.store())
    }

    /// The subscriptions of each local slab, by slab id.
    pub open spec fn subscriptions(&self) -> Subscriptions {
        self.slabs@.map_values(|s: Slab| s.subscriptions())
    }

    /// Each slab is filed under its own id, is well formed, and has an id
    /// that this network handed out.
    pub open spec fn wf(&self) -> bool {
        forall|k: SlabId|
            #[trigger] self.slabs@.contains_key(k) ==> self.slabs@[k].id == k
                && self.slabs@[k].wf() && k <= self.last_slab_id
    }

    pub fn new() -> (r: Network)
        ensures
            r.wf(),
            r.stores() == Map::<SlabId, Store>::empty(),
            r.last_slab_id == 0,
    {
        let r = Network { slabs: HashMap::new(), last_slab_id: 0 };
        assert(r.stores() =~= Map::<SlabId, Store>::empty());
        r
    }

    /// A slab id that no slab of this network has had before.
    pub fn generate_slab_id(&mut self) -> (r: SlabId)
        requires
            old(self).last_slab_id < u32::MAX,
        ensures
            r == old(self).last_slab_id + 1,
            final(self).last_slab_id == r,
            final(self).slabs == old(self).slabs,
    {
        self.last_slab_id = self.last_slab_id + 1;
        self.last_slab_id
    }

    /// Adds a slab to the directory. Refused, with nothing changed, when a
    /// slab of that id is already there or the id was not handed out here.
    pub fn register_slab(&mut self, slab: Slab) -> (r: bool)
        requires
            old(self).wf(),
            slab.wf(),
        ensures
            final(self).wf(),
            final(self).last_slab_id == old(self).last_slab_id,
            r == (!old(self).slabs@.contains_key(slab.id) && slab.id <= old(self).last_slab_id),
            r ==> final(self).slabs@ == old(self).slabs@.insert(slab.id, slab),
            !r ==> final(self).slabs@ == old(self).slabs@,
    {
        if self.slabs.contains_key(&slab.id) || slab.id > self.last_slab_id {
            return false;
        }
        let id = slab.id;
        self.slabs.insert(id, slab);
        true
    }

    /// The local slab of id `slab_id`, if there is one.
    pub fn get_slab(&self, slab_id: SlabId) -> (r: Option<&Slab>)
        ensures
            match r {
                Some(s) => self.slabs@.contains_key(slab_id) && *s == self.slabs@[slab_id],
                None => !self.slabs@.contains_key(slab_id),
            },
    {
        self.slabs.get(&slab_id)
    }

    /// Routes a packet to its destination slab, which stores the memo, notes
    /// the sender's status for it, and hands the memo to its subscribers if
    /// it is new there. `None`, changing nothing, when no local slab has
    /// that id.
    pub fn distribute_memos(&mut self, packet: Packet) -> (r: Option<Vec<Dispatch>>)
        requires
            old(self).wf(),
        ensures
            final(self).wf(),
            final(self).last_slab_id == old(self).last_slab_id,
            final(self).slabs@.dom() == old(self).slabs@.dom(),
            final(self).stores() == route(old(self).stores(), packet),
            final(self).subscriptions() == old(self).subscriptions(),
            r.is_some() == old(self).slabs@.contains_key(packet.to_slab_id),
            r matches Some(d) ==> dispatches_view(d@) == route_dispatch(
                old(self).subscriptions(),
                old(self).stores(),
                packet,
            ),
    {
        let to = packet.to_slab_id;
        let prior = self.slabs.remove(&to);
        match prior {
            Some(slab) => {
                let mut slab = slab;
                let memo_id = packet.memo.id;
                let ghost s0 = slab.store();
                let mut batch: Vec<Memo> = Vec::new();
                batch.push(packet.memo);
                assert(batch@.drop_last() =~= Seq::<Memo>::empty());
                assert(batch@ =~= seq![packet.memo]);
                let handed = slab.put_memos(batch);
                assert(slab.store() == put_one(s0, packet.memo));
                slab.set_peer_status(memo_id, packet.from_slab_id, packet.from_slab_peering_status);
                self.slabs.insert(to, slab);
                assert(self.stores() =~= route(old(self).stores(), packet));
                assert(self.subscriptions() =~= old(self).subscriptions());
                assert(self.slabs@.dom() =~= old(self).slabs@.dom());
                Some(handed)
            },
            None => {
                assert(self.stores() =~= old(self).stores());
                assert(self.subscriptions() =~= old(self).subscriptions());
                None
            },
        }
    }
}

/// A handle through which memos are queued for a slab of a network, to be
/// stored at that slab's next `deliver_all_memos`.
pub struct SlabSender {
    pub slab_id: SlabId,
}

impl SlabSender {
    /// Queues a copy of `memo` for the slab. Returns false, changing
    /// nothing, when the network holds no slab of that id.
    pub fn send(&self, net: &mut Network, memo: &Memo) -> (r: bool)
        requires
            old(net).wf(),
        ensures
            final(net).wf(),
            final(net).last_slab_id == old(net).last_slab_id,
            final(net).slabs@.dom() == old(net).slabs@.dom(),
            final(net).stores() == old(net).stores(),
            r == old(net).slabs@.contains_key(self.slab_id),
            r ==> final(net).slabs@[self.slab_id].pending() == old(net).slabs@[
                self.slab_id
            ].pending().push(*memo),
            forall|k: SlabId|
                k != self.slab_id && #[trigger] old(net).slabs@.contains_key(k)
                    ==> final(net).slabs@[k] == old(net).slabs@[k],
    {
        let prior = net.slabs.remove(&self.slab_id);
        match prior {
            Some(slab) => {
                let mut slab = slab;
                slab.enqueue_memo(memo.share());
                net.slabs.insert(self.slab_id, slab);
                assert(net.stores() =~= old(net).stores());
                assert(net.slabs@.dom() =~= old(net).slabs@.dom());
                true
            },
            None => {
                assert(net.stores() =~= old(net).stores());
                false
            },
        }
    }
}

/// A handle on a slab that does not keep it alive: the network owns it.
pub struct WeakSlab {
    pub id: SlabId,
}

impl WeakSlab {
    /// The slab, if the network still holds it.
    pub fn upgrade<'a>(&self, net: &'a Network) -> (r: Option<&'a Slab>)
        ensures
            match r {
                Some(s) => net.slabs@.contains_key(self.id) && *s == net.slabs@[self.id],
                None => !net.slabs@.contains_key(self.id),
            },
    {
        net.get_slab(self.id)
    }
}

impl Slab {
    pub fn get_sender(&self) -> (r: SlabSender)
        ensures
            r.slab_id == self.id,
    {
        SlabSender { slab_id: self.id }
    }

    pub fn weak(&self) -> (r: WeakSlab)
        ensures
            r.id == self.id,
    {
        WeakSlab { id: self.id }
    }

    /// Makes a fresh slab and registers it with `net`, under an id above
    /// every id that `net` handed out before. Returns that id.
    pub fn new(net: &mut Network) -> (r: SlabId)
        requires
            old(net).wf(),
            old(net).last_slab_id < u32::MAX,
        ensures
            final(net).wf(),
            r == old(net).last_slab_id + 1,
            final(net).last_slab_id == r,
            forall|k: SlabId| #[trigger] old(net).slabs@.contains_key(k) ==> k < r,
            !old(net).slabs@.contains_key(r),
            final(net).slabs@ == old(net).slabs@.insert(r, final(net).slabs@[r]),
            final(net).slabs@[r].id == r,
            final(net).slabs@[r].store() == Store::empty(),
            final(net).slabs@[r].peers() == Seq::<SlabId>::empty(),
            final(net).slabs@[r].pending() == Seq::<Memo>::empty(),
            final(net).slabs@[r].subscriptions() == Map::<SubjectId, Seq<ContextId>>::empty(),
    {
        let id = net.generate_slab_id();
        let slab = Slab::new_with_id(id);
        let registered = net.register_slab(slab);
        assert(registered);
        id
    }
}

} // verus!
