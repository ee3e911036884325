//! A transport for tests: packets wait in a queue until a logical clock,
//! advanced by hand, reaches their delivery tick.
use crate::memo::{Memo, SlabId};
use crate::network::{route_all, route_all_dispatch, Network, Packet};
use crate::slab::{dispatches_view, Dispatch, Store};
use vstd::prelude::*;

verus! {

/// A packet and the tick at which it is delivered.
pub struct SimEvent {
    pub deliver_at: u64,
    pub packet: Packet,
}

/// The packets of `q` due by tick `now`, in queue order.
pub open spec fn due_packets(q: Seq<SimEvent>, now: u64) -> Seq<Packet>
    decreases q.len(),
{
    if q.len() == 0 {
        Seq::empty()
    } else if q.last().deliver_at <= now {
        due_packets(q.drop_last(), now).push(q.last().packet)
    } else {
        due_packets(q.drop_last(), now)
    }
}

/// The events of `q` still waiting after tick `now`, in queue order.
pub open spec fn waiting(q: Seq<SimEvent>, now: u64) -> Seq<SimEvent>
    decreases q.len(),
{
    if q.len() == 0 {
        Seq::empty()
    } else if q.last().deliver_at <= now {
        waiting(q.drop_last(), now)
    } else {
        waiting(q.drop_last(), now).push(q.last())
    }
}

pub struct Simulator {
    pub clock: u64,
    pub queue: Vec<SimEvent>,
}

impl Simulator {
    pub fn new() -> (r: Simulator)
        ensures
            r.clock == 0,
            r.queue@ == Seq::<SimEvent>::empty(),
    {
        Simulator { clock: 0, queue: Vec::new() }
    }

    /// Never real network latency: everything is in this process.
    pub fn is_local(&self) -> (r: bool)
        ensures
            r,
    {
        true
    }

    /// Queues `memo` from slab `from` to slab `to`, for delivery at the next tick.
    pub fn send(&mut self, from: SlabId, to: SlabId, memo: Memo)
        requires
            old(self).clock < u64::MAX,
        ensures
            final(self).clock == old(self).clock,
            final(self).queue@ == old(self).queue@.push(
                SimEvent {
                    deliver_at: (old(self).clock + 1) as u64,
                    packet: Packet {
                        to_slab_id: to,
                        from_slab_id: from,
                        from_slab_peering_status: crate::memo::MemoPeeringStatus::Resident,
                        memo,
                    },
                },
            ),
    {
        let packet = Packet {
            to_slab_id: to,
            from_slab_id: from,
            from_slab_peering_status: crate::memo::MemoPeeringStatus::Resident,
            memo,
        };
        self.queue.push(SimEvent { deliver_at: self.clock + 1, packet });
    }

    /// Moves the clock on by `ticks`, then routes every packet now due, in
    /// queue order, and keeps the others waiting. Returns what the routing
    /// handed to subscribers, in order.
    pub fn advance_clock(&mut self, ticks: u64, net: &mut Network) -> (r: Vec<Dispatch>)
        requires
            old(self).clock + ticks <= u64::MAX,
            old(net).wf(),
        ensures
            final(self).clock == old(self).clock + ticks,
            final(self).queue@ == waiting(old(self).queue@, final(self).clock),
            final(net).wf(),
            final(net).last_slab_id == old(net).last_slab_id,
            final(net).slabs@.dom() == old(net).slabs@.dom(),
            final(net).stores() == route_all(
                old(net).stores(),
                due_packets(old(self).queue@, final(self).clock),
            ),
            final(net).subscriptions() == old(net).subscriptions(),
            dispatches_view(r@) == route_all_dispatch(
                old(net).subscriptions(),
                old(net).stores(),
                due_packets(old(self).queue@, final(self).clock),
            ),
    {
        self.clock = self.clock + ticks;
        let now = self.clock;
        let mut pending: Vec<SimEvent> = Vec::new();
        std::mem::swap(&mut pending, &mut self.queue);
        let ghost q = pending@;
        let n = pending.len();
        let mut out: Vec<Dispatch> = Vec::new();
        let mut i: usize = 0;
        while i < n
            invariant
                n == q.len(),
                pending@ == q,
                i <= n,
                self.clock == now,
                net.wf(),
                net.last_slab_id == old(net).last_slab_id,
                net.slabs@.dom() == old(net).slabs@.dom(),
                net.stores() == route_all(old(net).stores(), due_packets(q.take(i as int), now)),
                net.subscriptions() == old(net).subscriptions(),
                dispatches_view(out@) == route_all_dispatch(
                    old(net).subscriptions(),
                    old(net).stores(),
                    due_packets(q.take(i as int), now),
                ),
                self.queue@ == waiting(q.take(i as int), now),
            decreases n - i,
        {
            assert(q.take(i + 1).drop_last() =~= q.take(i as int));
            let ev = &pending[i];
            if ev.deliver_at <= now {
                let ghost d = due_packets(q.take(i as int), now);
                assert(d.push(ev.packet).drop_last() =~= d);
                let handed = net.distribute_memos(ev.packet.share());
                match handed {
                    Some(d) => {
                        let mut d = d;
                        let ghost prev = out@;
                        let ghost dd = d@;
                        out.append(&mut d);
                        assert(out@ == prev + dd);
                        assert(dispatches_view(out@) =~= dispatches_view(prev) + dispatches_view(dd));
                    },
                    None => {},
                }
            } else {
                self.queue.push(SimEvent { deliver_at: ev.deliver_at, packet: ev.packet.share() });
            }
            i = i + 1;
        }
        assert(q.take(n as int) =~= q);
        out
    }
}

/// Nothing is delivered before its tick: when every queued packet is due
/// after `now`, none is due by `now`, the queue stays as it is, and the
/// slabs' stores are untouched.
pub proof fn lemma_nothing_early(st: Map<SlabId, Store>, q: Seq<SimEvent>, now: u64)
    requires
        forall|i: int| 0 <= i < q.len() ==> #[trigger] q[i].deliver_at > now,
    ensures
        due_packets(q, now) == Seq::<Packet>::empty(),
        waiting(q, now) == q,
        route_all(st, due_packets(q, now)) == st,
    decreases q.len(),
{
    if q.len() > 0 {
        let p = q.drop_last();
        assert forall|i: int| 0 <= i < p.len() implies #[trigger] p[i].deliver_at > now by {
            assert(p[i] == q[i]);
        }
        lemma_nothing_early(st, p, now);
        assert(q.last() == q[q.len() - 1]);
        assert(waiting(q, now) =~= q);
    }
}

/// Once the clock has passed every delivery tick, the whole queue is
/// delivered, in order, and nothing is left waiting.
pub proof fn lemma_all_due(q: Seq<SimEvent>, now: u64)
    requires
        forall|i: int| 0 <= i < q.len() ==> #[trigger] q[i].deliver_at <= now,
    ensures
        due_packets(q, now) == q.map_values(|e: SimEvent| e.packet),
        waiting(q, now) == Seq::<SimEvent>::empty(),
    decreases q.len(),
{
    if q.len() > 0 {
        let p = q.drop_last();
        assert forall|i: int| 0 <= i < p.len() implies #[trigger] p[i].deliver_at <= now by {
            assert(p[i] == q[i]);
        }
        lemma_all_due(p, now);
        assert(q.last() == q[q.len() - 1]);
        assert(due_packets(q, now) =~= q.map_values(|e: SimEvent| e.packet));
    }
}

} // verus!
