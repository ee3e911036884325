//! The decisions of the UDP transport: addressing, packets and presence.
//! Sockets and worker threads stand outside the library.
use crate::memo::{
    Memo, MemoBody, MemoRefHead, MemoPeeringStatus, SlabAnticipatedLifetime, SlabId, SlabPresence,
    TransportAddress, TransportAddressUDP,
};
use crate::network::Packet;
use crate::slab::{combined_id, Slab};
use vstd::prelude::*;
use vstd::string::StringExecFns;

verus! {

/// What a transport is asked to reach: a slab of this process, or a slab
/// elsewhere at an address.
pub enum TransmitterArgs {
    Local(SlabId),
    Remote(SlabId, TransportAddress),
}

impl TransportAddressUDP {
    pub fn new(address: String) -> (r: TransportAddressUDP)
        ensures
            r.address == address,
    {
        TransportAddressUDP { address }
    }

    pub fn share(&self) -> (r: TransportAddressUDP)
        ensures
            r == *self,
    {
        TransportAddressUDP { address: self.address.clone() }
    }

    /// The address with its scheme, as in `udp:127.0.0.1:12345`.
    pub fn to_string(&self) -> (r: String)
        ensures
            r@ == "udp:"@ + self.address@,
    {
        proof {
            reveal_strlit("udp:");
        }
        let mut r = String::from_str("udp:");
        r.append(self.address.as_str());
        r
    }
}

/// The slab and address that a UDP transmitter for `args` sends to: only a
/// remote slab with a UDP address can be reached this way.
pub fn udp_target(args: &TransmitterArgs) -> (r: Option<(SlabId, TransportAddressUDP)>)
    ensures
        match args {
            TransmitterArgs::Remote(id, TransportAddress::UDP(a)) => r == Some((*id, *a)),
            _ => r.is_none(),
        },
{
    match args {
        TransmitterArgs::Remote(id, TransportAddress::UDP(a)) => Some((*id, a.share())),
        _ => None,
    }
}

/// This node's own address as a peer at `address` sees it: the UDP
/// transport answers only for UDP peers.
pub fn get_return_address(own: &TransportAddressUDP, address: &TransportAddress) -> (r: Option<
    TransportAddress,
>)
    ensures
        match address {
            TransportAddress::UDP(_) => r == Some(TransportAddress::UDP(*own)),
            _ => r.is_none(),
        },
{
    match address {
        TransportAddress::UDP(_) => Some(TransportAddress::UDP(own.share())),
        _ => None,
    }
}

/// The packet that carries `memo` from slab `from` to slab `to`; the sender
/// declares itself resident for the memo it sends.
pub fn make_packet(to: SlabId, from: SlabId, memo: Memo) -> (r: Packet)
    ensures
        r == (Packet {
            to_slab_id: to,
            from_slab_id: from,
            from_slab_peering_status: MemoPeeringStatus::Resident,
            memo,
        }),
{
    Packet { to_slab_id: to, from_slab_id: from, from_slab_peering_status: MemoPeeringStatus::Resident, memo }
}

impl Slab {
    /// A presence announcement of this slab at `address`, carrying the
    /// root-index seed the network gave, with a new memo id and no parents:
    /// the greeting sent to a newly seeded peer address.
    pub fn presence_memo(&mut self, address: TransportAddress, root_index_seed: Option<
        MemoRefHead,
    >) -> (r: Memo)
        requires
            old(self).last_memo_id < u32::MAX,
        ensures
            r.wf(),
            r.id as int == combined_id(old(self).id, final(self).last_memo_id),
            final(self).last_memo_id == old(self).last_memo_id + 1,
            r.owning_slab_id == old(self).id,
            r.subject_id.is_none(),
            r.parents_view() == Seq::<u64>::empty(),
            r.inner.body == (MemoBody::SlabPresence {
                p: SlabPresence {
                    slab_id: old(self).id,
                    address,
                    lifetime: SlabAnticipatedLifetime::Unknown,
                },
                r: root_index_seed,
            }),
            final(self).id == old(self).id,
            final(self).memorefs_by_id == old(self).memorefs_by_id,
            final(self).subject_subscriptions == old(self).subject_subscriptions,
            final(self).peer_refs == old(self).peer_refs,
            final(self).inbound == old(self).inbound,
            final(self).last_subject_id == old(self).last_subject_id,
            final(self).last_context_id == old(self).last_context_id,
    {
        let id = self.gen_memo_id();
        let presence = SlabPresence {
            slab_id: self.id,
            address,
            lifetime: SlabAnticipatedLifetime::Unknown,
        };
        Memo::new_basic_noparent(id, self.id, MemoBody::SlabPresence { p: presence, r: root_index_seed })
    }
}

} // verus!
