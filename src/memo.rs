//! Memos: immutable causal records, and the peering ledger entries they carry.
use std::sync::Arc;
use vstd::prelude::*;

verus! {

pub type MemoId = u64;

pub type SlabId = u32;

pub type SubjectId = u64;

pub type RelationSlotId = u8;

/// A UDP endpoint, written `host:port`.
pub struct TransportAddressUDP {
    pub address: String,
}

/// Where a slab can be reached.
pub enum TransportAddress {
    Local,
    Simulator,
    UDP(TransportAddressUDP),
}

#[derive(Clone, Copy, Debug, PartialEq, Eq, Structural)]
pub enum SlabAnticipatedLifetime {
    Ephemeral,
    Session,
    Long,
    VeryLong,
    Unknown,
}

/// What a slab announces about itself to a peer.
pub struct SlabPresence {
    pub slab_id: SlabId,
    pub address: TransportAddress,
    pub lifetime: SlabAnticipatedLifetime,
}

/// A handle on a slab that may live elsewhere: its id and how to reach it.
pub struct SlabRef {
    pub slab_id: SlabId,
    pub presence: SlabPresence,
}

impl TransportAddress {
    /// A copy of this address.
    pub fn share(&self) -> (r: TransportAddress)
        ensures
            r == *self,
    {
        match self {
            TransportAddress::Local => TransportAddress::Local,
            TransportAddress::Simulator => TransportAddress::Simulator,
            TransportAddress::UDP(a) => TransportAddress::UDP(
                TransportAddressUDP { address: a.address.clone() },
            ),
        }
    }
}

impl SlabRef {
    /// A copy of this handle.
    pub fn share(&self) -> (r: SlabRef)
        ensures
            r == *self,
    {
        SlabRef {
            slab_id: self.slab_id,
            presence: SlabPresence {
                slab_id: self.presence.slab_id,
                address: self.presence.address.share(),
                lifetime: self.presence.lifetime,
            },
        }
    }
}

/// Two handles on one slab are equal, whatever address each carries.
impl PartialEq for SlabRef {
    fn eq(&self, other: &SlabRef) -> (r: bool)
        ensures
            r == (self.slab_id == other.slab_id),
    {
        self.slab_id == other.slab_id
    }
}

impl vstd::std_specs::cmp::PartialEqSpecImpl for SlabRef {
    open spec fn obeys_eq_spec() -> bool {
        true
    }

    open spec fn eq_spec(&self, other: &SlabRef) -> bool {
        self.slab_id == other.slab_id
    }
}

/// What a peer slab is known to do with a given memo.
#[derive(Clone, Copy, Debug, PartialEq, Eq, Structural)]
pub enum MemoPeeringStatus {
    Resident,
    Participating,
    NonParticipating,
    Unknown,
}

/// One entry of a memo's peering ledger: a peer slab and its status.
#[derive(Clone, Copy, Debug, PartialEq, Eq, Structural)]
pub struct MemoPeer {
    pub slab_id: SlabId,
    pub status: MemoPeeringStatus,
}

pub struct MemoPeerList(pub Vec<MemoPeer>);

/// The causal frontier of a subject, or the parents of a memo, as memo ids.
/// Each id stands for the one memo reference that the owning slab holds for it.
pub struct MemoRefHead(pub Vec<MemoId>);

impl MemoRefHead {
    pub open spec fn view(&self) -> Seq<MemoId> {
        self.0@
    }
}

/// A relation slot of a subject, pointing at another subject and its head.
pub struct RelationEntry {
    pub slot: RelationSlotId,
    pub subject_id: SubjectId,
    pub head: MemoRefHead,
}

#[allow(inconsistent_fields)]
pub enum MemoBody {
    SlabPresence { p: SlabPresence, r: Option<MemoRefHead> },
    Relation(Vec<RelationEntry>),
    Edit(Vec<(String, String)>),
    FullyMaterialized { v: Vec<(String, String)>, r: Vec<RelationEntry> },
    PartiallyMaterialized { v: Vec<(String, String)>, r: Vec<RelationEntry> },
    Peering(MemoId, Option<SubjectId>, MemoPeerList),
    MemoRequest(Vec<MemoId>, SlabRef),
}

/// The immutable part of a memo, shared by every copy of it.
pub struct MemoInner {
    pub id: MemoId,
    pub subject_id: Option<SubjectId>,
    pub parents: MemoRefHead,
    pub body: MemoBody,
}

/// An immutable causal record. Copies share one `MemoInner`.
pub struct Memo {
    pub id: MemoId,
    pub owning_slab_id: SlabId,
    pub subject_id: Option<SubjectId>,
    pub inner: Arc<MemoInner>,
}

/// Whether a body takes part in the causal state of a subject: control
/// messages (requests, peering updates, presence) do not.
pub open spec fn body_does_peering(b: MemoBody) -> bool {
    match b {
        MemoBody::MemoRequest(..) => false,
        MemoBody::Peering(..) => false,
        MemoBody::SlabPresence { .. } => false,
        _ => true,
    }
}

impl Memo {
    /// The parents of this memo, as memo ids.
    pub open spec fn parents_view(&self) -> Seq<MemoId> {
        self.inner.parents@
    }

    /// A memo whose id fields agree with its shared part.
    pub open spec fn wf(&self) -> bool {
        self.id == self.inner.id && self.subject_id == self.inner.subject_id
    }

    pub fn new(
        id: MemoId,
        owning_slab_id: SlabId,
        subject_id: Option<SubjectId>,
        parents: MemoRefHead,
        body: MemoBody,
    ) -> (r: Memo)
        ensures
            r.wf(),
            r.id == id,
            r.owning_slab_id == owning_slab_id,
            r.subject_id == subject_id,
            r.inner.parents == parents,
            r.inner.body == body,
    {
        Memo {
            id,
            owning_slab_id,
            subject_id,
            inner: Arc::new(MemoInner { id, subject_id, parents, body }),
        }
    }

    /// A memo with no parents, such as a presence announcement.
    pub fn new_basic_noparent(id: MemoId, owning_slab_id: SlabId, body: MemoBody) -> (r: Memo)
        ensures
            r.wf(),
            r.id == id,
            r.owning_slab_id == owning_slab_id,
            r.subject_id.is_none(),
            r.parents_view() == Seq::<MemoId>::empty(),
            r.inner.body == body,
    {
        Memo::new(id, owning_slab_id, None, MemoRefHead(Vec::new()), body)
    }

    /// Another handle on the same memo.
    pub fn share(&self) -> (r: Memo)
        ensures
            r == *self,
    {
        Memo {
            id: self.id,
            owning_slab_id: self.owning_slab_id,
            subject_id: self.subject_id,
            inner: Arc::clone(&self.inner),
        }
    }

    pub fn get_parent_head(&self) -> (r: &MemoRefHead)
        ensures
            *r == self.inner.parents,
    {
        &self.inner.parents
    }

    /// The field values that the body sets, and whether they are a full snapshot.
    pub fn get_values(&self) -> (r: Option<(&Vec<(String, String)>, bool)>)
        ensures
            match self.inner.body {
                MemoBody::Edit(v) => r == Some((&v, false)),
                MemoBody::FullyMaterialized { v, r: _ } => r == Some((&v, true)),
                _ => r.is_none(),
            },
    {
        match &self.inner.body {
            MemoBody::Edit(v) => Some((v, false)),
            MemoBody::FullyMaterialized { v, r: _ } => Some((v, true)),
            _ => None,
        }
    }

    /// The relations that the body sets, and whether they are a full snapshot.
    pub fn get_relations(&self) -> (r: Option<(&Vec<RelationEntry>, bool)>)
        ensures
            match self.inner.body {
                MemoBody::Relation(rel) => r == Some((&rel, false)),
                MemoBody::FullyMaterialized { v: _, r: rel } => r == Some((&rel, true)),
                _ => r.is_none(),
            },
    {
        match &self.inner.body {
            MemoBody::Relation(rel) => Some((rel, false)),
            MemoBody::FullyMaterialized { v: _, r: rel } => Some((rel, true)),
            _ => None,
        }
    }

    pub fn does_peering(&self) -> (r: bool)
        ensures
            r == body_does_peering(self.inner.body),
    {
        match &self.inner.body {
            MemoBody::MemoRequest(_, _) => false,
            MemoBody::Peering(_, _, _) => false,
            MemoBody::SlabPresence { p: _, r: _ } => false,
            _ => true,
        }
    }
}

} // verus!
