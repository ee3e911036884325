//! Memo references: a slab's local handle on a memo, resident or remote.
use crate::memo::{Memo, MemoId, MemoPeer, MemoPeerList, MemoPeeringStatus, SlabId, SubjectId};
use vstd::prelude::*;

verus! {

/// Whether the memo's body is held here, or has to be fetched from a peer.
pub enum MemoRefPtr {
    Resident(Memo),
    Remote,
}

pub struct MemoRef {
    pub id: MemoId,
    pub subject_id: Option<SubjectId>,
    pub peers: MemoPeerList,
    pub ptr: MemoRefPtr,
}

/// The mathematical content of a memo reference.
pub struct MemoRefView {
    pub id: MemoId,
    pub subject_id: Option<SubjectId>,
    pub peers: Seq<MemoPeer>,
    pub memo: Option<Memo>,
}

impl View for MemoRef {
    type V = MemoRefView;

    open spec fn view(&self) -> MemoRefView {
        MemoRefView {
            id: self.id,
            subject_id: self.subject_id,
            peers: self.peers.0@,
            memo: match self.ptr {
                MemoRefPtr::Resident(m) => Some(m),
                MemoRefPtr::Remote => None,
            },
        }
    }
}

/// The ledger after recording that slab `p.slab_id` has status `p.status`:
/// entries for that slab are replaced in place, else one is appended.
pub open spec fn ledger_set(peers: Seq<MemoPeer>, p: MemoPeer) -> Seq<MemoPeer> {
    if exists|i: int| 0 <= i < peers.len() && peers[i].slab_id == p.slab_id {
        Seq::new(peers.len(), |i: int| if peers[i].slab_id == p.slab_id { p } else { peers[i] })
    } else {
        peers.push(p)
    }
}

/// The ledger after recording each entry of `ps` in turn.
pub open spec fn ledger_merge(peers: Seq<MemoPeer>, ps: Seq<MemoPeer>) -> Seq<MemoPeer>
    decreases ps.len(),
{
    if ps.len() == 0 {
        peers
    } else {
        ledger_set(ledger_merge(peers, ps.drop_last()), ps.last())
    }
}

impl MemoRef {
    /// A resident reference to a memo that was authored or received here.
    pub fn new_from_memo(memo: &Memo) -> (r: MemoRef)
        ensures
            r@ == (MemoRefView {
                id: memo.id,
                subject_id: memo.subject_id,
                peers: Seq::empty(),
                memo: Some(*memo),
            }),
    {
        MemoRef {
            id: memo.id,
            subject_id: memo.subject_id,
            peers: MemoPeerList(Vec::new()),
            ptr: MemoRefPtr::Resident(memo.share()),
        }
    }

    /// A remote reference, known only by id and by the peers that hold it.
    pub fn new_remote(id: MemoId, subject_id: Option<SubjectId>, peers: Vec<MemoPeer>) -> (r:
        MemoRef)
        ensures
            r@ == (MemoRefView { id, subject_id, peers: peers@, memo: None }),
    {
        MemoRef { id, subject_id, peers: MemoPeerList(peers), ptr: MemoRefPtr::Remote }
    }

    pub fn is_resident(&self) -> (r: bool)
        ensures
            r == self@.memo.is_some(),
    {
        match &self.ptr {
            MemoRefPtr::Resident(_) => true,
            MemoRefPtr::Remote => false,
        }
    }

    pub fn get_memo_if_resident(&self) -> (r: Option<&Memo>)
        ensures
            r == match self@.memo {
                Some(m) => Some(&m),
                None => None::<&Memo>,
            },
    {
        match &self.ptr {
            MemoRefPtr::Resident(m) => Some(m),
            MemoRefPtr::Remote => None,
        }
    }

    /// Records in the ledger that `slab_id` has `status` for this memo.
    pub fn set_peer_status(&mut self, slab_id: SlabId, status: MemoPeeringStatus)
        ensures
            final(self)@ == (MemoRefView {
                peers: ledger_set(old(self)@.peers, MemoPeer { slab_id, status }),
                ..old(self)@
            }),
    {
        let p = MemoPeer { slab_id, status };
        let ghost old_peers = self.peers.0@;
        let n = self.peers.0.len();
        let mut found = false;
        let mut i: usize = 0;
        while i < n
            invariant
                n == old_peers.len(),
                self.peers.0@.len() == n,
                self.id == old(self).id,
                self.subject_id == old(self).subject_id,
                self.ptr == old(self).ptr,
                old_peers == old(self).peers.0@,
                i <= n,
                found == exists|j: int| 0 <= j < i && old_peers[j].slab_id == slab_id,
                forall|j: int|
                    0 <= j < i ==> self.peers.0@[j] == (if old_peers[j].slab_id == slab_id {
                        p
                    } else {
                        old_peers[j]
                    }),
                forall|j: int| i <= j < n ==> self.peers.0@[j] == old_peers[j],
            decreases n - i,
        {
            if self.peers.0[i].slab_id == slab_id {
                self.peers.0.set(i, p);
                found = true;
            }
            i = i + 1;
        }
        if found {
            assert(self.peers.0@ =~= ledger_set(old_peers, p));
        } else {
            self.peers.0.push(p);
            assert(self.peers.0@ =~= ledger_set(old_peers, p));
        }
    }
}

} // verus!
