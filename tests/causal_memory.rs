use unbase::codec::{decode_packet, WireMemoRef, WirePacket};
use unbase::memo::{
    Memo, MemoBody, MemoId, MemoPeer, MemoPeeringStatus, MemoRefHead, SlabAnticipatedLifetime,
    SlabPresence, SlabRef, TransportAddress, TransportAddressUDP,
};
use unbase::memoref::MemoRef;
use unbase::network::Network;
use unbase::simulator::Simulator;
use unbase::slab::{Slab, Transmission};
use unbase::transport::{get_return_address, make_packet, udp_target, TransmitterArgs};

fn edit(id: MemoId, slab: u32, subject: u64, parents: Vec<MemoId>, value: &str) -> Memo {
    Memo::new(
        id,
        slab,
        Some(subject),
        MemoRefHead(parents),
        MemoBody::Edit(vec![("animal_sound".to_string(), value.to_string())]),
    )
}

fn slab_ref(id: u32) -> SlabRef {
    SlabRef {
        slab_id: id,
        presence: SlabPresence {
            slab_id: id,
            address: TransportAddress::Simulator,
            lifetime: SlabAnticipatedLifetime::Unknown,
        },
    }
}

fn value_of(memo: &Memo) -> String {
    let (values, _) = memo.get_values().unwrap();
    values[0].1.clone()
}

fn new_registered(net: &mut Network) -> u32 {
    Slab::new(net)
}

/// A new slab of `net`, taken out of its directory to be worked on alone.
fn fresh_slab(net: &mut Network) -> Slab {
    let id = Slab::new(net);
    net.slabs.remove(&id).unwrap()
}

#[test]
fn ids_combine_slab_and_counter() {
    let mut net = Network::new();
    let mut slab = fresh_slab(&mut net);
    assert_eq!(slab.id, 1);
    assert_eq!(slab.gen_memo_id(), (1u64 << 32) | 1);
    assert_eq!(slab.gen_memo_id(), (1u64 << 32) | 2);
    assert_eq!(slab.generate_subject_id(), (1u64 << 32) | 1);
    let other = Slab::new(&mut net);
    assert_eq!(other, 2);
}

#[test]
fn put_memos_twice_is_idempotent() {
    let mut net = Network::new();
    let mut slab = fresh_slab(&mut net);
    let ctx = slab.create_context();
    slab.subscribe_subject(7, ctx);
    let m = edit(10, slab.id, 7, vec![], "Moo");
    let first = slab.put_memos(vec![m.share()]);
    assert_eq!(first.len(), 1);
    assert_eq!(first[0].subject_id, Some(7));
    assert_eq!(first[0].memo_ids, vec![10]);
    assert_eq!(first[0].contexts, vec![ctx]);
    assert_eq!(slab.count_of_memorefs_resident(), 1);
    let second = slab.put_memos(vec![m.share()]);
    assert!(second.is_empty());
    assert_eq!(slab.count_of_memorefs_resident(), 1);
    assert_eq!(slab.dispatch_subject_memorefs(7), vec![ctx]);
}

#[test]
fn put_memos_empty_is_noop() {
    let mut net = Network::new();
    let mut slab = fresh_slab(&mut net);
    assert!(slab.put_memos(vec![]).is_empty());
    assert_eq!(slab.count_of_memorefs_resident(), 0);
}

#[test]
fn put_memos_skips_duplicate_in_one_batch() {
    let mut net = Network::new();
    let mut slab = fresh_slab(&mut net);
    let a = edit(1, slab.id, 7, vec![], "Moo");
    let b = edit(2, slab.id, 7, vec![1], "Woof");
    let stored = slab.put_memos(vec![a.share(), b.share(), a.share()]);
    assert_eq!(stored.len(), 1);
    assert_eq!(stored[0].memo_ids, vec![1, 2]);
    assert!(stored[0].contexts.is_empty());
    assert_eq!(slab.count_of_memorefs_resident(), 2);
}

#[test]
fn put_memos_groups_by_subject() {
    let mut net = Network::new();
    let mut slab = fresh_slab(&mut net);
    let c1 = slab.create_context();
    let c2 = slab.create_context();
    slab.subscribe_subject(7, c1);
    slab.subscribe_subject(8, c2);
    slab.subscribe_subject(8, c1);
    let batch = vec![
        edit(1, slab.id, 8, vec![], "Moo"),
        edit(2, slab.id, 7, vec![], "Woof"),
        edit(3, slab.id, 8, vec![1], "Meow"),
        Memo::new_basic_noparent(4, slab.id, MemoBody::Edit(vec![])),
        edit(5, slab.id, 9, vec![], "Baa"),
    ];
    let d = slab.put_memos(batch);
    let got: Vec<(Option<u64>, Vec<u64>, Vec<u64>)> =
        d.iter().map(|x| (x.subject_id, x.memo_ids.clone(), x.contexts.clone())).collect();
    assert_eq!(
        got,
        vec![
            (Some(8), vec![1, 3], vec![c2, c1]),
            (Some(7), vec![2], vec![c1]),
            (None, vec![4], vec![]),
            (Some(9), vec![5], vec![]),
        ]
    );
    assert_eq!(slab.count_of_memorefs_resident(), 5);
}

#[test]
fn descends_along_a_chain() {
    let mut net = Network::new();
    let mut slab = fresh_slab(&mut net);
    let a = edit(1, slab.id, 7, vec![], "Moo");
    let b = edit(2, slab.id, 7, vec![1], "Woof");
    let c = edit(3, slab.id, 7, vec![2], "Meow");
    slab.put_memos(vec![a.share(), b.share(), c.share()]);
    let ref_a = MemoRef::new_from_memo(&a);
    let ref_c = MemoRef::new_from_memo(&c);
    assert!(c.descends(&ref_a, &slab));
    assert!(!a.descends(&ref_c, &slab));
    assert!(!a.descends(&ref_a, &slab));
    assert!(b.descends(&ref_a, &slab));
}

#[test]
fn descends_stops_at_remote_memos() {
    let mut net = Network::new();
    let mut slab = fresh_slab(&mut net);
    let a = edit(1, slab.id, 7, vec![], "Moo");
    let b = edit(2, slab.id, 7, vec![1], "Woof");
    let c = edit(3, slab.id, 7, vec![2], "Meow");
    slab.put_memos(vec![a.share(), b.share(), c.share()]);
    slab.remotize_memo_ids(&[2]);
    let ref_a = MemoRef::new_from_memo(&a);
    assert!(!c.descends(&ref_a, &slab));
}

#[test]
fn remotize_then_localize_restores_body() {
    let mut net = Network::new();
    let mut slab = fresh_slab(&mut net);
    let m = edit(5, slab.id, 7, vec![], "Meow");
    slab.put_memos(vec![m.share()]);
    slab.remotize_memo_ids(&[5]);
    assert!(!slab.is_memo_resident(5));
    assert_eq!(slab.count_of_memorefs_resident(), 1);
    let back = slab.localize_memo(5, Some(m.share())).unwrap();
    assert!(slab.is_memo_resident(5));
    assert_eq!(value_of(&back), "Meow");
    assert_eq!(back.id, 5);
}

#[test]
fn localize_without_copy_fails() {
    let mut net = Network::new();
    let mut slab = fresh_slab(&mut net);
    let m = edit(5, slab.id, 7, vec![], "Meow");
    slab.put_memos(vec![m.share()]);
    slab.remotize_memo_ids(&[5]);
    match slab.localize_memo(5, None) {
        Err(e) => assert_eq!(e, "unable to localize memo"),
        Ok(_) => panic!("localized without a copy"),
    }
    assert!(!slab.is_memo_resident(5));
    assert!(slab.localize_memo(99, Some(m.share())).is_err());
}

#[test]
fn unsubscribe_removes_context() {
    let mut net = Network::new();
    let mut slab = fresh_slab(&mut net);
    let c1 = slab.create_context();
    let c2 = slab.create_context();
    assert_ne!(c1, c2);
    slab.subscribe_subject(9, c1);
    slab.subscribe_subject(9, c2);
    slab.subscribe_subject(9, c1);
    slab.unsubscribe_subject(9, c1);
    assert_eq!(slab.dispatch_subject_memorefs(9), vec![c2]);
    assert!(slab.dispatch_subject_memorefs(10).is_empty());
}

#[test]
fn peers_and_emit_target() {
    let mut net = Network::new();
    let mut slab = fresh_slab(&mut net);
    for id in 10..17u32 {
        slab.add_peer(slab_ref(id));
    }
    assert_eq!(slab.peer_slab_count(), 7);
    let m1 = edit(1, slab.id, 7, vec![], "Moo");
    let m2 = edit(2, slab.id, 7, vec![1], "Woof");
    let out: Vec<Transmission> = slab.emit_memos(&vec![m1, m2]);
    let got: Vec<(u32, u64)> = out.iter().map(|t| (t.to_slab_id, t.memo.id)).collect();
    assert_eq!(
        got,
        vec![(10, 1), (11, 1), (12, 1), (13, 1), (14, 1), (10, 2), (11, 2), (12, 2), (13, 2), (14, 2)]
    );
}

#[test]
fn emit_with_few_peers_reaches_all() {
    let mut net = Network::new();
    let mut slab = fresh_slab(&mut net);
    slab.add_peer(slab_ref(4));
    let m1 = edit(1, slab.id, 7, vec![], "Moo");
    let out = slab.emit_memos(&vec![m1]);
    assert_eq!(out.len(), 1);
    assert_eq!(out[0].to_slab_id, 4);
}

#[test]
fn deliver_all_memos_flushes_queue() {
    let mut net = Network::new();
    let id = new_registered(&mut net);
    let sender = net.get_slab(id).unwrap().get_sender();
    let m = edit(3, id, 7, vec![], "Moo");
    assert!(sender.send(&mut net, &m));
    assert_eq!(net.get_slab(id).unwrap().count_of_memorefs_resident(), 0);
    let mut slab = net.slabs.remove(&id).unwrap();
    let delivered = slab.deliver_all_memos();
    assert_eq!(delivered.len(), 1);
    assert_eq!(delivered[0].memo_ids, vec![3]);
    assert_eq!(slab.count_of_memorefs_resident(), 1);
    assert!(slab.deliver_all_memos().is_empty());
}

#[test]
fn simulator_delivers_only_at_tick() {
    let mut net = Network::new();
    let a = new_registered(&mut net);
    let b = new_registered(&mut net);
    let mut sim = Simulator::new();
    sim.send(a, b, edit(1, a, 7, vec![], "Moo"));
    sim.advance_clock(0, &mut net);
    assert_eq!(net.get_slab(b).unwrap().count_of_memorefs_resident(), 0);
    assert_eq!(sim.queue.len(), 1);
    sim.advance_clock(1, &mut net);
    assert_eq!(net.get_slab(b).unwrap().count_of_memorefs_resident(), 1);
    assert!(sim.queue.is_empty());
    sim.send(a, b, edit(2, a, 7, vec![1], "Woof"));
    sim.send(a, b, edit(3, a, 7, vec![2], "Meow"));
    sim.advance_clock(5, &mut net);
    assert_eq!(net.get_slab(b).unwrap().count_of_memorefs_resident(), 3);
}

#[test]
fn simulator_hands_new_memos_to_subscribers() {
    let mut net = Network::new();
    let a = new_registered(&mut net);
    let mut slab_b = fresh_slab(&mut net);
    let b = slab_b.id;
    let ctx = slab_b.create_context();
    slab_b.subscribe_subject(7, ctx);
    assert!(net.register_slab(slab_b));
    let mut sim = Simulator::new();
    let m = edit(1, a, 7, vec![], "Moo");
    sim.send(a, b, m.share());
    sim.send(a, b, m.share());
    let handed = sim.advance_clock(1, &mut net);
    assert_eq!(handed.len(), 1);
    assert_eq!(handed[0].memo_ids, vec![1]);
    assert_eq!(handed[0].contexts, vec![ctx]);
}

#[test]
fn head_compaction_prunes_ancestors() {
    let mut net = Network::new();
    let mut slab = fresh_slab(&mut net);
    let a = edit(1, slab.id, 7, vec![], "Moo");
    let b = edit(2, slab.id, 7, vec![1], "Woof");
    let x = edit(3, slab.id, 7, vec![], "Baa");
    let c = edit(4, slab.id, 7, vec![2, 3], "Meow");
    slab.put_memos(vec![a.share(), b.share(), x.share(), c.share()]);
    let head = slab.apply_memo_to_head(&MemoRefHead(vec![]), &a);
    assert_eq!(head.0, vec![1]);
    let head = slab.apply_memo_to_head(&head, &x);
    assert_eq!(head.0, vec![1, 3]);
    let head = slab.apply_memo_to_head(&head, &b);
    assert_eq!(head.0, vec![3, 2]);
    let head = slab.apply_memo_to_head(&head, &a);
    assert_eq!(head.0, vec![3, 2]);
    let head = slab.apply_memo_to_head(&head, &c);
    assert_eq!(head.0, vec![4]);
    let again = slab.apply_memo_to_head(&head, &c);
    assert_eq!(again.0, vec![4]);
}

#[test]
fn route_to_unknown_slab_is_dropped() {
    let mut net = Network::new();
    let a = new_registered(&mut net);
    let packet = make_packet(42, a, edit(1, a, 7, vec![], "Moo"));
    assert!(net.distribute_memos(packet).is_none());
    assert_eq!(net.get_slab(a).unwrap().count_of_memorefs_resident(), 0);
}

#[test]
fn route_records_sender_status() {
    let mut net = Network::new();
    let a = new_registered(&mut net);
    let b = new_registered(&mut net);
    assert!(net.distribute_memos(make_packet(b, a, edit(1, a, 7, vec![], "Moo"))).is_some());
    let slab_b = net.get_slab(b).unwrap();
    let mr = slab_b.memorefs_by_id.get(&1).unwrap();
    assert_eq!(mr.peers.0, vec![MemoPeer { slab_id: a, status: MemoPeeringStatus::Resident }]);
}

#[test]
fn decoding_interns_memo_ids() {
    let mut net = Network::new();
    let a = new_registered(&mut net);
    let b = new_registered(&mut net);
    let wire_ref = |status| WireMemoRef {
        memo_id: 77,
        subject_id: Some(7),
        has_memo: true,
        peers: vec![MemoPeer { slab_id: a, status }],
    };
    let wire = |id: MemoId, status| WirePacket {
        to_slab_id: b,
        from_slab_id: a,
        from_slab_peering_status: MemoPeeringStatus::Resident,
        memo_id: id,
        owning_slab_id: a,
        subject_id: Some(7),
        parents: vec![wire_ref(status)],
        body: MemoBody::Edit(vec![]),
    };
    let p1 = decode_packet(&mut net, slab_ref(a), wire(100, MemoPeeringStatus::Participating)).unwrap();
    assert_eq!(net.get_slab(b).unwrap().count_of_memorefs_resident(), 1);
    let p2 = decode_packet(&mut net, slab_ref(a), wire(101, MemoPeeringStatus::Resident)).unwrap();
    assert_eq!(net.get_slab(b).unwrap().count_of_memorefs_resident(), 1);
    assert_eq!(p1.memo.get_parent_head().0, vec![77]);
    assert_eq!(p2.memo.get_parent_head().0, vec![77]);
    let mr = net.get_slab(b).unwrap().memorefs_by_id.get(&77).unwrap();
    assert!(!mr.is_resident());
    assert_eq!(mr.peers.0, vec![MemoPeer { slab_id: a, status: MemoPeeringStatus::Resident }]);
    let mut to_nowhere = wire(102, MemoPeeringStatus::Resident);
    to_nowhere.to_slab_id = 99;
    assert!(decode_packet(&mut net, slab_ref(a), to_nowhere).is_none());
}

#[test]
fn decoding_reuses_resident_memoref() {
    let mut net = Network::new();
    let b = new_registered(&mut net);
    let mut slab = net.slabs.remove(&b).unwrap();
    slab.put_memos(vec![edit(77, b, 7, vec![], "Moo")]);
    let w = WireMemoRef { memo_id: 77, subject_id: Some(8), has_memo: false, peers: vec![] };
    assert_eq!(slab.intern_memoref(&w), 77);
    let mr = slab.memorefs_by_id.get(&77).unwrap();
    assert!(mr.is_resident());
    assert_eq!(mr.subject_id, Some(7));
    assert_eq!(slab.count_of_memorefs_resident(), 1);
}

#[test]
fn slabrefs_are_interned() {
    let mut net = Network::new();
    let mut slab = fresh_slab(&mut net);
    let i = slab.intern_slabref(slab_ref(5));
    let j = slab.intern_slabref(slab_ref(6));
    let k = slab.intern_slabref(slab_ref(5));
    assert_eq!(i, k);
    assert_ne!(i, j);
    assert_eq!(slab.peer_slab_count(), 2);
}

#[test]
fn memo_body_accessors() {
    let e = edit(1, 1, 7, vec![], "Moo");
    assert!(e.does_peering());
    assert_eq!(e.get_values().map(|(_, full)| full), Some(false));
    assert!(e.get_relations().is_none());
    let full = Memo::new(
        2,
        1,
        Some(7),
        MemoRefHead(vec![]),
        MemoBody::FullyMaterialized { v: vec![("k".to_string(), "v".to_string())], r: vec![] },
    );
    assert_eq!(full.get_values().map(|(_, full)| full), Some(true));
    assert_eq!(full.get_relations().map(|(r, full)| (r.len(), full)), Some((0, true)));
    let request = Memo::new_basic_noparent(3, 1, MemoBody::MemoRequest(vec![1], slab_ref(2)));
    assert!(!request.does_peering());
    assert!(request.get_values().is_none());
}

#[test]
fn presence_memo_announces_slab() {
    let mut net = Network::new();
    let mut slab = fresh_slab(&mut net);
    let m = slab.presence_memo(TransportAddress::Simulator, None);
    assert_eq!(m.id, (1u64 << 32) | 1);
    assert!(!m.does_peering());
    assert!(m.get_parent_head().0.is_empty());
}

#[test]
fn udp_addressing() {
    let own = TransportAddressUDP::new("127.0.0.1:12345".to_string());
    assert_eq!(own.to_string(), "udp:127.0.0.1:12345");
    let peer = TransportAddress::UDP(TransportAddressUDP::new("10.0.0.2:9".to_string()));
    match get_return_address(&own, &peer) {
        Some(TransportAddress::UDP(a)) => assert_eq!(a.address, "127.0.0.1:12345"),
        _ => panic!("expected a UDP return address"),
    }
    assert!(get_return_address(&own, &TransportAddress::Simulator).is_none());
    let remote = TransmitterArgs::Remote(4, peer);
    let (id, addr) = udp_target(&remote).unwrap();
    assert_eq!((id, addr.address.as_str()), (4, "10.0.0.2:9"));
    assert!(udp_target(&TransmitterArgs::Local(4)).is_none());
    assert!(udp_target(&TransmitterArgs::Remote(4, TransportAddress::Local)).is_none());
}

#[test]
fn two_slabs_converge_and_localize() {
    let mut net = Network::new();
    let a = new_registered(&mut net);
    let b = new_registered(&mut net);
    let mut sim = Simulator::new();
    let mut slab_a = net.slabs.remove(&a).unwrap();
    let subject = slab_a.generate_subject_id();
    let mut ids = Vec::new();
    let mut parent: Vec<MemoId> = vec![];
    for value in ["Moo", "Woof", "Meow"] {
        let id = slab_a.gen_memo_id();
        let m = edit(id, a, subject, parent.clone(), value);
        slab_a.put_memos(vec![m.share()]);
        sim.send(a, b, m);
        parent = vec![id];
        ids.push(id);
    }
    assert!(net.register_slab(slab_a));
    sim.advance_clock(1, &mut net);
    let last = *ids.last().unwrap();
    let on_b = net.get_slab(b).unwrap().memorefs_by_id.get(&last).unwrap();
    let copy = on_b.get_memo_if_resident().unwrap().share();
    assert_eq!(value_of(&copy), "Meow");

    let mut slab_a = net.slabs.remove(&a).unwrap();
    slab_a.remotize_memo_ids(&ids);
    assert!(!slab_a.is_memo_resident(last));
    let back = slab_a.localize_memo(last, Some(copy)).unwrap();
    assert_eq!(value_of(&back), "Meow");
    assert!(slab_a.is_memo_resident(last));
}

#[test]
fn slabrefs_equal_by_id() {
    let mut other = slab_ref(3);
    other.presence.address = TransportAddress::UDP(TransportAddressUDP::new("1.2.3.4:5".to_string()));
    assert!(slab_ref(3) == other);
    assert!(slab_ref(3) != slab_ref(4));
}

#[test]
fn ledger_replaces_entry_in_place() {
    let mut net = Network::new();
    let mut slab = fresh_slab(&mut net);
    slab.put_memos(vec![edit(1, slab.id, 7, vec![], "Moo")]);
    slab.set_peer_status(1, 4, MemoPeeringStatus::Participating);
    slab.set_peer_status(1, 5, MemoPeeringStatus::Unknown);
    slab.set_peer_status(1, 4, MemoPeeringStatus::Resident);
    slab.set_peer_status(99, 4, MemoPeeringStatus::Resident);
    let mr = slab.memorefs_by_id.get(&1).unwrap();
    assert_eq!(
        mr.peers.0,
        vec![
            MemoPeer { slab_id: 4, status: MemoPeeringStatus::Resident },
            MemoPeer { slab_id: 5, status: MemoPeeringStatus::Unknown },
        ]
    );
    assert_eq!(slab.count_of_memorefs_resident(), 1);
}

#[test]
fn new_slab_is_registered() {
    let mut net = Network::new();
    let a = Slab::new(&mut net);
    let b = Slab::new(&mut net);
    assert!(a < b);
    let slab = net.get_slab(b).unwrap();
    assert_eq!(slab.id, b);
    assert_eq!(slab.count_of_memorefs_resident(), 0);
    assert_eq!(slab.peer_slab_count(), 0);
    assert!(net.get_slab(a).is_some());
}

#[test]
fn decoding_resolves_slab_handles() {
    let mut net = Network::new();
    let a = new_registered(&mut net);
    let b = new_registered(&mut net);
    let request = |id: MemoId| WirePacket {
        to_slab_id: b,
        from_slab_id: a,
        from_slab_peering_status: MemoPeeringStatus::Resident,
        memo_id: id,
        owning_slab_id: a,
        subject_id: None,
        parents: vec![],
        body: MemoBody::MemoRequest(vec![1], slab_ref(9)),
    };
    assert!(decode_packet(&mut net, slab_ref(a), request(200)).is_some());
    assert!(decode_packet(&mut net, slab_ref(a), request(201)).is_some());
    let slab_b = net.get_slab(b).unwrap();
    let ids: Vec<u32> = slab_b.peer_refs.iter().map(|r| r.slab_id).collect();
    assert_eq!(ids, vec![a, 9]);
}

#[test]
fn encoding_parents_carries_metadata() {
    let mut net = Network::new();
    let mut slab = fresh_slab(&mut net);
    slab.put_memos(vec![edit(1, slab.id, 8, vec![], "Moo")]);
    slab.set_peer_status(1, 4, MemoPeeringStatus::Participating);
    slab.put_memos(vec![edit(2, slab.id, 8, vec![], "Woof")]);
    slab.remotize_memo_ids(&[2]);
    let child = edit(3, slab.id, 7, vec![1, 2, 5], "Meow");
    let wire = slab.encode_parents(&child);
    let got: Vec<(u64, Option<u64>, bool, usize)> =
        wire.iter().map(|w| (w.memo_id, w.subject_id, w.has_memo, w.peers.len())).collect();
    assert_eq!(got, vec![(1, Some(8), true, 1), (2, Some(8), false, 0), (5, Some(7), false, 0)]);
    assert_eq!(wire[0].peers[0], MemoPeer { slab_id: 4, status: MemoPeeringStatus::Participating });
}
