use bitchord::chord::{
    check_predecessor, closest_preceding_finger, find_successor_rpc, heal_successor, is_alive_reply, fix_fingers, handle_message, leave_ring,
    lookup_reply, rejoin_ring, relay_reply, chunk_reply, set_finger, stabilize, stabilize_query,
    Handling, Lookup,
};
use bitchord::message::{Message, Outgoing};
use bitchord::node::{node_view, Node, NodeInfo};
use bitchord::ring::is_between;

fn info(id: u8) -> NodeInfo {
    NodeInfo { id, address: format!("10.0.0.{}:8000", id) }
}

fn s(x: &str) -> String {
    x.to_string()
}

#[test]
fn is_between_plain_interval() {
    assert!(is_between(5, 1, 10, false));
    assert!(!is_between(1, 1, 10, false));
    assert!(!is_between(10, 1, 10, false));
    assert!(is_between(10, 1, 10, true));
    assert!(!is_between(11, 1, 10, true));
}

#[test]
fn is_between_wraps_round_the_ring() {
    assert!(is_between(250, 200, 10, false));
    assert!(is_between(5, 200, 10, false));
    assert!(is_between(0, 200, 10, false));
    assert!(!is_between(100, 200, 10, false));
    assert!(!is_between(200, 200, 10, false));
    assert!(is_between(10, 200, 10, true));
}

#[test]
fn is_between_single_member_ring_covers_everything() {
    assert!(is_between(7, 7, 7, false));
    assert!(is_between(0, 7, 7, false));
    assert!(is_between(255, 7, 7, false));
}

#[test]
fn responsibility_is_partitioned_between_two_members() {
    for (a, b) in [(10u8, 200u8), (200, 10), (0, 255), (3, 4)] {
        for v in 0..=255u8 {
            assert_ne!(is_between(v, a, b, true), is_between(v, b, a, true));
        }
    }
}

#[test]
fn new_node_is_alone() {
    let n = Node::new(42, s("1.2.3.4:8000"));
    assert_eq!(n.id, 42);
    assert_eq!(n.info, NodeInfo { id: 42, address: s("1.2.3.4:8000") });
    assert_eq!(n.successor, n.info);
    assert_eq!(n.predecessor, None);
    assert!(n.fingers.is_empty());
    assert_eq!(n.next_finger, 0);
    assert!(n.storage.is_empty());
    assert!(n.seeding_files.is_empty());
}

#[test]
fn node_view_shows_neighbours() {
    let mut n = Node::new(42, s("a:8000"));
    n.successor = info(50);
    let v = node_view(&n);
    assert_eq!(v.id, 42);
    assert_eq!(v.address, "a:8000");
    assert_eq!(v.successor_id, 50);
    assert_eq!(v.successor_address, "10.0.0.50:8000");
    assert_eq!(v.predecessor_id, None);
    assert_eq!(v.predecessor_address, None);
    n.predecessor = Some(info(30));
    let v = node_view(&n);
    assert_eq!(v.predecessor_id, Some(30));
    assert_eq!(v.predecessor_address, Some(s("10.0.0.30:8000")));
}

#[test]
fn lookup_in_own_interval_is_the_successor() {
    let mut n = Node::new(10, s("me"));
    n.successor = info(50);
    assert_eq!(find_successor_rpc(&n, 30), Lookup::Found(info(50)));
    assert_eq!(find_successor_rpc(&n, 50), Lookup::Found(info(50)));
}

#[test]
fn lookup_forwards_to_closest_preceding_finger() {
    let mut n = Node::new(10, s("me"));
    n.successor = info(50);
    n.fingers = vec![info(50), info(80), info(150), info(5)];
    // fingers scanned from the end: 5 is not in (10, 120), 150 is not, 80 is.
    assert_eq!(closest_preceding_finger(&n, 120), info(80));
    assert_eq!(
        find_successor_rpc(&n, 120),
        Lookup::Ask { via: info(80), fallback: info(50) }
    );
}

#[test]
fn lookup_with_no_preceding_finger_answers_successor() {
    let mut n = Node::new(10, s("me"));
    n.successor = info(50);
    assert_eq!(closest_preceding_finger(&n, 120), n.info);
    assert_eq!(find_successor_rpc(&n, 120), Lookup::Found(info(50)));
}

#[test]
fn lookup_reply_uses_answer_or_fallback() {
    assert_eq!(lookup_reply(info(1), Message::SuccessorResponse { node: info(9) }), info(9));
    assert_eq!(lookup_reply(info(1), Message::Ack), info(1));
}

#[test]
fn stabilize_adopts_closer_successor() {
    let mut n = Node::new(10, s("me"));
    n.successor = info(50);
    let q = stabilize_query(&n);
    assert_eq!(q, Outgoing { address: s("10.0.0.50:8000"), message: Message::GetPredecessor });
    let o = stabilize(&mut n, Message::PredecessorResponse { node: Some(info(30)) });
    assert_eq!(n.successor, info(30));
    assert_eq!(o, Outgoing { address: s("10.0.0.30:8000"), message: Message::Notify { node: n.info.clone() } });
}

#[test]
fn stabilize_keeps_successor_otherwise() {
    let mut n = Node::new(10, s("me"));
    n.successor = info(50);
    stabilize(&mut n, Message::PredecessorResponse { node: Some(info(60)) });
    assert_eq!(n.successor, info(50));
    stabilize(&mut n, Message::PredecessorResponse { node: None });
    assert_eq!(n.successor, info(50));
    let o = stabilize(&mut n, Message::Ack);
    assert_eq!(n.successor, info(50));
    assert_eq!(o.address, "10.0.0.50:8000");
}

#[test]
fn fix_fingers_cycles_through_entries() {
    let mut n = Node::new(250, s("me"));
    let expected = [(1usize, 252u8), (2, 254), (3, 2), (4, 10), (5, 26), (6, 58), (7, 122), (0, 251)];
    for (idx, target) in expected {
        assert_eq!(fix_fingers(&mut n), (idx, target));
        assert_eq!(n.next_finger, idx);
    }
}

#[test]
fn set_finger_fills_table_with_self() {
    let mut n = Node::new(10, s("me"));
    set_finger(&mut n, 3, info(77));
    assert_eq!(n.fingers.len(), 8);
    for (i, f) in n.fingers.iter().enumerate() {
        if i == 3 {
            assert_eq!(*f, info(77));
        } else {
            assert_eq!(*f, n.info);
        }
    }
    set_finger(&mut n, 0, info(12));
    assert_eq!(n.fingers[0], info(12));
    assert_eq!(n.fingers.len(), 8);
}

#[test]
fn ping_gets_pong() {
    let mut n = Node::new(1, s("me"));
    assert_eq!(handle_message(&mut n, Message::Ping), Handling::Reply(Message::Pong));
}

#[test]
fn find_successor_request_is_a_lookup() {
    let mut n = Node::new(1, s("me"));
    assert_eq!(handle_message(&mut n, Message::FindSuccessor { id: 9 }), Handling::Lookup { id: 9 });
}

#[test]
fn put_then_get_returns_value() {
    let mut n = Node::new(1, s("me"));
    let h = handle_message(&mut n, Message::PutData { key_id: 3, file_hash: s("abc"), value: s("v1") });
    assert_eq!(h, Handling::Reply(Message::Ack));
    let h = handle_message(&mut n, Message::GetData { key_id: 3, file_hash: s("abc") });
    assert_eq!(h, Handling::Reply(Message::DataResponse { value: Some(s("v1")) }));
    handle_message(&mut n, Message::PutData { key_id: 3, file_hash: s("abc"), value: s("v2") });
    let h = handle_message(&mut n, Message::GetData { key_id: 3, file_hash: s("abc") });
    assert_eq!(h, Handling::Reply(Message::DataResponse { value: Some(s("v2")) }));
    assert_eq!(n.storage.len(), 1);
    let h = handle_message(&mut n, Message::GetData { key_id: 3, file_hash: s("zzz") });
    assert_eq!(h, Handling::Reply(Message::DataResponse { value: None }));
}

#[test]
fn notify_sets_predecessor_when_closer() {
    let mut n = Node::new(100, s("me"));
    handle_message(&mut n, Message::Notify { node: info(50) });
    assert_eq!(n.predecessor, Some(info(50)));
    handle_message(&mut n, Message::Notify { node: info(70) });
    assert_eq!(n.predecessor, Some(info(70)));
    handle_message(&mut n, Message::Notify { node: info(60) });
    assert_eq!(n.predecessor, Some(info(70)));
    let h = handle_message(&mut n, Message::GetPredecessor);
    assert_eq!(h, Handling::Reply(Message::PredecessorResponse { node: Some(info(70)) }));
}

#[test]
fn update_neighbours() {
    let mut n = Node::new(100, s("me"));
    handle_message(&mut n, Message::UpdateSuccessor { node: info(120) });
    assert_eq!(n.successor, info(120));
    handle_message(&mut n, Message::UpdatePredecessor { node: Some(info(90)) });
    assert_eq!(n.predecessor, Some(info(90)));
    handle_message(&mut n, Message::UpdatePredecessor { node: None });
    assert_eq!(n.predecessor, None);
}

#[test]
fn get_all_files_relays_or_answers() {
    let mut n = Node::new(100, s("me"));
    n.successor = info(120);
    handle_message(&mut n, Message::PutData { key_id: 1, file_hash: s("h1"), value: s("m1") });
    handle_message(&mut n, Message::PutData { key_id: 2, file_hash: s("h2"), value: s("m2") });
    let h = handle_message(&mut n, Message::GetAllFiles { origin_id: 7, files: vec![s("x")] });
    assert_eq!(
        h,
        Handling::Relay(Outgoing {
            address: s("10.0.0.120:8000"),
            message: Message::GetAllFiles { origin_id: 7, files: vec![s("x"), s("m1"), s("m2")] },
        })
    );
    let h = handle_message(&mut n, Message::GetAllFiles { origin_id: 100, files: vec![] });
    assert_eq!(h, Handling::Reply(Message::AllFilesResponse { files: vec![s("m1"), s("m2")] }));
}

#[test]
fn relay_reply_passes_file_lists_only() {
    assert_eq!(
        relay_reply(Message::AllFilesResponse { files: vec![s("a")] }),
        Message::AllFilesResponse { files: vec![s("a")] }
    );
    assert_eq!(relay_reply(Message::Pong), Message::Ack);
}

#[test]
fn request_chunk_reads_seeded_file() {
    let mut n = Node::new(1, s("me"));
    let h = handle_message(&mut n, Message::RequestChunk { file_hash: s("h"), chunk_index: 2 });
    assert_eq!(h, Handling::Reply(Message::Ack));
    n.seeding_files.insert(s("h"), s("/tmp/file.bin"));
    let h = handle_message(&mut n, Message::RequestChunk { file_hash: s("h"), chunk_index: 2 });
    assert_eq!(h, Handling::ReadChunk { path: s("/tmp/file.bin"), offset: 2 * 262144 });
    let h = handle_message(&mut n, Message::RequestChunk { file_hash: s("h"), chunk_index: usize::MAX });
    assert_eq!(h, Handling::NoReply);
}

#[test]
fn chunk_reply_sends_bytes_or_ack() {
    assert_eq!(chunk_reply(Some(vec![1, 2, 3])), Message::ChunkData { data: vec![1, 2, 3] });
    assert_eq!(chunk_reply(None), Message::Ack);
}

#[test]
fn transfer_keys_merges_into_storage() {
    let mut n = Node::new(1, s("me"));
    handle_message(&mut n, Message::PutData { key_id: 1, file_hash: s("a"), value: s("old") });
    let h = handle_message(
        &mut n,
        Message::TransferKeys { data: vec![(s("a"), s("new")), (s("b"), s("vb"))] },
    );
    assert_eq!(h, Handling::Reply(Message::Ack));
    assert_eq!(n.storage.get(&s("a")), Some(s("new")));
    assert_eq!(n.storage.get(&s("b")), Some(s("vb")));
    assert_eq!(n.storage.len(), 2);
}

#[test]
fn other_messages_get_ack() {
    let mut n = Node::new(1, s("me"));
    assert_eq!(handle_message(&mut n, Message::Pong), Handling::Reply(Message::Ack));
    assert_eq!(handle_message(&mut n, Message::ChunkData { data: vec![] }), Handling::Reply(Message::Ack));
    assert_eq!(
        handle_message(
            &mut n,
            Message::PublishFile { file_id: 1, file_hash: s("h"), owner_address: s("o") }
        ),
        Handling::Reply(Message::Ack)
    );
}

#[test]
fn leave_ring_hands_over_and_stitches_neighbours() {
    let mut n = Node::new(100, s("me"));
    n.successor = info(120);
    n.predecessor = Some(info(90));
    n.storage.insert(s("k"), s("v"));
    let out = leave_ring(&mut n);
    assert_eq!(
        out,
        vec![
            Outgoing {
                address: s("10.0.0.120:8000"),
                message: Message::TransferKeys { data: vec![(s("k"), s("v"))] },
            },
            Outgoing { address: s("10.0.0.90:8000"), message: Message::UpdateSuccessor { node: info(120) } },
            Outgoing {
                address: s("10.0.0.120:8000"),
                message: Message::UpdatePredecessor { node: Some(info(90)) },
            },
        ]
    );
    assert_eq!(n.successor, n.info);
    assert_eq!(n.predecessor, None);
    assert!(n.storage.is_empty());
}

#[test]
fn leave_ring_without_storage_or_predecessor() {
    let mut n = Node::new(100, s("me"));
    n.successor = info(120);
    let out = leave_ring(&mut n);
    assert_eq!(
        out,
        vec![Outgoing { address: s("10.0.0.120:8000"), message: Message::UpdatePredecessor { node: None } }]
    );
}

#[test]
fn leave_ring_alone_sends_nothing() {
    let mut n = Node::new(100, s("me"));
    n.storage.insert(s("k"), s("v"));
    assert!(leave_ring(&mut n).is_empty());
    assert!(n.storage.is_empty());
}

#[test]
fn rejoin_ring_outcomes() {
    let mut n = Node::new(100, s("me"));
    n.successor = info(120);
    n.predecessor = Some(info(90));
    rejoin_ring(&mut n, Some(Message::SuccessorResponse { node: info(130) }));
    assert_eq!(n.successor, info(130));
    assert_eq!(n.predecessor, None);
    n.predecessor = Some(info(90));
    rejoin_ring(&mut n, Some(Message::Ack));
    assert_eq!(n.successor, info(130));
    assert_eq!(n.predecessor, Some(info(90)));
    rejoin_ring(&mut n, None);
    assert_eq!(n.successor, n.info);
    assert_eq!(n.predecessor, None);
}

#[test]
fn leaving_member_metadata_reaches_successor() {
    let mut leaver = Node::new(100, s("me"));
    leaver.successor = info(120);
    leaver.storage.insert(s("k1"), s("v1"));
    leaver.storage.insert(s("k2"), s("v2"));
    let mut succ = Node::new(120, s("10.0.0.120:8000"));
    succ.storage.insert(s("k2"), s("stale"));
    succ.storage.insert(s("k3"), s("v3"));
    let mut out = leave_ring(&mut leaver);
    let first = out.remove(0);
    assert_eq!(first.address, "10.0.0.120:8000");
    assert_eq!(handle_message(&mut succ, first.message), Handling::Reply(Message::Ack));
    assert_eq!(succ.storage.get(&s("k1")), Some(s("v1")));
    assert_eq!(succ.storage.get(&s("k2")), Some(s("v2")));
    assert_eq!(succ.storage.get(&s("k3")), Some(s("v3")));
    assert_eq!(succ.storage.len(), 3);
}

#[test]
fn dead_successor_is_replaced_by_closest_live_finger() {
    let mut n = Node::new(10, s("me"));
    n.successor = info(50);
    n.fingers = vec![info(50), info(80), info(60), info(200), info(10)];
    heal_successor(&mut n, false, &vec![false, true, true, true, true]);
    assert_eq!(n.successor, info(60));
    // Entries naming the dead member now point at the member itself.
    assert_eq!(n.fingers, vec![n.info.clone(), info(80), info(60), info(200), info(10)]);
}

#[test]
fn dead_successor_skips_dead_fingers_and_wraps() {
    let mut n = Node::new(200, s("me"));
    n.successor = info(220);
    n.fingers = vec![info(230), info(5), info(150)];
    heal_successor(&mut n, false, &vec![false, true, true]);
    assert_eq!(n.successor, info(5));
}

#[test]
fn dead_successor_without_live_finger_leaves_member_alone() {
    let mut n = Node::new(10, s("me"));
    n.successor = info(50);
    n.fingers = vec![info(50), info(80)];
    heal_successor(&mut n, false, &vec![false, false]);
    assert_eq!(n.successor, n.info);
}

#[test]
fn live_successor_is_kept() {
    let mut n = Node::new(10, s("me"));
    n.successor = info(50);
    n.fingers = vec![info(30)];
    heal_successor(&mut n, true, &vec![true]);
    assert_eq!(n.successor, info(50));
    assert_eq!(n.fingers, vec![info(30)]);
}

#[test]
fn dead_predecessor_is_forgotten() {
    let mut n = Node::new(10, s("me"));
    n.predecessor = Some(info(5));
    check_predecessor(&mut n, true);
    assert_eq!(n.predecessor, Some(info(5)));
    check_predecessor(&mut n, false);
    assert_eq!(n.predecessor, None);
}

#[test]
fn only_pong_shows_alive() {
    assert!(is_alive_reply(&Message::Pong));
    assert!(!is_alive_reply(&Message::Ack));
    assert!(!is_alive_reply(&Message::Ping));
}

#[test]
fn eight_refreshes_write_each_finger_once() {
    for start in 0..8usize {
        let mut n = Node::new(77, s("me"));
        n.next_finger = start;
        let mut seen = [0u8; 8];
        for _ in 0..8 {
            let (idx, target) = fix_fingers(&mut n);
            assert_eq!(target, 77u8.wrapping_add(1u8 << idx));
            seen[idx] += 1;
            set_finger(&mut n, idx, info(target));
        }
        assert_eq!(seen, [1u8; 8]);
        assert_eq!(n.next_finger, start);
        for (i, f) in n.fingers.iter().enumerate() {
            assert_eq!(f.id, 77u8.wrapping_add(1u8 << i));
        }
    }
}
