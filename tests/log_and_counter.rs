use maelstrom_node::g_counter;
use maelstrom_node::kafka;

fn s(x: &str) -> String {
    x.to_string()
}

fn log_msg(body: kafka::Body) -> kafka::Message {
    kafka::Message { src: s("c1"), dest: s("n1"), body }
}

fn send(node: &mut kafka::Node, key: &str, msg: u64) -> u64 {
    let r = log_msg(kafka::Body::Send { msg_id: 1, key: s(key), msg })
        .process_received_message(node)
        .unwrap();
    match r.body {
        kafka::Body::SendOk { offset, .. } => offset,
        other => panic!("unexpected {:?}", other),
    }
}

#[test]
fn log_offsets_count_per_key() {
    let mut node = kafka::Node::new();
    let r = log_msg(kafka::Body::Init { msg_id: 4, node_id: s("n1"), node_ids: vec![s("n1")] })
        .process_received_message(&mut node)
        .unwrap();
    assert_eq!(r.body, kafka::Body::InitOk { msg_id: 1, in_reply_to: 4 });
    assert_eq!(r.dest, "c1");
    assert_eq!(send(&mut node, "k1", 10), 0);
    assert_eq!(send(&mut node, "k1", 11), 1);
    assert_eq!(send(&mut node, "k2", 20), 0);
    assert_eq!(send(&mut node, "k1", 12), 2);
    assert_eq!(node.msg_id(), 5);
}

#[test]
fn poll_returns_entries_from_offset() {
    let mut node = kafka::Node::new();
    for v in [10, 11, 12] {
        send(&mut node, "k1", v);
    }
    send(&mut node, "k2", 20);
    let r = log_msg(kafka::Body::Poll {
        msg_id: 9,
        offsets: vec![(s("k1"), 1), (s("missing"), 0), (s("k2"), 5)],
    })
    .process_received_message(&mut node)
    .unwrap();
    assert_eq!(
        r.body,
        kafka::Body::PollOk {
            msg_id: 5,
            in_reply_to: 9,
            msgs: vec![(s("k1"), vec![(1, 11), (2, 12)]), (s("k2"), vec![])],
        }
    );
}

#[test]
fn committed_offsets_are_listed() {
    let mut node = kafka::Node::new();
    let r = log_msg(kafka::Body::CommitOffsets { msg_id: 2, offsets: vec![(s("k1"), 3), (s("k2"), 1)] })
        .process_received_message(&mut node)
        .unwrap();
    assert_eq!(r.body, kafka::Body::CommitOffsetsOk { msg_id: 1, in_reply_to: 2 });
    log_msg(kafka::Body::CommitOffsets { msg_id: 3, offsets: vec![(s("k1"), 5)] })
        .process_received_message(&mut node);
    let r = log_msg(kafka::Body::ListCommittedOffsets { msg_id: 4, keys: vec![s("k1"), s("k3"), s("k2")] })
        .process_received_message(&mut node)
        .unwrap();
    assert_eq!(
        r.body,
        kafka::Body::ListCommittedOffsetsOk {
            msg_id: 3,
            in_reply_to: 4,
            offsets: vec![(s("k1"), 5), (s("k2"), 1)],
        }
    );
}

#[test]
fn log_replies_get_no_reply() {
    let mut node = kafka::Node::new();
    let bodies = vec![
        kafka::Body::InitOk { msg_id: 1, in_reply_to: 1 },
        kafka::Body::SendOk { msg_id: 1, in_reply_to: 1, offset: 0 },
        kafka::Body::PollOk { msg_id: 1, in_reply_to: 1, msgs: vec![] },
        kafka::Body::CommitOffsetsOk { msg_id: 1, in_reply_to: 1 },
        kafka::Body::ListCommittedOffsetsOk { msg_id: 1, in_reply_to: 1, offsets: vec![] },
    ];
    for b in bodies {
        assert_eq!(log_msg(b).process_received_message(&mut node), None);
    }
    assert_eq!(node.msg_id(), 0);
}

fn counter_msg(src: &str, body: g_counter::Body) -> g_counter::Message {
    g_counter::Message { src: s(src), dest: s("n1"), body }
}

fn counter_node() -> g_counter::Node {
    let mut node = g_counter::Node::new();
    let init = counter_msg(
        "c1",
        g_counter::Body::Init { msg_id: 1, node_id: s("n1"), node_ids: vec![s("n1"), s("n2"), s("n3")] },
    );
    assert!(node.fits(&init));
    let out = init.process_received_message(&mut node);
    assert_eq!(out.len(), 1);
    assert_eq!(out[0].body, g_counter::Body::InitOk { msg_id: 1, in_reply_to: 1 });
    node
}

fn read_value(node: &mut g_counter::Node) -> u64 {
    let m = counter_msg("c1", g_counter::Body::Read { msg_id: 50 });
    assert!(node.fits(&m));
    match &m.process_received_message(node)[0].body {
        g_counter::Body::ReadOk { value, .. } => *value,
        other => panic!("unexpected {:?}", other),
    }
}

#[test]
fn add_syncs_every_other_node() {
    let mut node = counter_node();
    let out = counter_msg("c1", g_counter::Body::Add { msg_id: 7, delta: 5 }).process_received_message(&mut node);
    assert_eq!(out.len(), 3);
    assert_eq!(out[0].dest, "n2");
    assert_eq!(out[1].dest, "n3");
    for m in &out[..2] {
        assert_eq!(m.src, "n1");
        assert_eq!(
            m.body,
            g_counter::Body::Sync { msg_id: 2, counters: vec![(s("n1"), 5), (s("n2"), 0), (s("n3"), 0)] }
        );
    }
    assert_eq!(out[2].dest, "c1");
    assert_eq!(out[2].body, g_counter::Body::AddOk { msg_id: 3, in_reply_to: 7 });
    assert_eq!(read_value(&mut node), 5);
}

#[test]
fn sync_keeps_larger_counts_of_known_nodes() {
    let mut node = counter_node();
    counter_msg("c1", g_counter::Body::Add { msg_id: 2, delta: 4 }).process_received_message(&mut node);
    let out = counter_msg(
        "n2",
        g_counter::Body::Sync {
            msg_id: 1,
            counters: vec![(s("n1"), 1), (s("n2"), 6), (s("n9"), 100)],
        },
    )
    .process_received_message(&mut node);
    assert!(out.is_empty());
    assert_eq!(read_value(&mut node), 10);
}

#[test]
fn counter_replies_and_overflow_checks() {
    let mut node = counter_node();
    let out = counter_msg("c1", g_counter::Body::AddOk { msg_id: 1, in_reply_to: 1 }).process_received_message(&mut node);
    assert!(out.is_empty());
    counter_msg("c1", g_counter::Body::Add { msg_id: 2, delta: u64::MAX }).process_received_message(&mut node);
    assert!(!node.fits(&counter_msg("c1", g_counter::Body::Add { msg_id: 3, delta: 1 })));
    counter_msg("n2", g_counter::Body::Sync { msg_id: 1, counters: vec![(s("n2"), 1)] })
        .process_received_message(&mut node);
    assert!(!node.fits(&counter_msg("c1", g_counter::Body::Read { msg_id: 4 })));
}
