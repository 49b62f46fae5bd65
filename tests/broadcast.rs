use maelstrom_node::node::{Event, Node};
use maelstrom_node::protocol::{
    find_neighbours, Body, Broadcast, BroadcastOk, Gossip, GossipOk, Init, InitOk, Message, Read,
    ReadOk, Topology, TopologyOk,
};

fn envelope(src: &str, dest: &str, body: Body) -> Message {
    Message { src: src.to_string(), dest: dest.to_string(), body }
}

fn init(node: &mut Node, name: &str, msg_id: u64) -> Option<Message> {
    let m = envelope(
        "c1",
        name,
        Body::Init(Init { msg_id, node_id: name.to_string(), node_ids: vec![name.to_string()] }),
    );
    m.process_received_message(node)
}

fn topology(entries: &[(&str, &[&str])]) -> Vec<(String, Vec<String>)> {
    entries
        .iter()
        .map(|(k, v)| (k.to_string(), v.iter().map(|s| s.to_string()).collect()))
        .collect()
}

fn set_topology(node: &mut Node, name: &str, entries: &[(&str, &[&str])]) {
    let m = envelope("c1", name, Body::Topology(Topology { msg_id: 7, topology: topology(entries) }));
    m.process_received_message(node);
}

fn broadcast(node: &mut Node, name: &str, value: u64) {
    let m = envelope("c1", name, Body::Broadcast(Broadcast { msg_id: 3, message: value }));
    m.process_received_message(node);
}

fn sorted(mut v: Vec<u64>) -> Vec<u64> {
    v.sort();
    v
}

fn gossip_values(m: &Message) -> Vec<u64> {
    match &m.body {
        Body::Gossip(g) => sorted(g.messages.clone()),
        other => panic!("expected gossip, got {:?}", other),
    }
}

#[test]
fn init_reply_starts_ids_at_one() {
    let mut node = Node::new();
    let r = init(&mut node, "n1", 1).unwrap();
    assert_eq!(r.src, "n1");
    assert_eq!(r.dest, "c1");
    assert_eq!(r.body, Body::InitOk(InitOk { msg_id: 1, in_reply_to: 1 }));
    assert_eq!(node.node_id(), "n1");
    assert!(node.is_gossiping());
}

#[test]
fn second_init_does_not_restart_timer() {
    let mut node = Node::new();
    assert!(node.initialize("n1".to_string()));
    assert!(!node.initialize("n1".to_string()));
    assert_eq!(node.msg_id(), 0);
}

#[test]
fn broadcast_then_read() {
    let mut node = Node::new();
    init(&mut node, "n1", 1);
    let m = envelope("c1", "n1", Body::Broadcast(Broadcast { msg_id: 2, message: 1000 }));
    let r = m.process_received_message(&mut node).unwrap();
    assert_eq!(r.dest, "c1");
    assert_eq!(r.body, Body::BroadcastOk(BroadcastOk { msg_id: 2, in_reply_to: 2 }));
    let m = envelope("c1", "n1", Body::Read(Read { msg_id: 3 }));
    let r = m.process_received_message(&mut node).unwrap();
    assert_eq!(r.body, Body::ReadOk(ReadOk { msg_id: 3, in_reply_to: 3, messages: vec![1000] }));
}

#[test]
fn read_lists_each_value_once() {
    let mut node = Node::new();
    init(&mut node, "n1", 1);
    broadcast(&mut node, "n1", 5);
    broadcast(&mut node, "n1", 5);
    broadcast(&mut node, "n1", 6);
    assert_eq!(sorted(node.known_values()), vec![5, 6]);
}

#[test]
fn topology_then_gossip_tick() {
    let mut node = Node::new();
    init(&mut node, "n1", 1);
    broadcast(&mut node, "n1", 1000);
    set_topology(&mut node, "n1", &[("n1", &["n2"]), ("n2", &["n1"])]);
    assert_eq!(node.neighbours(), &vec!["n2".to_string()]);
    let out = Event::GossipRequested.process_received_event(&mut node);
    assert_eq!(out.len(), 1);
    assert_eq!(out[0].src, "n1");
    assert_eq!(out[0].dest, "n2");
    assert_eq!(out[0].body, Body::Gossip(Gossip { msg_id: 4, messages: vec![1000] }));
}

#[test]
fn gossip_ok_shrinks_next_delta() {
    let mut node = Node::new();
    init(&mut node, "n1", 1);
    broadcast(&mut node, "n1", 1000);
    set_topology(&mut node, "n1", &[("n1", &["n2"])]);
    let ack = envelope(
        "n2",
        "n1",
        Body::GossipOk(GossipOk { msg_id: 1, in_reply_to: 4, messages: vec![1000] }),
    );
    assert_eq!(ack.process_received_message(&mut node), None);
    let out = node.gossip_round();
    assert!(out.is_empty());
    broadcast(&mut node, "n1", 2000);
    let out = node.gossip_round();
    assert_eq!(out.len(), 1);
    assert_eq!(gossip_values(&out[0]), vec![2000]);
}

fn deliver(to: &mut Node, msgs: Vec<Message>) -> Vec<Message> {
    let mut replies = Vec::new();
    for m in msgs {
        if let Some(r) = m.process_received_message(to) {
            replies.push(r);
        }
    }
    replies
}

#[test]
fn two_nodes_converge() {
    let mut a = Node::new();
    let mut b = Node::new();
    init(&mut a, "n1", 1);
    init(&mut b, "n2", 1);
    let t: &[(&str, &[&str])] = &[("n1", &["n2"]), ("n2", &["n1"])];
    set_topology(&mut a, "n1", t);
    set_topology(&mut b, "n2", t);
    broadcast(&mut a, "n1", 1);
    broadcast(&mut b, "n2", 2);
    let from_a = a.gossip_round();
    let from_b = b.gossip_round();
    let acks_from_b = deliver(&mut b, from_a);
    let acks_from_a = deliver(&mut a, from_b);
    deliver(&mut a, acks_from_b);
    deliver(&mut b, acks_from_a);
    assert_eq!(sorted(a.known_values()), vec![1, 2]);
    assert_eq!(sorted(b.known_values()), vec![1, 2]);
    // each side still sends what the other has not acknowledged
    let from_a = a.gossip_round();
    let from_b = b.gossip_round();
    assert_eq!(gossip_values(&from_a[0]), vec![2]);
    assert_eq!(gossip_values(&from_b[0]), vec![1]);
    let acks_from_b = deliver(&mut b, from_a);
    let acks_from_a = deliver(&mut a, from_b);
    deliver(&mut a, acks_from_b);
    deliver(&mut b, acks_from_a);
    assert!(a.gossip_round().is_empty());
    assert!(b.gossip_round().is_empty());
}

#[test]
fn line_of_three_converges() {
    let names = ["n1", "n2", "n3"];
    let t: &[(&str, &[&str])] = &[("n1", &["n2"]), ("n2", &["n1", "n3"]), ("n3", &["n2"])];
    let mut nodes: Vec<Node> = names.iter().map(|_| Node::new()).collect();
    for (i, n) in names.iter().enumerate() {
        init(&mut nodes[i], n, 1);
        set_topology(&mut nodes[i], n, t);
    }
    broadcast(&mut nodes[0], "n1", 10);
    broadcast(&mut nodes[2], "n3", 30);
    for _ in 0..4 {
        let mut in_flight = Vec::new();
        for node in nodes.iter_mut() {
            in_flight.extend(node.gossip_round());
        }
        while !in_flight.is_empty() {
            let mut next = Vec::new();
            for m in in_flight {
                let i = names.iter().position(|n| *n == m.dest).unwrap();
                if let Some(r) = m.process_received_message(&mut nodes[i]) {
                    next.push(r);
                }
            }
            in_flight = next;
        }
    }
    for node in &nodes {
        assert_eq!(sorted(node.known_values()), vec![10, 30]);
    }
}

#[test]
fn lost_gossip_is_sent_again() {
    let mut a = Node::new();
    init(&mut a, "n1", 1);
    set_topology(&mut a, "n1", &[("n1", &["n2"])]);
    broadcast(&mut a, "n1", 7);
    let first = a.gossip_round();
    let second = a.gossip_round();
    assert_eq!(gossip_values(&first[0]), vec![7]);
    assert_eq!(gossip_values(&second[0]), vec![7]);
    assert_ne!(first[0].body, second[0].body);
}

#[test]
fn gossip_twice_leaves_known_values() {
    let mut node = Node::new();
    init(&mut node, "n1", 1);
    let g = envelope("n2", "n1", Body::Gossip(Gossip { msg_id: 9, messages: vec![4, 5] }));
    let r = g.process_received_message(&mut node).unwrap();
    assert_eq!(
        r.body,
        Body::GossipOk(GossipOk { msg_id: 2, in_reply_to: 9, messages: vec![4, 5] })
    );
    assert_eq!(r.dest, "n2");
    let once = sorted(node.known_values());
    g.process_received_message(&mut node);
    assert_eq!(sorted(node.known_values()), once);
    assert_eq!(once, vec![4, 5]);
}

#[test]
fn known_values_never_shrink() {
    let mut node = Node::new();
    init(&mut node, "n1", 1);
    let mut size = 0;
    let steps: Vec<Body> = vec![
        Body::Broadcast(Broadcast { msg_id: 2, message: 1 }),
        Body::Gossip(Gossip { msg_id: 3, messages: vec![1, 2] }),
        Body::Read(Read { msg_id: 4 }),
        Body::GossipOk(GossipOk { msg_id: 5, in_reply_to: 1, messages: vec![9] }),
        Body::Topology(Topology { msg_id: 6, topology: vec![] }),
        Body::Broadcast(Broadcast { msg_id: 7, message: 2 }),
    ];
    for b in steps {
        envelope("n2", "n1", b).process_received_message(&mut node);
        let now = node.known_values().len();
        assert!(now >= size);
        size = now;
    }
    assert_eq!(size, 2);
}

#[test]
fn replies_get_no_reply() {
    let mut node = Node::new();
    init(&mut node, "n1", 1);
    let bodies = vec![
        Body::InitOk(InitOk { msg_id: 1, in_reply_to: 1 }),
        Body::BroadcastOk(BroadcastOk { msg_id: 1, in_reply_to: 1 }),
        Body::ReadOk(ReadOk { msg_id: 1, in_reply_to: 1, messages: vec![3] }),
        Body::TopologyOk(TopologyOk { msg_id: 1, in_reply_to: 1 }),
        Body::GossipOk(GossipOk { msg_id: 1, in_reply_to: 1, messages: vec![3] }),
    ];
    for b in bodies {
        let out = Event::Message(envelope("n2", "n1", b)).process_received_event(&mut node);
        assert!(out.is_empty());
    }
    assert_eq!(node.msg_id(), 1);
    assert!(node.known_values().is_empty());
}

#[test]
fn topology_without_own_entry_keeps_neighbours() {
    let mut node = Node::new();
    init(&mut node, "n1", 1);
    set_topology(&mut node, "n1", &[("n1", &["n2", "n3"])]);
    let m = envelope(
        "c1",
        "n1",
        Body::Topology(Topology { msg_id: 8, topology: topology(&[("n2", &["n3"])]) }),
    );
    let r = m.process_received_message(&mut node).unwrap();
    assert_eq!(r.body, Body::TopologyOk(TopologyOk { msg_id: 3, in_reply_to: 8 }));
    assert_eq!(node.neighbours(), &vec!["n2".to_string(), "n3".to_string()]);
}

#[test]
fn acknowledged_values_leave_delta() {
    let mut node = Node::new();
    init(&mut node, "n1", 1);
    set_topology(&mut node, "n1", &[("n1", &["n2", "n3"])]);
    for v in [1, 2, 3] {
        broadcast(&mut node, "n1", v);
    }
    let ack = envelope("n2", "n1", Body::GossipOk(GossipOk { msg_id: 1, in_reply_to: 1, messages: vec![1, 3] }));
    ack.process_received_message(&mut node);
    let out = node.gossip_round();
    assert_eq!(out.len(), 2);
    assert_eq!(out[0].dest, "n2");
    assert_eq!(gossip_values(&out[0]), vec![2]);
    assert_eq!(out[1].dest, "n3");
    assert_eq!(gossip_values(&out[1]), vec![1, 2, 3]);
    match (&out[0].body, &out[1].body) {
        (Body::Gossip(x), Body::Gossip(y)) => {
            assert_eq!(x.msg_id, 6);
            assert_eq!(y.msg_id, 7);
        }
        _ => panic!("expected gossip"),
    }
}

#[test]
fn gossip_round_without_values_sends_nothing() {
    let mut node = Node::new();
    init(&mut node, "n1", 1);
    set_topology(&mut node, "n1", &[("n1", &["n2"])]);
    assert!(node.gossip_round().is_empty());
    assert_eq!(node.msg_id(), 2);
}

#[test]
fn uninitialized_node_still_answers() {
    let mut node = Node::new();
    let m = envelope("c1", "", Body::Read(Read { msg_id: 4 }));
    let r = m.process_received_message(&mut node).unwrap();
    assert_eq!(r.body, Body::ReadOk(ReadOk { msg_id: 1, in_reply_to: 4, messages: vec![] }));
    assert!(!node.is_gossiping());
}

#[test]
fn shutdown_event_does_nothing() {
    let mut node = Node::new();
    init(&mut node, "n1", 1);
    assert!(Event::ShutdownSignal.process_received_event(&mut node).is_empty());
    assert_eq!(node.msg_id(), 1);
}

#[test]
fn counter_limits_are_reported() {
    let mut node = Node::new();
    assert!(Event::GossipRequested.fits_on(&node));
    assert!(Event::Message(envelope("a", "b", Body::Read(Read { msg_id: 1 }))).fits_on(&node));
    assert!(Event::ShutdownSignal.fits_on(&node));
    assert_eq!(node.incremented_msg_id(), 1);
    assert_eq!(node.incremented_msg_id(), 2);
}

#[test]
fn topology_lookup_takes_first_entry() {
    let t = topology(&[("n2", &["x"]), ("n1", &["a", "b"]), ("n1", &["c"])]);
    assert_eq!(find_neighbours(&t, &"n1".to_string()), Some(vec!["a".to_string(), "b".to_string()]));
    assert_eq!(find_neighbours(&t, &"n9".to_string()), None);
    assert_eq!(find_neighbours(&vec![], &"n1".to_string()), None);
}
