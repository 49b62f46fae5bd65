use vstd::prelude::*;

use crate::ack_table::{acknowledged, AckTable};
use crate::protocol::{
    find_neighbours, is_reply_kind, topology_entry, Body, BroadcastOk, Gossip, GossipOk, InitOk, Message, ReadOk,
    TopologyOk,
};
use crate::value_set::ValueSet;

verus! {

/// The abstract state of a broadcast node.
pub struct NodeView {
    pub node_id: Seq<char>,
    /// The id most recently given to an outgoing message; 0 before the first.
    pub msg_id: u64,
    /// Every value this node has seen, by broadcast or by gossip.
    pub known: Set<u64>,
    pub neighbours: Seq<String>,
    /// For each peer, the values it has acknowledged holding.
    pub seen: Map<Seq<char>, Set<u64>>,
    /// Whether the periodic gossip timer has been asked for.
    pub gossiping: bool,
}

/// The state of one node of the broadcast cluster.
pub struct Node {
    node_id: String,
    msg_id: u64,
    messages: ValueSet,
    neighbours: Vec<String>,
    messages_seen_by_others: AckTable,
    gossiping: bool,
}

impl View for Node {
    type V = NodeView;

    closed spec fn view(&self) -> NodeView {
        NodeView {
            node_id: self.node_id@,
            msg_id: self.msg_id,
            known: self.messages@,
            neighbours: self.neighbours@,
            seen: self.messages_seen_by_others@,
            gossiping: self.gossiping,
        }
    }
}

/// The values that a gossip round sends to `peer`: all that is known, less
/// what `peer` has acknowledged.
pub open spec fn gossip_delta(known: Set<u64>, seen: Map<Seq<char>, Set<u64>>, peer: Seq<char>) -> Set<u64> {
    if seen.contains_key(peer) {
        known.difference(seen[peer])
    } else {
        known
    }
}

/// The neighbours, in order, that a gossip round sends to: those with a
/// non-empty delta.
pub open spec fn gossip_targets(
    neighbours: Seq<String>,
    known: Set<u64>,
    seen: Map<Seq<char>, Set<u64>>,
) -> Seq<String>
    decreases neighbours.len(),
{
    if neighbours.len() == 0 {
        Seq::empty()
    } else {
        let rest = gossip_targets(neighbours.drop_last(), known, seen);
        if gossip_delta(known, seen, neighbours.last()@) == Set::<u64>::empty() {
            rest
        } else {
            rest.push(neighbours.last())
        }
    }
}

/// `r` answers `m`: it goes back to `m`'s sender from `m`'s receiver.
pub open spec fn is_reply(m: Message, r: Message) -> bool {
    r.src == m.dest && r.dest == m.src
}

/// `n` with its message counter advanced by `k`.
pub open spec fn advanced(n: NodeView, k: int) -> NodeView {
    NodeView { msg_id: (n.msg_id + k) as u64, ..n }
}

/// What handling message `m` does: `pre` becomes `post`, and `r` is the reply.
pub open spec fn handled(pre: NodeView, post: NodeView, m: Message, r: Option<Message>) -> bool {
    let id = (pre.msg_id + 1) as u64;
    match m.body {
        Body::Init(b) => {
            &&& post == (NodeView { node_id: b.node_id@, gossiping: true, ..advanced(pre, 1) })
            &&& r is Some && is_reply(m, r->0)
            &&& r->0.body == Body::InitOk(InitOk { msg_id: id, in_reply_to: b.msg_id })
        },
        Body::Broadcast(b) => {
            &&& post == (NodeView { known: pre.known.insert(b.message), ..advanced(pre, 1) })
            &&& r is Some && is_reply(m, r->0)
            &&& r->0.body == Body::BroadcastOk(BroadcastOk { msg_id: id, in_reply_to: b.msg_id })
        },
        Body::Read(b) => {
            &&& post == advanced(pre, 1)
            &&& r is Some && is_reply(m, r->0)
            &&& match r->0.body {
                Body::ReadOk(o) => {
                    &&& o.msg_id == id
                    &&& o.in_reply_to == b.msg_id
                    &&& o.messages@.to_set() == pre.known
                    &&& o.messages@.no_duplicates()
                },
                _ => false,
            }
        },
        Body::Topology(b) => {
            &&& post == (NodeView {
                neighbours: match topology_entry(b.topology@, pre.node_id) {
                    Some(ns) => ns,
                    None => pre.neighbours,
                },
                ..advanced(pre, 1)
            })
            &&& r is Some && is_reply(m, r->0)
            &&& r->0.body == Body::TopologyOk(TopologyOk { msg_id: id, in_reply_to: b.msg_id })
        },
        Body::Gossip(b) => {
            &&& post == (NodeView {
                known: pre.known.union(b.messages@.to_set()),
                ..advanced(pre, 1)
            })
            &&& r is Some && is_reply(m, r->0)
            &&& match r->0.body {
                Body::GossipOk(o) => {
                    &&& o.msg_id == id
                    &&& o.in_reply_to == b.msg_id
                    &&& o.messages@ == b.messages@
                },
                _ => false,
            }
        },
        Body::GossipOk(b) => {
            &&& post == (NodeView {
                seen: acknowledged(pre.seen, m.src@, b.messages@.to_set()),
                ..pre
            })
            &&& r is None
        },
        _ => post == pre && r is None,
    }
}

/// `m` is a gossip message from `src` to `dest`, with id `id`, carrying each
/// value of `delta` once.
pub open spec fn is_gossip(m: Message, src: Seq<char>, dest: String, id: int, delta: Set<u64>) -> bool {
    &&& m.src@ == src
    &&& m.dest == dest
    &&& match m.body {
        Body::Gossip(g) => {
            &&& g.msg_id == id
            &&& g.messages@.to_set() == delta
            &&& g.messages@.no_duplicates()
        },
        _ => false,
    }
}

/// What one gossip round does: `pre` becomes `post`, and `out` holds one
/// gossip message for each target, in the order of the neighbour list.
pub open spec fn gossiped(pre: NodeView, post: NodeView, out: Seq<Message>) -> bool {
    let targets = gossip_targets(pre.neighbours, pre.known, pre.seen);
    &&& post == advanced(pre, targets.len() as int)
    &&& out.len() == targets.len()
    &&& forall|k: int|
        0 <= k < out.len() ==> is_gossip(
            #[trigger] out[k],
            pre.node_id,
            targets[k],
            pre.msg_id + k + 1,
            gossip_delta(pre.known, pre.seen, targets[k]@),
        )
}

/// A copy of a list of values.
fn copy_values(v: &Vec<u64>) -> (r: Vec<u64>)
    ensures
        r@ == v@,
{
    let mut r: Vec<u64> = Vec::new();
    let mut i: usize = 0;
    while i < v.len()
        invariant
            0 <= i <= v@.len(),
            r@ == v@.subrange(0, i as int),
        decreases v@.len() - i,
    {
        r.push(v[i]);
        proof {
            assert(r@ =~= v@.subrange(0, i + 1));
        }
        i = i + 1;
    }
    proof {
        assert(r@ =~= v@);
    }
    r
}

impl Node {
    pub closed spec fn wf(&self) -> bool {
        self.messages_seen_by_others.wf()
    }

    /// A node before initialisation: no identity, no values, no neighbours.
    pub fn new() -> (r: Node)
        ensures
            r.wf(),
            r@ == (NodeView {
                node_id: Seq::empty(),
                msg_id: 0,
                known: Set::empty(),
                neighbours: Seq::empty(),
                seen: Map::empty(),
                gossiping: false,
            }),
    {
        let r = Node {
            node_id: String::new(),
            msg_id: 0,
            messages: ValueSet::new(),
            neighbours: Vec::new(),
            messages_seen_by_others: AckTable::new(),
            gossiping: false,
        };
        proof {
            assert(r.neighbours@ =~= Seq::<String>::empty());
        }
        r
    }

    /// Takes `node_id` as this node's identity and asks for the gossip timer.
    /// Returns whether the timer still has to be started: only the first call
    /// does so.
    pub fn initialize(&mut self, node_id: String) -> (start_timer: bool)
        ensures
            final(self).wf() == old(self).wf(),
            final(self)@ == (NodeView { node_id: node_id@, gossiping: true, ..old(self)@ }),
            start_timer == !old(self)@.gossiping,
    {
        self.node_id = node_id;
        let start_timer = !self.gossiping;
        self.gossiping = true;
        start_timer
    }

    /// Advances the message counter and returns its new value.
    pub fn incremented_msg_id(&mut self) -> (r: u64)
        requires
            old(self)@.msg_id < u64::MAX,
        ensures
            final(self).wf() == old(self).wf(),
            final(self)@ == advanced(old(self)@, 1),
            r == final(self)@.msg_id,
    {
        self.msg_id = self.msg_id + 1;
        self.msg_id
    }

    pub fn node_id(&self) -> (r: &String)
        ensures
            r@ == self@.node_id,
    {
        &self.node_id
    }

    pub fn msg_id(&self) -> (r: u64)
        ensures
            r == self@.msg_id,
    {
        self.msg_id
    }

    pub fn neighbours(&self) -> (r: &Vec<String>)
        ensures
            r@ == self@.neighbours,
    {
        &self.neighbours
    }

    pub fn is_gossiping(&self) -> (r: bool)
        ensures
            r == self@.gossiping,
    {
        self.gossiping
    }

    /// The known values, each once, in no particular order.
    pub fn known_values(&self) -> (r: Vec<u64>)
        requires
            self.wf(),
        ensures
            r@.to_set() == self@.known,
            r@.no_duplicates(),
    {
        self.messages.to_vec()
    }

    /// Runs one gossip round: for each neighbour in order, the values it has
    /// not acknowledged, if there are any, each message with a fresh id.
    pub fn gossip_round(&mut self) -> (r: Vec<Message>)
        requires
            old(self).wf(),
            old(self)@.msg_id + old(self)@.neighbours.len() <= u64::MAX,
        ensures
            final(self).wf(),
            gossiped(old(self)@, final(self)@, r@),
    {
        let ghost pre = self@;
        let mut out: Vec<Message> = Vec::new();
        let mut i: usize = 0;
        while i < self.neighbours.len()
            invariant
                0 <= i <= pre.neighbours.len(),
                self.wf(),
                pre.msg_id + pre.neighbours.len() <= u64::MAX,
                self@ == advanced(pre, out@.len() as int),
                out@.len() == gossip_targets(pre.neighbours.take(i as int), pre.known, pre.seen).len(),
                out@.len() <= i,
                forall|k: int|
                    0 <= k < out@.len() ==> is_gossip(
                        #[trigger] out@[k],
                        pre.node_id,
                        gossip_targets(pre.neighbours.take(i as int), pre.known, pre.seen)[k],
                        pre.msg_id + k + 1,
                        gossip_delta(
                            pre.known,
                            pre.seen,
                            gossip_targets(pre.neighbours.take(i as int), pre.known, pre.seen)[k]@,
                        ),
                    ),
            decreases pre.neighbours.len() - i,
        {
            let ghost before = gossip_targets(pre.neighbours.take(i as int), pre.known, pre.seen);
            let peer = self.neighbours[i].clone();
            let delta = match self.messages_seen_by_others.get(&peer) {
                Some(s) => self.messages.difference(s),
                None => self.messages.snapshot(),
            };
            proof {
                assert(pre.neighbours.take(i + 1).drop_last() =~= pre.neighbours.take(i as int));
                assert(pre.neighbours.take(i + 1).last() == peer);
                assert(delta@ == gossip_delta(pre.known, pre.seen, peer@));
            }
            if !delta.is_empty() {
                let id = self.incremented_msg_id();
                let g = Message {
                    src: self.node_id.clone(),
                    dest: peer,
                    body: Body::Gossip(Gossip { msg_id: id, messages: delta.to_vec() }),
                };
                out.push(g);
                proof {
                    let after = gossip_targets(pre.neighbours.take(i + 1), pre.known, pre.seen);
                    assert(after == before.push(peer));
                    assert forall|k: int| 0 <= k < out@.len() implies is_gossip(
                        #[trigger] out@[k],
                        pre.node_id,
                        after[k],
                        pre.msg_id + k + 1,
                        gossip_delta(pre.known, pre.seen, after[k]@),
                    ) by {
                        if k < out@.len() - 1 {
                            assert(after[k] == before[k]);
                        }
                    }
                }
            }
            i = i + 1;
        }
        proof {
            assert(pre.neighbours.take(pre.neighbours.len() as int) =~= pre.neighbours);
        }
        out
    }
}

impl Message {
    /// Handles this message on `node` and returns the reply, if the message
    /// kind has one.
    pub fn process_received_message(&self, node: &mut Node) -> (r: Option<Message>)
        requires
            old(node).wf(),
            is_reply_kind(self.body) || old(node)@.msg_id < u64::MAX,
        ensures
            final(node).wf(),
            handled(old(node)@, final(node)@, *self, r),
    {
        match &self.body {
            Body::Init(b) => {
                node.initialize(b.node_id.clone());
                let id = node.incremented_msg_id();
                Some(
                    Message {
                        src: self.dest.clone(),
                        dest: self.src.clone(),
                        body: Body::InitOk(InitOk { msg_id: id, in_reply_to: b.msg_id }),
                    },
                )
            },
            Body::Broadcast(b) => {
                node.messages.insert(b.message);
                let id = node.incremented_msg_id();
                Some(
                    Message {
                        src: self.dest.clone(),
                        dest: self.src.clone(),
                        body: Body::BroadcastOk(BroadcastOk { msg_id: id, in_reply_to: b.msg_id }),
                    },
                )
            },
            Body::Read(b) => {
                let id = node.incremented_msg_id();
                let messages = node.messages.to_vec();
                Some(
                    Message {
                        src: self.dest.clone(),
                        dest: self.src.clone(),
                        body: Body::ReadOk(ReadOk { msg_id: id, in_reply_to: b.msg_id, messages }),
                    },
                )
            },
            Body::Topology(b) => {
                match find_neighbours(&b.topology, &node.node_id) {
                    Some(ns) => {
                        node.neighbours = ns;
                    },
                    None => {},
                }
                let id = node.incremented_msg_id();
                Some(
                    Message {
                        src: self.dest.clone(),
                        dest: self.src.clone(),
                        body: Body::TopologyOk(TopologyOk { msg_id: id, in_reply_to: b.msg_id }),
                    },
                )
            },
            Body::Gossip(b) => {
                let incoming = ValueSet::from_vec(&b.messages);
                node.messages.extend(&incoming);
                let id = node.incremented_msg_id();
                Some(
                    Message {
                        src: self.dest.clone(),
                        dest: self.src.clone(),
                        body: Body::GossipOk(
                            GossipOk {
                                msg_id: id,
                                in_reply_to: b.msg_id,
                                messages: copy_values(&b.messages),
                            },
                        ),
                    },
                )
            },
            Body::GossipOk(b) => {
                let acked = ValueSet::from_vec(&b.messages);
                node.messages_seen_by_others.record(&self.src, &acked);
                None
            },
            Body::InitOk(_) | Body::BroadcastOk(_) | Body::ReadOk(_) | Body::TopologyOk(_) => None,
        }
    }
}

/// One unit of work for a node: an incoming message, a tick of the gossip
/// timer, or the request to stop.
pub enum Event {
    Message(Message),
    GossipRequested,
    ShutdownSignal,
}

/// The message counter has room for every id that handling `e` may use.
pub open spec fn ids_available(n: NodeView, e: Event) -> bool {
    match e {
        Event::Message(m) => is_reply_kind(m.body) || n.msg_id < u64::MAX,
        Event::GossipRequested => n.msg_id + n.neighbours.len() <= u64::MAX,
        Event::ShutdownSignal => true,
    }
}

/// What handling event `e` does: `pre` becomes `post`, and `out` holds the
/// messages to send, in order.
pub open spec fn event_handled(pre: NodeView, post: NodeView, e: Event, out: Seq<Message>) -> bool {
    match e {
        Event::Message(m) => {
            &&& out.len() <= 1
            &&& handled(
                pre,
                post,
                m,
                if out.len() == 0 {
                    None
                } else {
                    Some(out[0])
                },
            )
        },
        Event::GossipRequested => gossiped(pre, post, out),
        Event::ShutdownSignal => post == pre && out.len() == 0,
    }
}

impl Event {
    /// Whether `node` can handle this event without running out of message ids.
    pub fn fits_on(&self, node: &Node) -> (r: bool)
        ensures
            r == ids_available(node@, *self),
    {
        match self {
            Event::Message(m) => m.body.is_reply() || node.msg_id() < u64::MAX,
            Event::GossipRequested => node.neighbours().len() as u64 <= u64::MAX - node.msg_id(),
            Event::ShutdownSignal => true,
        }
    }

    /// Handles this event on `node` and returns the messages to send.
    pub fn process_received_event(&self, node: &mut Node) -> (r: Vec<Message>)
        requires
            old(node).wf(),
            ids_available(old(node)@, *self),
        ensures
            final(node).wf(),
            event_handled(old(node)@, final(node)@, *self, r@),
    {
        match self {
            Event::Message(m) => {
                let mut out: Vec<Message> = Vec::new();
                match m.process_received_message(node) {
                    Some(reply) => {
                        out.push(reply);
                    },
                    None => {},
                }
                out
            },
            Event::GossipRequested => node.gossip_round(),
            Event::ShutdownSignal => Vec::new(),
        }
    }
}

} // verus!
