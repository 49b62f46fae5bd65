use vstd::prelude::*;

use crate::ack_table::acknowledged;
use crate::node::{
    event_handled, gossip_delta, gossip_targets, gossiped, handled, Event, NodeView,
};
use crate::protocol::{is_reply_kind, topology_entry, Body, Message};

verus! {

/// Every neighbour that a gossip round sends to has something to receive.
proof fn lemma_targets_have_delta(
    neighbours: Seq<String>,
    known: Set<u64>,
    seen: Map<Seq<char>, Set<u64>>,
    k: int,
)
    requires
        0 <= k < gossip_targets(neighbours, known, seen).len(),
    ensures
        gossip_delta(known, seen, gossip_targets(neighbours, known, seen)[k]@) != Set::<u64>::empty(),
        neighbours.contains(gossip_targets(neighbours, known, seen)[k]),
    decreases neighbours.len(),
{
    let rest = gossip_targets(neighbours.drop_last(), known, seen);
    if k < rest.len() {
        lemma_targets_have_delta(neighbours.drop_last(), known, seen, k);
        let t = rest[k];
        let j = choose|j: int| 0 <= j < neighbours.drop_last().len() && neighbours.drop_last()[j] == t;
        assert(neighbours[j] == t);
    } else {
        assert(neighbours[neighbours.len() - 1] == neighbours.last());
    }
}

/// Every neighbour with something to receive is sent to by a gossip round.
proof fn lemma_delta_reaches_target(
    neighbours: Seq<String>,
    known: Set<u64>,
    seen: Map<Seq<char>, Set<u64>>,
    n: String,
)
    requires
        neighbours.contains(n),
        gossip_delta(known, seen, n@) != Set::<u64>::empty(),
    ensures
        gossip_targets(neighbours, known, seen).contains(n),
    decreases neighbours.len(),
{
    let rest = gossip_targets(neighbours.drop_last(), known, seen);
    if neighbours.last() == n {
        let t = gossip_targets(neighbours, known, seen);
        assert(t[t.len() - 1] == n);
    } else {
        let j = choose|j: int| 0 <= j < neighbours.len() && neighbours[j] == n;
        assert(neighbours.drop_last()[j] == n);
        lemma_delta_reaches_target(neighbours.drop_last(), known, seen, n);
        let i = choose|i: int| 0 <= i < rest.len() && rest[i] == n;
        let t = gossip_targets(neighbours, known, seen);
        assert(t[i] == n);
    }
}

/// Handling a message never loses a known value.
pub proof fn known_values_only_grow(pre: NodeView, post: NodeView, m: Message, r: Option<Message>)
    requires
        handled(pre, post, m, r),
    ensures
        pre.known.subset_of(post.known),
{
}

/// Handling an event never loses a known value.
pub proof fn known_values_only_grow_on_events(
    pre: NodeView,
    post: NodeView,
    e: Event,
    out: Seq<Message>,
)
    requires
        event_handled(pre, post, e, out),
    ensures
        pre.known.subset_of(post.known),
{
}

/// Merging the same gossip a second time changes no known value.
pub proof fn gossip_twice_is_gossip_once(
    n0: NodeView,
    n1: NodeView,
    n2: NodeView,
    m: Message,
    r1: Option<Message>,
    r2: Option<Message>,
)
    requires
        m.body is Gossip,
        handled(n0, n1, m, r1),
        handled(n1, n2, m, r2),
    ensures
        n2.known == n1.known,
{
    let g = m.body->Gossip_0;
    assert(n1.known.union(g.messages@.to_set()) =~= n1.known);
}

/// A message that is itself a reply gets no reply; apart from an
/// acknowledgement of gossip, it leaves the node as it was.
pub proof fn replies_are_not_answered(pre: NodeView, post: NodeView, m: Message, r: Option<Message>)
    requires
        is_reply_kind(m.body),
        handled(pre, post, m, r),
    ensures
        r is None,
        !(m.body is GossipOk) ==> post == pre,
        post.known == pre.known,
        post.msg_id == pre.msg_id,
        post.neighbours == pre.neighbours,
{
}

/// Feeding a node an event that carries a reply sends nothing.
pub proof fn replies_produce_no_output(pre: NodeView, post: NodeView, e: Event, out: Seq<Message>)
    requires
        e is Message,
        is_reply_kind(e->Message_0.body),
        event_handled(pre, post, e, out),
    ensures
        out.len() == 0,
        post.known == pre.known,
        post.msg_id == pre.msg_id,
        post.neighbours == pre.neighbours,
{
}

/// A topology that names no list for this node leaves its neighbours as they were.
pub proof fn topology_without_own_entry_keeps_neighbours(
    pre: NodeView,
    post: NodeView,
    m: Message,
    r: Option<Message>,
)
    requires
        m.body is Topology,
        topology_entry(m.body->Topology_0.topology@, pre.node_id) is None,
        handled(pre, post, m, r),
    ensures
        post.neighbours == pre.neighbours,
{
}

/// Once a peer has acknowledged some values, the next gossip round sends it
/// none of them.
pub proof fn acknowledged_values_are_not_resent(
    n0: NodeView,
    n1: NodeView,
    n2: NodeView,
    ack: Message,
    r: Option<Message>,
    out: Seq<Message>,
    k: int,
    v: u64,
)
    requires
        ack.body is GossipOk,
        ack.body->GossipOk_0.messages@.contains(v),
        handled(n0, n1, ack, r),
        gossiped(n1, n2, out),
        0 <= k < out.len(),
        out[k].dest@ == ack.src@,
    ensures
        !out[k].body->Gossip_0.messages@.contains(v),
{
    let targets = gossip_targets(n1.neighbours, n1.known, n1.seen);
    assert(targets[k]@ == ack.src@);
    assert(n1.seen == acknowledged(n0.seen, ack.src@, ack.body->GossipOk_0.messages@.to_set()));
    assert(n1.seen[ack.src@].contains(v));
    if out[k].body->Gossip_0.messages@.contains(v) {
        assert(out[k].body->Gossip_0.messages@.to_set().contains(v));
    }
}

/// A gossip round sends nothing to a peer that has acknowledged every known value.
pub proof fn fully_acknowledged_peer_gets_no_gossip(
    pre: NodeView,
    post: NodeView,
    out: Seq<Message>,
    peer: Seq<char>,
    k: int,
)
    requires
        gossiped(pre, post, out),
        pre.seen.contains_key(peer),
        pre.known.subset_of(pre.seen[peer]),
        0 <= k < out.len(),
    ensures
        out[k].dest@ != peer,
{
    let targets = gossip_targets(pre.neighbours, pre.known, pre.seen);
    lemma_targets_have_delta(pre.neighbours, pre.known, pre.seen, k);
    if targets[k]@ == peer {
        assert(pre.known.difference(pre.seen[peer]) =~= Set::<u64>::empty());
    }
}

/// In every gossip round, each neighbour that lacks an unacknowledged known
/// value is sent a message that carries every such value.
pub proof fn gossip_reaches_every_lagging_neighbour(
    pre: NodeView,
    post: NodeView,
    out: Seq<Message>,
    n: String,
)
    requires
        gossiped(pre, post, out),
        pre.neighbours.contains(n),
        gossip_delta(pre.known, pre.seen, n@) != Set::<u64>::empty(),
    ensures
        exists|k: int|
            0 <= k < out.len() && (#[trigger] out[k]).dest == n
                && out[k].body->Gossip_0.messages@.to_set() == gossip_delta(pre.known, pre.seen, n@),
{
    lemma_delta_reaches_target(pre.neighbours, pre.known, pre.seen, n);
    let targets = gossip_targets(pre.neighbours, pre.known, pre.seen);
    let k = choose|k: int| 0 <= k < targets.len() && targets[k] == n;
    assert(out[k].dest == n);
}

/// A neighbour that handles a gossip message then holds every value the
/// message carried, and acknowledges exactly those values.
pub proof fn received_gossip_is_held_and_acknowledged(
    a0: NodeView,
    a1: NodeView,
    out: Seq<Message>,
    k: int,
    b0: NodeView,
    b1: NodeView,
    r: Option<Message>,
)
    requires
        gossiped(a0, a1, out),
        0 <= k < out.len(),
        handled(b0, b1, out[k], r),
    ensures
        gossip_delta(a0.known, a0.seen, out[k].dest@).subset_of(b1.known),
        r is Some,
        r->0.dest@ == a0.node_id,
        r->0.body->GossipOk_0.messages@.to_set() == gossip_delta(a0.known, a0.seen, out[k].dest@),
{
}

/// If a neighbour's acknowledgements are true of it, then after it handles
/// the gossip a round sent it, it holds every value the sender knew.
pub proof fn gossip_brings_neighbour_up_to_date(
    a0: NodeView,
    a1: NodeView,
    out: Seq<Message>,
    k: int,
    b0: NodeView,
    b1: NodeView,
    r: Option<Message>,
)
    requires
        gossiped(a0, a1, out),
        0 <= k < out.len(),
        a0.seen.contains_key(out[k].dest@) ==> a0.seen[out[k].dest@].subset_of(b0.known),
        handled(b0, b1, out[k], r),
    ensures
        a0.known.subset_of(b1.known),
{
}

/// If a neighbour's acknowledgements are true of it and a round sends it
/// nothing, it already holds every value the sender knows.
pub proof fn unsent_neighbour_is_up_to_date(
    a0: NodeView,
    a1: NodeView,
    out: Seq<Message>,
    n: String,
    b: NodeView,
)
    requires
        gossiped(a0, a1, out),
        a0.neighbours.contains(n),
        forall|k: int| 0 <= k < out.len() ==> (#[trigger] out[k]).dest != n,
        a0.seen.contains_key(n@) ==> a0.seen[n@].subset_of(b.known),
    ensures
        a0.known.subset_of(b.known),
{
    if gossip_delta(a0.known, a0.seen, n@) != Set::<u64>::empty() {
        gossip_reaches_every_lagging_neighbour(a0, a1, out, n);
    } else {
        if a0.seen.contains_key(n@) {
            assert forall|v: u64| a0.known.contains(v) implies b.known.contains(v) by {
                if !a0.seen[n@].contains(v) {
                    assert(gossip_delta(a0.known, a0.seen, n@).contains(v));
                }
            }
        } else {
            assert forall|v: u64| a0.known.contains(v) implies b.known.contains(v) by {
                assert(gossip_delta(a0.known, a0.seen, n@).contains(v));
            }
        }
    }
}

/// `b` is one of `a`'s neighbours, by name.
pub open spec fn links_to(a: NodeView, b: NodeView) -> bool {
    exists|n: String| a.neighbours.contains(n) && n@ == b.node_id
}

/// Once no node of a cluster has anything left to gossip, and every
/// acknowledgement a node holds is true of the peer it names, each node holds
/// every value of each node that reaches it along neighbour links: in a
/// connected cluster, every node holds the same values.
pub proof fn quiet_cluster_agrees_along_paths(
    nodes: Seq<NodeView>,
    posts: Seq<NodeView>,
    outs: Seq<Seq<Message>>,
    path: Seq<int>,
)
    requires
        posts.len() == nodes.len(),
        outs.len() == nodes.len(),
        forall|i: int|
            0 <= i < nodes.len() ==> gossiped(nodes[i], posts[i], #[trigger] outs[i]) && outs[i].len() == 0,
        forall|i: int, j: int|
            0 <= i < nodes.len() && 0 <= j < nodes.len() && (#[trigger] nodes[i]).seen.contains_key(
                (#[trigger] nodes[j]).node_id,
            ) ==> nodes[i].seen[nodes[j].node_id].subset_of(nodes[j].known),
        path.len() >= 1,
        forall|t: int| 0 <= t < path.len() ==> 0 <= #[trigger] path[t] < nodes.len(),
        forall|t: int| 0 <= t < path.len() - 1 ==> links_to(nodes[#[trigger] path[t]], nodes[path[t + 1]]),
    ensures
        nodes[path[0]].known.subset_of(nodes[path.last()].known),
    decreases path.len(),
{
    if path.len() > 1 {
        let a = path[0];
        let b = path[1];
        assert(links_to(nodes[path[0]], nodes[path[0int + 1]]));
        let n = choose|n: String| nodes[a].neighbours.contains(n) && n@ == nodes[b].node_id;
        assert(outs[a].len() == 0);
        unsent_neighbour_is_up_to_date(nodes[a], posts[a], outs[a], n, nodes[b]);
        let rest = path.drop_first();
        assert forall|t: int| 0 <= t < rest.len() - 1 implies links_to(
            nodes[#[trigger] rest[t]],
            nodes[rest[t + 1]],
        ) by {
            assert(rest[t] == path[t + 1]);
            assert(rest[t + 1] == path[t + 1 + 1]);
        }
        assert forall|t: int| 0 <= t < rest.len() implies 0 <= #[trigger] rest[t] < nodes.len() by {
            assert(rest[t] == path[t + 1]);
        }
        quiet_cluster_agrees_along_paths(nodes, posts, outs, rest);
        assert(rest.last() == path.last());
    }
}

} // verus!
