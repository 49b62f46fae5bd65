use vstd::prelude::*;

verus! {

/// Asks a node to take its identity; `node_ids` lists the whole cluster.
#[derive(Debug, PartialEq, Eq)]
pub struct Init {
    pub msg_id: u64,
    pub node_id: String,
    pub node_ids: Vec<String>,
}

#[derive(Debug, PartialEq, Eq)]
pub struct InitOk {
    pub msg_id: u64,
    pub in_reply_to: u64,
}

/// Hands a node one value to spread through the cluster.
#[derive(Debug, PartialEq, Eq)]
pub struct Broadcast {
    pub msg_id: u64,
    pub message: u64,
}

#[derive(Debug, PartialEq, Eq)]
pub struct BroadcastOk {
    pub msg_id: u64,
    pub in_reply_to: u64,
}

/// Asks a node for every value it knows.
#[derive(Debug, PartialEq, Eq)]
pub struct Read {
    pub msg_id: u64,
}

/// The values a node knew when it answered; each is listed once.
#[derive(Debug, PartialEq, Eq)]
pub struct ReadOk {
    pub msg_id: u64,
    pub in_reply_to: u64,
    pub messages: Vec<u64>,
}

/// Assigns every node of the cluster its list of neighbours.
#[derive(Debug, PartialEq, Eq)]
pub struct Topology {
    pub msg_id: u64,
    pub topology: Vec<(String, Vec<String>)>,
}

#[derive(Debug, PartialEq, Eq)]
pub struct TopologyOk {
    pub msg_id: u64,
    pub in_reply_to: u64,
}

/// Values that the sender believes the receiver may lack.
#[derive(Debug, PartialEq, Eq)]
pub struct Gossip {
    pub msg_id: u64,
    pub messages: Vec<u64>,
}

/// Confirms that the sender of this reply now holds `messages`.
#[derive(Debug, PartialEq, Eq)]
pub struct GossipOk {
    pub msg_id: u64,
    pub in_reply_to: u64,
    pub messages: Vec<u64>,
}

/// The payload of a message, one variant per kind.
#[derive(Debug, PartialEq, Eq)]
pub enum Body {
    Init(Init),
    InitOk(InitOk),
    Broadcast(Broadcast),
    BroadcastOk(BroadcastOk),
    Read(Read),
    ReadOk(ReadOk),
    Topology(Topology),
    TopologyOk(TopologyOk),
    Gossip(Gossip),
    GossipOk(GossipOk),
}

/// The envelope every message travels in.
#[derive(Debug, PartialEq, Eq)]
pub struct Message {
    pub src: String,
    pub dest: String,
    pub body: Body,
}

/// The kinds that are themselves replies and are never answered.
pub open spec fn is_reply_kind(b: Body) -> bool {
    b is InitOk || b is BroadcastOk || b is ReadOk || b is TopologyOk || b is GossipOk
}

impl Body {
    /// Whether this kind is itself a reply.
    pub fn is_reply(&self) -> (r: bool)
        ensures
            r == is_reply_kind(*self),
    {
        match self {
            Body::InitOk(_) | Body::BroadcastOk(_) | Body::ReadOk(_) | Body::TopologyOk(_)
            | Body::GossipOk(_) => true,
            _ => false,
        }
    }
}

/// The neighbour list that `topology` assigns to `me`: the first entry under
/// that name, if any.
pub open spec fn topology_entry(topology: Seq<(String, Vec<String>)>, me: Seq<char>) -> Option<
    Seq<String>,
>
    decreases topology.len(),
{
    if topology.len() == 0 {
        None
    } else if topology[0].0@ == me {
        Some(topology[0].1@)
    } else {
        topology_entry(topology.drop_first(), me)
    }
}

/// A copy of a list of names.
pub fn copy_names(v: &Vec<String>) -> (r: Vec<String>)
    ensures
        r@ == v@,
{
    let mut r: Vec<String> = Vec::new();
    let mut i: usize = 0;
    while i < v.len()
        invariant
            0 <= i <= v@.len(),
            r@ == v@.subrange(0, i as int),
        decreases v@.len() - i,
    {
        r.push(v[i].clone());
        proof {
            assert(r@ =~= v@.subrange(0, i + 1));
        }
        i = i + 1;
    }
    proof {
        assert(r@ =~= v@);
    }
    r
}

/// Looks up the neighbour list that `topology` assigns to `me`.
pub fn find_neighbours(topology: &Vec<(String, Vec<String>)>, me: &String) -> (r: Option<
    Vec<String>,
>)
    ensures
        match r {
            Some(v) => topology_entry(topology@, me@) == Some(v@),
            None => topology_entry(topology@, me@) is None,
        },
{
    let mut i: usize = 0;
    proof {
        assert(topology@.subrange(0, topology@.len() as int) =~= topology@);
    }
    while i < topology.len()
        invariant
            0 <= i <= topology@.len(),
            topology_entry(topology@, me@) == topology_entry(
                topology@.subrange(i as int, topology@.len() as int),
                me@,
            ),
        decreases topology@.len() - i,
    {
        let ghost rest = topology@.subrange(i as int, topology@.len() as int);
        proof {
            assert(rest[0] == topology@[i as int]);
        }
        if topology[i].0 == *me {
            return Some(copy_names(&topology[i].1));
        }
        proof {
            assert(rest.drop_first() =~= topology@.subrange(i + 1, topology@.len() as int));
        }
        i = i + 1;
    }
    None
}

} // verus!
