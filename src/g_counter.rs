use vstd::prelude::*;

use crate::name_map::{lists, NameMap};

verus! {

/// The messages of the grow-only counter protocol.
#[derive(Debug, PartialEq, Eq)]
pub enum Body {
    Init { msg_id: u64, node_id: String, node_ids: Vec<String> },
    InitOk { msg_id: u64, in_reply_to: u64 },
    /// Adds `delta` to the receiving node's own count.
    Add { msg_id: u64, delta: u64 },
    AddOk { msg_id: u64, in_reply_to: u64 },
    /// Asks for the sum of every node's count.
    Read { msg_id: u64 },
    ReadOk { msg_id: u64, in_reply_to: u64, value: u64 },
    /// One node's view of every count, sent to the others.
    Sync { msg_id: u64, counters: Vec<(String, u64)> },
}

/// The envelope of the counter protocol.
#[derive(Debug, PartialEq, Eq)]
pub struct Message {
    pub src: String,
    pub dest: String,
    pub body: Body,
}

/// The abstract state of a counter node.
pub struct CounterView {
    pub node_id: Seq<char>,
    pub cluster: Seq<String>,
    pub msg_id: u64,
    /// The count of each node, as far as this node knows it.
    pub counters: Map<Seq<char>, u64>,
    /// The same counts, one entry per node, in a fixed order.
    pub listing: Seq<(String, u64)>,
}

/// The state of a counter node.
pub struct Node {
    node_id: String,
    cluster: Vec<String>,
    msg_id: u64,
    counters: NameMap<u64>,
}

impl View for Node {
    type V = CounterView;

    closed spec fn view(&self) -> CounterView {
        CounterView {
            node_id: self.node_id@,
            cluster: self.cluster@,
            msg_id: self.msg_id,
            counters: self.counters@,
            listing: self.counters.pairs(),
        }
    }
}

/// The sum of the counts of `s`.
pub open spec fn total(s: Seq<(String, u64)>) -> int
    decreases s.len(),
{
    if s.len() == 0 {
        0
    } else {
        total(s.drop_last()) + s.last().1
    }
}

proof fn lemma_total_update(s: Seq<(String, u64)>, j: int, p: (String, u64))
    requires
        0 <= j < s.len(),
    ensures
        total(s.update(j, p)) == total(s) - s[j].1 + p.1,
    decreases s.len(),
{
    if j == s.len() - 1 {
        assert(s.update(j, p).drop_last() =~= s.drop_last());
    } else {
        assert(s.update(j, p).drop_last() =~= s.drop_last().update(j, p));
        lemma_total_update(s.drop_last(), j, p);
    }
}

proof fn lemma_total_prefix(s: Seq<(String, u64)>, i: int)
    requires
        0 <= i <= s.len(),
    ensures
        0 <= total(s.take(i)) <= total(s),
    decreases s.len(),
{
    if s.len() > 0 {
        if i == s.len() {
            assert(s.take(i) =~= s);
            lemma_total_prefix(s.drop_last(), i - 1);
            assert(s.drop_last().take(i - 1) =~= s.drop_last());
        } else {
            assert(s.drop_last().take(i) =~= s.take(i));
            lemma_total_prefix(s.drop_last(), i);
        }
    }
}

proof fn lemma_total_remove(s: Seq<(String, u64)>, j: int)
    requires
        0 <= j < s.len(),
    ensures
        total(s) == total(s.remove(j)) + s[j].1,
    decreases s.len(),
{
    if j == s.len() - 1 {
        assert(s.remove(j) =~= s.drop_last());
    } else {
        assert(s.remove(j).drop_last() =~= s.drop_last().remove(j));
        assert(s.remove(j).last() == s.last());
        lemma_total_remove(s.drop_last(), j);
    }
}

/// The sum of a listing depends only on the counts it lists, not on their
/// order: so what a read returns is fixed by the counts alone.
pub proof fn total_depends_on_counts_only(
    m: Map<Seq<char>, u64>,
    a: Seq<(String, u64)>,
    b: Seq<(String, u64)>,
)
    requires
        lists(m, a),
        lists(m, b),
    ensures
        total(a) == total(b),
    decreases a.len(),
{
    if a.len() == 0 {
        if b.len() > 0 {
            assert(m.contains_key(b[0].0@));
        }
    } else {
        let n = a.len() - 1;
        let k = a[n].0@;
        assert(m.contains_key(k));
        let j = choose|j: int| 0 <= j < b.len() && b[j].0@ == k;
        let m2 = m.remove(k);
        let a2 = a.drop_last();
        let b2 = b.remove(j);
        assert forall|i: int| 0 <= i < a2.len() implies a2[i].0@ != k && m2.contains_key(
            (#[trigger] a2[i]).0@,
        ) && m2[a2[i].0@] == a2[i].1 by {
            assert(a[i] == a2[i]);
        }
        assert forall|x: Seq<char>| #[trigger] m2.contains_key(x) implies exists|i: int|
            0 <= i < a2.len() && a2[i].0@ == x by {
            let i = choose|i: int| 0 <= i < a.len() && a[i].0@ == x;
            assert(a2[i] == a[i]);
        }
        assert forall|i: int| 0 <= i < b2.len() implies (#[trigger] b2[i]) == (if i < j {
            b[i]
        } else {
            b[i + 1]
        }) by {}
        assert forall|i: int| 0 <= i < b2.len() implies b2[i].0@ != k && m2.contains_key(
            (#[trigger] b2[i]).0@,
        ) && m2[b2[i].0@] == b2[i].1 by {
            if i < j {
                assert(b2[i] == b[i]);
            } else {
                assert(b2[i] == b[i + 1]);
            }
        }
        assert forall|i1: int, i2: int| 0 <= i1 < i2 < b2.len() implies b2[i1].0@ != b2[i2].0@ by {
            let o1 = if i1 < j { i1 } else { i1 + 1 };
            let o2 = if i2 < j { i2 } else { i2 + 1 };
            assert(b2[i1] == b[o1]);
            assert(b2[i2] == b[o2]);
        }
        assert forall|x: Seq<char>| #[trigger] m2.contains_key(x) implies exists|i: int|
            0 <= i < b2.len() && b2[i].0@ == x by {
            let i = choose|i: int| 0 <= i < b.len() && b[i].0@ == x;
            if i < j {
                assert(b2[i] == b[i]);
            } else {
                assert(i != j);
                assert(b2[i - 1] == b[i]);
            }
        }
        assert(lists(m2, a2));
        assert(lists(m2, b2));
        total_depends_on_counts_only(m2, a2, b2);
        lemma_total_remove(b, j);
    }
}

/// Every node of `ids` with a count of zero.
pub open spec fn zeroed(ids: Seq<String>) -> Map<Seq<char>, u64> {
    Map::new(|k: Seq<char>| exists|i: int| 0 <= i < ids.len() && ids[i]@ == k, |k: Seq<char>| 0u64)
}

/// The nodes of `cluster` other than `me`, in order.
pub open spec fn others(cluster: Seq<String>, me: Seq<char>) -> Seq<String>
    decreases cluster.len(),
{
    if cluster.len() == 0 {
        Seq::empty()
    } else {
        let rest = others(cluster.drop_last(), me);
        if cluster.last()@ == me {
            rest
        } else {
            rest.push(cluster.last())
        }
    }
}

/// `counters` after taking, for each node that it already counts, the larger
/// of its own count and the one in `remote`.
pub open spec fn merged(counters: Map<Seq<char>, u64>, remote: Seq<(String, u64)>) -> Map<
    Seq<char>,
    u64,
>
    decreases remote.len(),
{
    if remote.len() == 0 {
        counters
    } else {
        let m = merged(counters, remote.drop_last());
        let (k, v) = remote.last();
        if m.contains_key(k@) && v > m[k@] {
            m.insert(k@, v)
        } else {
            m
        }
    }
}

/// `pre` has room for the ids and the sums that handling `m` needs.
pub open spec fn counter_fits(pre: CounterView, m: Message) -> bool {
    match m.body {
        Body::Add { delta, .. } => {
            &&& pre.msg_id + 2 <= u64::MAX
            &&& pre.counters.contains_key(pre.node_id) ==> pre.counters[pre.node_id] + delta <= u64::MAX
        },
        Body::Read { .. } => pre.msg_id < u64::MAX && total(pre.listing) <= u64::MAX,
        Body::Init { .. } => pre.msg_id < u64::MAX,
        _ => true,
    }
}

/// What handling `m` does: `pre` becomes `post`, and `out` holds the
/// messages to send, in order.
pub open spec fn counter_handled(pre: CounterView, post: CounterView, m: Message, out: Seq<Message>) -> bool {
    let id = (pre.msg_id + 1) as u64;
    let back = |body: Body| Message { src: m.dest, dest: m.src, body };
    match m.body {
        Body::Init { msg_id, node_id, node_ids } => {
            &&& post.node_id == node_id@
            &&& post.cluster == pre.cluster + node_ids@
            &&& post.msg_id == id
            &&& post.counters == zeroed(node_ids@)
            &&& total(post.listing) == 0
            &&& out == seq![back(Body::InitOk { msg_id: id, in_reply_to: msg_id })]
        },
        Body::Add { msg_id, delta } => {
            let peers = others(pre.cluster, pre.node_id);
            &&& post.node_id == pre.node_id && post.cluster == pre.cluster
            &&& post.msg_id == pre.msg_id + 2
            &&& post.counters == if pre.counters.contains_key(pre.node_id) {
                pre.counters.insert(pre.node_id, (pre.counters[pre.node_id] + delta) as u64)
            } else {
                pre.counters
            }
            &&& total(post.listing) == total(pre.listing) + if pre.counters.contains_key(pre.node_id) {
                delta as int
            } else {
                0
            }
            &&& out.len() == peers.len() + 1
            &&& forall|i: int|
                0 <= i < peers.len() ==> {
                    &&& (#[trigger] out[i]).src@ == pre.node_id
                    &&& out[i].dest == peers[i]
                    &&& match out[i].body {
                        Body::Sync { msg_id: s, counters } => s == id && counters@ == post.listing,
                        _ => false,
                    }
                }
            &&& out.last() == back(Body::AddOk { msg_id: (pre.msg_id + 2) as u64, in_reply_to: msg_id })
        },
        Body::Read { msg_id } => {
            &&& post == (CounterView { msg_id: id, ..pre })
            &&& out == seq![back(Body::ReadOk { msg_id: id, in_reply_to: msg_id, value: total(pre.listing) as u64 })]
        },
        Body::Sync { counters, .. } => {
            &&& post.node_id == pre.node_id && post.cluster == pre.cluster && post.msg_id == pre.msg_id
            &&& post.counters == merged(pre.counters, counters@)
            &&& out.len() == 0
        },
        _ => post == pre && out.len() == 0,
    }
}

impl Node {
    pub closed spec fn wf(&self) -> bool {
        self.counters.wf()
    }

    /// A counter node with no name, no cluster and no counts.
    pub fn new() -> (r: Node)
        ensures
            r.wf(),
            r@ == (CounterView {
                node_id: Seq::empty(),
                cluster: Seq::empty(),
                msg_id: 0,
                counters: Map::empty(),
                listing: Seq::empty(),
            }),
            lists(r@.counters, r@.listing),
    {
        let r = Node { node_id: String::new(), cluster: Vec::new(), msg_id: 0, counters: NameMap::new() };
        proof {
            r.counters.lemma_lists();
            assert(r.cluster@ =~= Seq::<String>::empty());
        }
        r
    }

    /// Takes `node_id` as this node's name, adds `node_ids` to its cluster and
    /// starts every one of them at a count of zero.
    pub fn initialize(&mut self, node_id: String, node_ids: &Vec<String>)
        requires
            old(self).wf(),
        ensures
            final(self).wf(),
            final(self)@.node_id == node_id@,
            final(self)@.cluster == old(self)@.cluster + node_ids@,
            final(self)@.msg_id == old(self)@.msg_id,
            final(self)@.counters == zeroed(node_ids@),
            total(final(self)@.listing) == 0,
            lists(final(self)@.counters, final(self)@.listing),
    {
        self.node_id = node_id;
        let mut counters: NameMap<u64> = NameMap::new();
        let mut i: usize = 0;
        while i < node_ids.len()
            invariant
                0 <= i <= node_ids@.len(),
                counters.wf(),
                counters@ == zeroed(node_ids@.take(i as int)),
                total(counters.pairs()) == 0,
                forall|j: int| 0 <= j < counters.pairs().len() ==> (#[trigger] counters.pairs()[j]).1 == 0,
            decreases node_ids@.len() - i,
        {
            let ghost before = counters.pairs();
            let old_value = counters.insert(&node_ids[i], 0);
            proof {
                let id = node_ids@[i as int];
                assert(zeroed(node_ids@.take(i + 1)) =~= zeroed(node_ids@.take(i as int)).insert(id@, 0u64)) by {
                    let a = node_ids@.take(i + 1);
                    let b = node_ids@.take(i as int);
                    assert forall|k: Seq<char>| #[trigger] zeroed(a).contains_key(k) <==> (zeroed(b).contains_key(k) || k == id@) by {
                        if zeroed(a).contains_key(k) {
                            let t = choose|t: int| 0 <= t < a.len() && a[t]@ == k;
                            if t < i {
                                assert(b[t]@ == k);
                            }
                        }
                        if zeroed(b).contains_key(k) {
                            let t = choose|t: int| 0 <= t < b.len() && b[t]@ == k;
                            assert(a[t]@ == k);
                        }
                        if k == id@ {
                            assert(a[i as int]@ == k);
                        }
                    }
                }
                match old_value {
                    Some(_) => {
                        let j = choose|j: int|
                            0 <= j < before.len() && before[j].0@ == id@ && counters.pairs()
                                == before.update(j, (id, 0u64));
                        lemma_total_update(before, j, (id, 0u64));
                    },
                    None => {
                        assert(counters.pairs().drop_last() =~= before);
                    },
                }
            }
            i = i + 1;
        }
        proof {
            assert(node_ids@.take(node_ids@.len() as int) =~= node_ids@);
        }
        self.counters = counters;
        let mut j: usize = 0;
        let ghost cluster0 = self.cluster@;
        while j < node_ids.len()
            invariant
                0 <= j <= node_ids@.len(),
                self.cluster@ == cluster0 + node_ids@.take(j as int),
                self.wf(),
                self@.node_id == node_id@,
                self@.msg_id == old(self)@.msg_id,
                self@.counters == zeroed(node_ids@),
                total(self@.listing) == 0,
                cluster0 == old(self)@.cluster,
            decreases node_ids@.len() - j,
        {
            self.cluster.push(node_ids[j].clone());
            proof {
                assert(self.cluster@ =~= cluster0 + node_ids@.take(j + 1));
            }
            j = j + 1;
        }
        proof {
            self.counters.lemma_lists();
            assert(node_ids@.take(node_ids@.len() as int) =~= node_ids@);
        }
    }

    /// Advances the message counter and returns its new value.
    pub fn incremented_msg_id(&mut self) -> (r: u64)
        requires
            old(self)@.msg_id < u64::MAX,
        ensures
            final(self).wf() == old(self).wf(),
            final(self)@ == (CounterView { msg_id: (old(self)@.msg_id + 1) as u64, ..old(self)@ }),
            r == final(self)@.msg_id,
    {
        self.msg_id = self.msg_id + 1;
        self.msg_id
    }

    /// Whether this node can handle `m` without running out of ids or
    /// overflowing a count or the sum.
    pub fn fits(&self, m: &Message) -> (r: bool)
        requires
            self.wf(),
        ensures
            r == counter_fits(self@, *m),
    {
        match &m.body {
            Body::Add { delta, .. } => {
                if self.msg_id > u64::MAX - 2 {
                    return false;
                }
                match self.counters.get(&self.node_id) {
                    Some(c) => *c <= u64::MAX - *delta,
                    None => true,
                }
            },
            Body::Read { .. } => self.msg_id < u64::MAX && self.sum().is_some(),
            Body::Init { .. } => self.msg_id < u64::MAX,
            _ => true,
        }
    }

    /// The sum of every count, if it fits in a `u64`.
    fn sum(&self) -> (r: Option<u64>)
        ensures
            match r {
                Some(v) => v == total(self@.listing),
                None => total(self@.listing) > u64::MAX,
            },
    {
        let mut acc: u64 = 0;
        let mut i: usize = 0;
        while i < self.counters.len()
            invariant
                0 <= i <= self@.listing.len(),
                self@.listing == self.counters.pairs(),
                acc == total(self@.listing.take(i as int)),
            decreases self@.listing.len() - i,
        {
            proof {
                assert(self@.listing.take(i + 1).drop_last() =~= self@.listing.take(i as int));
            }
            let v = *self.counters.value_at(i);
            if acc > u64::MAX - v {
                proof {
                    lemma_total_prefix(self@.listing, i + 1);
                }
                return None;
            }
            acc = acc + v;
            i = i + 1;
        }
        proof {
            assert(self@.listing.take(i as int) =~= self@.listing);
        }
        Some(acc)
    }

    fn sync_messages(&self, id: u64) -> (r: Vec<Message>)
        requires
            self.wf(),
        ensures
            r@.len() == others(self@.cluster, self@.node_id).len(),
            forall|i: int|
                0 <= i < r@.len() ==> {
                    &&& (#[trigger] r@[i]).src@ == self@.node_id
                    &&& r@[i].dest == others(self@.cluster, self@.node_id)[i]
                    &&& match r@[i].body {
                        Body::Sync { msg_id: s, counters } => s == id && counters@ == self@.listing,
                        _ => false,
                    }
                },
    {
        let mut r: Vec<Message> = Vec::new();
        let mut i: usize = 0;
        while i < self.cluster.len()
            invariant
                0 <= i <= self@.cluster.len(),
                self.wf(),
                r@.len() == others(self@.cluster.take(i as int), self@.node_id).len(),
                forall|t: int|
                    0 <= t < r@.len() ==> {
                        &&& (#[trigger] r@[t]).src@ == self@.node_id
                        &&& r@[t].dest == others(self@.cluster.take(i as int), self@.node_id)[t]
                        &&& match r@[t].body {
                            Body::Sync { msg_id: s, counters } => s == id && counters@ == self@.listing,
                            _ => false,
                        }
                    },
            decreases self@.cluster.len() - i,
        {
            proof {
                assert(self@.cluster.take(i + 1).drop_last() =~= self@.cluster.take(i as int));
                assert(self@.cluster.take(i + 1).last() == self@.cluster[i as int]);
            }
            if self.cluster[i] != self.node_id {
                let m = Message {
                    src: self.node_id.clone(),
                    dest: self.cluster[i].clone(),
                    body: Body::Sync { msg_id: id, counters: self.counters.to_vec() },
                };
                r.push(m);
            }
            i = i + 1;
        }
        proof {
            assert(self@.cluster.take(self@.cluster.len() as int) =~= self@.cluster);
        }
        r
    }

    fn merge(&mut self, remote: &Vec<(String, u64)>)
        requires
            old(self).wf(),
        ensures
            final(self).wf(),
            final(self)@.node_id == old(self)@.node_id,
            final(self)@.cluster == old(self)@.cluster,
            final(self)@.msg_id == old(self)@.msg_id,
            final(self)@.counters == merged(old(self)@.counters, remote@),
    {
        let mut i: usize = 0;
        while i < remote.len()
            invariant
                0 <= i <= remote@.len(),
                self.wf(),
                self@.node_id == old(self)@.node_id,
                self@.cluster == old(self)@.cluster,
                self@.msg_id == old(self)@.msg_id,
                self@.counters == merged(old(self)@.counters, remote@.take(i as int)),
            decreases remote@.len() - i,
        {
            proof {
                assert(remote@.take(i + 1).drop_last() =~= remote@.take(i as int));
                assert(remote@.take(i + 1).last() == remote@[i as int]);
            }
            let remote_value = remote[i].1;
            let local = match self.counters.get(&remote[i].0) {
                Some(v) => Some(*v),
                None => None,
            };
            match local {
                Some(v) => {
                    if remote_value > v {
                        self.counters.insert(&remote[i].0, remote_value);
                    }
                },
                None => {},
            }
            i = i + 1;
        }
        proof {
            assert(remote@.take(remote@.len() as int) =~= remote@);
        }
    }
}

impl Message {
    /// Handles this message on `node` and returns the messages to send.
    pub fn process_received_message(&self, node: &mut Node) -> (r: Vec<Message>)
        requires
            old(node).wf(),
            counter_fits(old(node)@, *self),
        ensures
            final(node).wf(),
            counter_handled(old(node)@, final(node)@, *self, r@),
            lists(final(node)@.counters, final(node)@.listing),
    {
        let mut out: Vec<Message> = Vec::new();
        match &self.body {
            Body::Init { msg_id, node_id, node_ids } => {
                node.initialize(node_id.clone(), node_ids);
                let id = node.incremented_msg_id();
                out.push(
                    Message {
                        src: self.dest.clone(),
                        dest: self.src.clone(),
                        body: Body::InitOk { msg_id: id, in_reply_to: *msg_id },
                    },
                );
                proof {
                    assert(out@ =~= seq![out@[0]]);
                }
            },
            Body::Add { msg_id, delta } => {
                let ghost pre = node@;
                let own = match node.counters.get(&node.node_id) {
                    Some(c) => Some(*c),
                    None => None,
                };
                match own {
                    Some(c) => {
                        let me = node.node_id.clone();
                        let ghost before = node.counters.pairs();
                        node.counters.insert(&me, c + *delta);
                        proof {
                            let j = choose|j: int|
                                0 <= j < before.len() && before[j].0@ == me@ && node.counters.pairs()
                                    == before.update(j, (me, (c + *delta) as u64));
                            node.counters.lemma_pair(j);
                            lemma_total_update(before, j, (me, (c + *delta) as u64));
                            old(node).counters.lemma_pair(j);
                        }
                    },
                    None => {},
                }
                let sync_id = node.incremented_msg_id();
                out = node.sync_messages(sync_id);
                let ghost syncs = out@;
                let id = node.incremented_msg_id();
                out.push(
                    Message {
                        src: self.dest.clone(),
                        dest: self.src.clone(),
                        body: Body::AddOk { msg_id: id, in_reply_to: *msg_id },
                    },
                );
                proof {
                    assert forall|i: int| 0 <= i < syncs.len() implies out@[i] == syncs[i] by {}
                }
            },
            Body::Read { msg_id } => {
                let value = match node.sum() {
                    Some(v) => v,
                    None => 0,
                };
                let id = node.incremented_msg_id();
                out.push(
                    Message {
                        src: self.dest.clone(),
                        dest: self.src.clone(),
                        body: Body::ReadOk { msg_id: id, in_reply_to: *msg_id, value },
                    },
                );
                proof {
                    assert(out@ =~= seq![out@[0]]);
                }
            },
            Body::Sync { counters, .. } => {
                node.merge(counters);
            },
            Body::InitOk { .. } | Body::AddOk { .. } | Body::ReadOk { .. } => {},
        }
        proof {
            node.counters.lemma_lists();
        }
        out
    }
}

} // verus!
