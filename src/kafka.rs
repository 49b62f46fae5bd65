use vstd::prelude::*;

use crate::name_map::NameMap;

verus! {

/// The messages of the replicated log protocol.
#[derive(Debug, PartialEq, Eq)]
pub enum Body {
    Init { msg_id: u64, node_id: String, node_ids: Vec<String> },
    InitOk { msg_id: u64, in_reply_to: u64 },
    /// Appends `msg` to the log named `key`.
    Send { msg_id: u64, key: String, msg: u64 },
    SendOk { msg_id: u64, in_reply_to: u64, offset: u64 },
    /// Asks, for each log named, for its entries from the given offset on.
    Poll { msg_id: u64, offsets: Vec<(String, u64)> },
    /// For each log polled, its entries as (offset, message) pairs.
    PollOk { msg_id: u64, in_reply_to: u64, msgs: Vec<(String, Vec<(u64, u64)>)> },
    /// Records, for each log named, the offset a consumer has reached.
    CommitOffsets { msg_id: u64, offsets: Vec<(String, u64)> },
    CommitOffsetsOk { msg_id: u64, in_reply_to: u64 },
    /// Asks for the committed offsets of the logs named.
    ListCommittedOffsets { msg_id: u64, keys: Vec<String> },
    ListCommittedOffsetsOk { msg_id: u64, in_reply_to: u64, offsets: Vec<(String, u64)> },
}

/// The envelope of the replicated log protocol.
#[derive(Debug, PartialEq, Eq)]
pub struct Message {
    pub src: String,
    pub dest: String,
    pub body: Body,
}

/// The abstract state of a log node.
pub struct LogView {
    pub node_id: Seq<char>,
    pub msg_id: u64,
    pub logs: Map<Seq<char>, Vec<u64>>,
    pub offsets: Map<Seq<char>, u64>,
}

/// The state of a log node: its logs and the offsets consumers committed.
pub struct Node {
    node_id: String,
    msg_id: u64,
    logs: NameMap<Vec<u64>>,
    offsets: NameMap<u64>,
}

impl View for Node {
    type V = LogView;

    closed spec fn view(&self) -> LogView {
        LogView {
            node_id: self.node_id@,
            msg_id: self.msg_id,
            logs: self.logs@,
            offsets: self.offsets@,
        }
    }
}

/// The entries of `log` from offset `from` on, each with its offset.
pub open spec fn polled(log: Seq<u64>, from: u64) -> Seq<(u64, u64)> {
    let start = if from < log.len() {
        from as int
    } else {
        log.len() as int
    };
    Seq::new((log.len() - start) as nat, |t: int| ((start + t) as u64, log[start + t]))
}

/// The requests of a poll whose log exists, in request order.
pub open spec fn polled_logs(req: Seq<(String, u64)>, logs: Map<Seq<char>, Vec<u64>>) -> Seq<
    (String, u64),
>
    decreases req.len(),
{
    if req.len() == 0 {
        Seq::empty()
    } else {
        let rest = polled_logs(req.drop_last(), logs);
        if logs.contains_key(req.last().0@) {
            rest.push(req.last())
        } else {
            rest
        }
    }
}

/// `out` answers a poll of `req`: one entry per requested log that exists,
/// holding its entries from the requested offset on.
pub open spec fn is_poll_answer(
    out: Seq<(String, Vec<(u64, u64)>)>,
    req: Seq<(String, u64)>,
    logs: Map<Seq<char>, Vec<u64>>,
) -> bool {
    let asked = polled_logs(req, logs);
    &&& out.len() == asked.len()
    &&& forall|i: int|
        0 <= i < out.len() ==> (#[trigger] out[i]).0 == asked[i].0 && out[i].1@ == polled(
            logs[asked[i].0@]@,
            asked[i].1,
        )
}

/// `offsets` after committing each pair of `req` in turn.
pub open spec fn committed(offsets: Map<Seq<char>, u64>, req: Seq<(String, u64)>) -> Map<
    Seq<char>,
    u64,
>
    decreases req.len(),
{
    if req.len() == 0 {
        offsets
    } else {
        committed(offsets, req.drop_last()).insert(req.last().0@, req.last().1)
    }
}

/// The committed offsets of those of `keys` that have one, in the order of `keys`.
pub open spec fn listed(keys: Seq<String>, offsets: Map<Seq<char>, u64>) -> Seq<(String, u64)>
    decreases keys.len(),
{
    if keys.len() == 0 {
        Seq::empty()
    } else {
        let rest = listed(keys.drop_last(), offsets);
        if offsets.contains_key(keys.last()@) {
            rest.push((keys.last(), offsets[keys.last()@]))
        } else {
            rest
        }
    }
}

/// What handling `m` does: `pre` becomes `post`, and `r` is the reply.
pub open spec fn log_handled(pre: LogView, post: LogView, m: Message, r: Option<Message>) -> bool {
    let id = (pre.msg_id + 1) as u64;
    let next = LogView { msg_id: id, ..pre };
    let back = |body: Body| Some(Message { src: m.dest, dest: m.src, body });
    match m.body {
        Body::Init { msg_id, node_id, .. } => {
            &&& post == (LogView { node_id: node_id@, ..next })
            &&& r == back(Body::InitOk { msg_id: id, in_reply_to: msg_id })
        },
        Body::Send { msg_id, key, msg } => {
            let log = if pre.logs.contains_key(key@) {
                pre.logs[key@]@
            } else {
                Seq::empty()
            };
            &&& post.node_id == pre.node_id && post.msg_id == id && post.offsets == pre.offsets
            &&& post.logs.dom() == pre.logs.dom().insert(key@)
            &&& forall|k: Seq<char>| #![auto] post.logs.contains_key(k) && k != key@ ==> post.logs[k] == pre.logs[k]
            &&& post.logs[key@]@ == log.push(msg)
            &&& r == back(Body::SendOk { msg_id: id, in_reply_to: msg_id, offset: log.len() as u64 })
        },
        Body::Poll { msg_id, offsets } => {
            &&& post == next
            &&& r is Some && r->0.src == m.dest && r->0.dest == m.src
            &&& match r->0.body {
                Body::PollOk { msg_id: a, in_reply_to: b, msgs } => {
                    a == id && b == msg_id && is_poll_answer(msgs@, offsets@, pre.logs)
                },
                _ => false,
            }
        },
        Body::CommitOffsets { msg_id, offsets } => {
            &&& post == (LogView { offsets: committed(pre.offsets, offsets@), ..next })
            &&& r == back(Body::CommitOffsetsOk { msg_id: id, in_reply_to: msg_id })
        },
        Body::ListCommittedOffsets { msg_id, keys } => {
            &&& post == next
            &&& r is Some && r->0.src == m.dest && r->0.dest == m.src
            &&& match r->0.body {
                Body::ListCommittedOffsetsOk { msg_id: a, in_reply_to: b, offsets } => {
                    a == id && b == msg_id && offsets@ == listed(keys@, pre.offsets)
                },
                _ => false,
            }
        },
        _ => post == pre && r is None,
    }
}

/// The entries of `log` from offset `from` on, each with its offset.
fn entries_from(log: &Vec<u64>, from: u64) -> (r: Vec<(u64, u64)>)
    ensures
        r@ == polled(log@, from),
{
    let start: usize = if from < log.len() as u64 {
        from as usize
    } else {
        log.len()
    };
    let mut r: Vec<(u64, u64)> = Vec::new();
    let mut j: usize = start;
    while j < log.len()
        invariant
            start <= j <= log@.len(),
            start == (if from < log@.len() { from as int } else { log@.len() as int }),
            r@ =~= Seq::new((j - start) as nat, |t: int| ((start + t) as u64, log@[start + t])),
        decreases log@.len() - j,
    {
        r.push((j as u64, log[j]));
        j = j + 1;
    }
    r
}

impl Node {
    pub closed spec fn wf(&self) -> bool {
        self.logs.wf() && self.offsets.wf()
    }

    /// A log node with no name, no logs and no offsets.
    pub fn new() -> (r: Node)
        ensures
            r.wf(),
            r@ == (LogView {
                node_id: Seq::empty(),
                msg_id: 0,
                logs: Map::empty(),
                offsets: Map::empty(),
            }),
    {
        Node { node_id: String::new(), msg_id: 0, logs: NameMap::new(), offsets: NameMap::new() }
    }

    pub fn initialize(&mut self, node_id: String)
        ensures
            final(self).wf() == old(self).wf(),
            final(self)@ == (LogView { node_id: node_id@, ..old(self)@ }),
    {
        self.node_id = node_id;
    }

    /// Advances the message counter and returns its new value.
    pub fn incremented_msg_id(&mut self) -> (r: u64)
        requires
            old(self)@.msg_id < u64::MAX,
        ensures
            final(self).wf() == old(self).wf(),
            final(self)@ == (LogView { msg_id: (old(self)@.msg_id + 1) as u64, ..old(self)@ }),
            r == final(self)@.msg_id,
    {
        self.msg_id = self.msg_id + 1;
        self.msg_id
    }

    pub fn msg_id(&self) -> (r: u64)
        ensures
            r == self@.msg_id,
    {
        self.msg_id
    }

    fn poll(&self, req: &Vec<(String, u64)>) -> (r: Vec<(String, Vec<(u64, u64)>)>)
        requires
            self.wf(),
        ensures
            is_poll_answer(r@, req@, self@.logs),
    {
        let mut r: Vec<(String, Vec<(u64, u64)>)> = Vec::new();
        let mut i: usize = 0;
        while i < req.len()
            invariant
                0 <= i <= req@.len(),
                self.wf(),
                is_poll_answer(r@, req@.take(i as int), self@.logs),
            decreases req@.len() - i,
        {
            proof {
                assert(req@.take(i + 1).drop_last() =~= req@.take(i as int));
                assert(req@.take(i + 1).last() == req@[i as int]);
            }
            match self.logs.get(&req[i].0) {
                Some(log) => {
                    let entries = entries_from(log, req[i].1);
                    r.push((req[i].0.clone(), entries));
                    proof {
                        let asked = polled_logs(req@.take(i + 1), self@.logs);
                        assert forall|t: int| 0 <= t < r@.len() implies (#[trigger] r@[t]).0
                            == asked[t].0 && r@[t].1@ == polled(
                            self@.logs[asked[t].0@]@,
                            asked[t].1,
                        ) by {}
                    }
                },
                None => {},
            }
            i = i + 1;
        }
        proof {
            assert(req@.take(req@.len() as int) =~= req@);
        }
        r
    }

    fn commit(&mut self, req: &Vec<(String, u64)>)
        requires
            old(self).wf(),
        ensures
            final(self).wf(),
            final(self)@ == (LogView { offsets: committed(old(self)@.offsets, req@), ..old(self)@ }),
    {
        let mut i: usize = 0;
        while i < req.len()
            invariant
                0 <= i <= req@.len(),
                self.wf(),
                self@ == (LogView {
                    offsets: committed(old(self)@.offsets, req@.take(i as int)),
                    ..old(self)@
                }),
            decreases req@.len() - i,
        {
            proof {
                assert(req@.take(i + 1).drop_last() =~= req@.take(i as int));
                assert(req@.take(i + 1).last() == req@[i as int]);
            }
            self.offsets.insert(&req[i].0, req[i].1);
            i = i + 1;
        }
        proof {
            assert(req@.take(req@.len() as int) =~= req@);
        }
    }

    fn list(&self, keys: &Vec<String>) -> (r: Vec<(String, u64)>)
        requires
            self.wf(),
        ensures
            r@ == listed(keys@, self@.offsets),
    {
        let mut r: Vec<(String, u64)> = Vec::new();
        let mut i: usize = 0;
        while i < keys.len()
            invariant
                0 <= i <= keys@.len(),
                self.wf(),
                r@ == listed(keys@.take(i as int), self@.offsets),
            decreases keys@.len() - i,
        {
            proof {
                assert(keys@.take(i + 1).drop_last() =~= keys@.take(i as int));
                assert(keys@.take(i + 1).last() == keys@[i as int]);
            }
            match self.offsets.get(&keys[i]) {
                Some(o) => {
                    r.push((keys[i].clone(), *o));
                },
                None => {},
            }
            i = i + 1;
        }
        proof {
            assert(keys@.take(keys@.len() as int) =~= keys@);
        }
        r
    }
}

impl Message {
    /// Requests take a fresh message id for their reply; replies take none.
    pub open spec fn uses_id(self) -> bool {
        ||| self.body is Init
        ||| self.body is Send
        ||| self.body is Poll
        ||| self.body is CommitOffsets
        ||| self.body is ListCommittedOffsets
    }

    /// Whether handling this message takes a fresh message id.
    pub fn needs_id(&self) -> (r: bool)
        ensures
            r == self.uses_id(),
    {
        match &self.body {
            Body::Init { .. }
            | Body::Send { .. }
            | Body::Poll { .. }
            | Body::CommitOffsets { .. }
            | Body::ListCommittedOffsets { .. } => true,
            _ => false,
        }
    }

    /// Handles this message on `node` and returns the reply, if the message
    /// kind has one.
    pub fn process_received_message(&self, node: &mut Node) -> (r: Option<Message>)
        requires
            old(node).wf(),
            self.uses_id() ==> old(node)@.msg_id < u64::MAX,
        ensures
            final(node).wf(),
            log_handled(old(node)@, final(node)@, *self, r),
    {
        let body = match &self.body {
            Body::Init { msg_id, node_id, .. } => {
                node.initialize(node_id.clone());
                Body::InitOk { msg_id: node.incremented_msg_id(), in_reply_to: *msg_id }
            },
            Body::Send { msg_id, key, msg } => {
                let previous = node.logs.insert(key, Vec::new());
                let mut log = match previous {
                    Some(l) => l,
                    None => Vec::new(),
                };
                let offset = log.len() as u64;
                log.push(*msg);
                node.logs.insert(key, log);
                proof {
                    assert(node@.logs =~= old(node)@.logs.insert(key@, node@.logs[key@]));
                }
                Body::SendOk { msg_id: node.incremented_msg_id(), in_reply_to: *msg_id, offset }
            },
            Body::Poll { msg_id, offsets } => {
                let msgs = node.poll(offsets);
                Body::PollOk { msg_id: node.incremented_msg_id(), in_reply_to: *msg_id, msgs }
            },
            Body::CommitOffsets { msg_id, offsets } => {
                node.commit(offsets);
                Body::CommitOffsetsOk { msg_id: node.incremented_msg_id(), in_reply_to: *msg_id }
            },
            Body::ListCommittedOffsets { msg_id, keys } => {
                let offsets = node.list(keys);
                Body::ListCommittedOffsetsOk {
                    msg_id: node.incremented_msg_id(),
                    in_reply_to: *msg_id,
                    offsets,
                }
            },
            Body::InitOk { .. }
            | Body::SendOk { .. }
            | Body::PollOk { .. }
            | Body::CommitOffsetsOk { .. }
            | Body::ListCommittedOffsetsOk { .. } => {
                return None;
            },
        };
        Some(Message { src: self.dest.clone(), dest: self.src.clone(), body })
    }
}

} // verus!
