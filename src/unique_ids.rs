use vstd::prelude::*;

verus! {

/// Asks the id node to take its identity.
#[derive(Debug, PartialEq, Eq)]
pub struct Init {
    pub msg_id: u64,
    pub node_id: String,
    pub node_ids: Vec<String>,
}

#[derive(Debug, PartialEq, Eq)]
pub struct InitOk {
    pub msg_id: u64,
    pub in_reply_to: u64,
}

/// Asks for an id that no other request to any node is given.
#[derive(Debug, PartialEq, Eq)]
pub struct Generate {
    pub msg_id: u64,
}

#[derive(Debug, PartialEq, Eq)]
pub struct GenerateOk {
    pub msg_id: u64,
    pub in_reply_to: u64,
    pub id: String,
}

#[derive(Debug, PartialEq, Eq)]
pub enum Body {
    Init(Init),
    InitOk(InitOk),
    Generate(Generate),
    GenerateOk(GenerateOk),
}

/// The envelope of the id protocol.
#[derive(Debug, PartialEq, Eq)]
pub struct Message {
    pub src: String,
    pub dest: String,
    pub body: Body,
}

/// The character of the decimal digit `d`.
pub open spec fn digit_char(d: nat) -> char {
    if d == 0 {
        '0'
    } else if d == 1 {
        '1'
    } else if d == 2 {
        '2'
    } else if d == 3 {
        '3'
    } else if d == 4 {
        '4'
    } else if d == 5 {
        '5'
    } else if d == 6 {
        '6'
    } else if d == 7 {
        '7'
    } else if d == 8 {
        '8'
    } else {
        '9'
    }
}

/// `n` written in decimal, without leading zeros.
pub open spec fn decimal(n: nat) -> Seq<char>
    decreases n,
{
    if n < 10 {
        seq![digit_char(n)]
    } else {
        decimal(n / 10).push(digit_char(n % 10))
    }
}

/// The id handed out for message `msg_id` of node `node_id`.
pub open spec fn generated_id(node_id: Seq<char>, msg_id: u64) -> Seq<char> {
    node_id + seq!['_'] + decimal(msg_id as nat)
}

/// Relies on std's `ToString` for `u64`, through `Display`: the number in
/// decimal, without leading zeros.
#[verifier::external_body]
fn decimal_string(n: u64) -> (r: String)
    ensures
        r@ == decimal(n as nat),
{
    n.to_string()
}

/// The id handed out for message `msg_id` of node `node_id`.
fn format_id(node_id: &String, msg_id: u64) -> (r: String)
    ensures
        r@ == generated_id(node_id@, msg_id),
{
    let digits = decimal_string(msg_id);
    let mut r = node_id.clone();
    r.append("_");
    r.append(digits.as_str());
    proof {
        reveal_strlit("_");
    }
    r
}

/// The state of an id node: its identity and its message counter.
pub struct Node {
    pub node_id: String,
    pub msg_id: u64,
}

impl Node {
    /// An id node named `node_id` that has sent nothing yet.
    pub fn initialize(node_id: String) -> (r: Node)
        ensures
            r.node_id == node_id,
            r.msg_id == 0,
    {
        Node { node_id, msg_id: 0 }
    }

    /// Advances the message counter and returns its new value.
    pub fn incremented_msg_id(&mut self) -> (r: u64)
        requires
            old(self).msg_id < u64::MAX,
        ensures
            final(self).msg_id == old(self).msg_id + 1,
            final(self).node_id == old(self).node_id,
            r == final(self).msg_id,
    {
        self.msg_id = self.msg_id + 1;
        self.msg_id
    }
}

impl Message {
    /// Requests take a fresh message id for their reply; replies take none.
    pub open spec fn uses_id(self) -> bool {
        self.body is Init || self.body is Generate
    }

    /// Whether handling this message takes a fresh message id.
    pub fn needs_id(&self) -> (r: bool)
        ensures
            r == self.uses_id(),
    {
        match &self.body {
            Body::Init(_) | Body::Generate(_) => true,
            _ => false,
        }
    }

    /// The reply to this message if it is a request; each reply takes a fresh
    /// message id, and a generated id is the node's name and that message id.
    pub fn prepare_reply(&self, node: &mut Node) -> (r: Option<Message>)
        requires
            self.uses_id() ==> old(node).msg_id < u64::MAX,
        ensures
            final(node).node_id == old(node).node_id,
            match self.body {
                Body::Init(b) => {
                    &&& final(node).msg_id == old(node).msg_id + 1
                    &&& r == Some(
                        Message {
                            src: self.dest,
                            dest: self.src,
                            body: Body::InitOk(InitOk { msg_id: final(node).msg_id, in_reply_to: b.msg_id }),
                        },
                    )
                },
                Body::Generate(b) => {
                    &&& final(node).msg_id == old(node).msg_id + 1
                    &&& r is Some
                    &&& r->0.src == self.dest
                    &&& r->0.dest == self.src
                    &&& match r->0.body {
                        Body::GenerateOk(o) => {
                            &&& o.msg_id == final(node).msg_id
                            &&& o.in_reply_to == b.msg_id
                            &&& o.id@ == generated_id(old(node).node_id@, final(node).msg_id)
                        },
                        _ => false,
                    }
                },
                _ => final(node).msg_id == old(node).msg_id && r is None,
            },
    {
        let body = match &self.body {
            Body::Init(b) => {
                let id = node.incremented_msg_id();
                Body::InitOk(InitOk { msg_id: id, in_reply_to: b.msg_id })
            },
            Body::Generate(b) => {
                let id = node.incremented_msg_id();
                let text = format_id(&node.node_id, id);
                Body::GenerateOk(GenerateOk { msg_id: id, in_reply_to: b.msg_id, id: text })
            },
            Body::InitOk(_) | Body::GenerateOk(_) => {
                return None;
            },
        };
        Some(Message { src: self.dest.clone(), dest: self.src.clone(), body })
    }
}

} // verus!
