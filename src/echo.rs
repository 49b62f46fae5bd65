use vstd::prelude::*;

verus! {

/// Asks the echo node to take its identity.
#[derive(Debug, PartialEq, Eq)]
pub struct Init {
    pub msg_id: u64,
    pub node_id: String,
    pub node_ids: Vec<String>,
}

#[derive(Debug, PartialEq, Eq)]
pub struct InitOk {
    pub msg_id: u64,
    pub in_reply_to: u64,
}

/// Text to be sent straight back.
#[derive(Debug, PartialEq, Eq)]
pub struct Echo {
    pub msg_id: u64,
    pub echo: String,
}

#[derive(Debug, PartialEq, Eq)]
pub struct EchoOk {
    pub msg_id: u64,
    pub in_reply_to: u64,
    pub echo: String,
}

#[derive(Debug, PartialEq, Eq)]
pub enum Body {
    Init(Init),
    InitOk(InitOk),
    Echo(Echo),
    EchoOk(EchoOk),
}

/// The envelope of the echo protocol.
#[derive(Debug, PartialEq, Eq)]
pub struct Message {
    pub src: String,
    pub dest: String,
    pub body: Body,
}

/// The reply to `m` under id `msg_id`; requests are answered, replies are not.
pub open spec fn echo_reply(m: Message, msg_id: u64) -> Option<Message> {
    match m.body {
        Body::Init(b) => Some(
            Message {
                src: m.dest,
                dest: m.src,
                body: Body::InitOk(InitOk { msg_id, in_reply_to: b.msg_id }),
            },
        ),
        Body::Echo(b) => Some(
            Message {
                src: m.dest,
                dest: m.src,
                body: Body::EchoOk(EchoOk { msg_id, in_reply_to: b.msg_id, echo: b.echo }),
            },
        ),
        _ => None,
    }
}

impl Message {
    /// The reply to this message, under id `msg_id`, if it is a request.
    pub fn prepare_reply(&self, msg_id: u64) -> (r: Option<Message>)
        ensures
            r == echo_reply(*self, msg_id),
    {
        let body = match &self.body {
            Body::Init(b) => Body::InitOk(InitOk { msg_id, in_reply_to: b.msg_id }),
            Body::Echo(b) => Body::EchoOk(
                EchoOk { msg_id, in_reply_to: b.msg_id, echo: b.echo.clone() },
            ),
            Body::InitOk(_) | Body::EchoOk(_) => {
                return None;
            },
        };
        Some(Message { src: self.dest.clone(), dest: self.src.clone(), body })
    }
}

/// The state of an echo node: its identity and its message counter.
pub struct EchoServer {
    pub node_id: String,
    pub msg_id: u64,
}

impl EchoServer {
    /// An echo node named `node_id` that has sent nothing yet.
    pub fn initialize(node_id: String) -> (r: EchoServer)
        ensures
            r.node_id == node_id,
            r.msg_id == 0,
    {
        EchoServer { node_id, msg_id: 0 }
    }

    /// Advances the message counter and returns its new value.
    pub fn incremented_msg_id(&mut self) -> (r: u64)
        requires
            old(self).msg_id < u64::MAX,
        ensures
            final(self).msg_id == old(self).msg_id + 1,
            final(self).node_id == old(self).node_id,
            r == final(self).msg_id,
    {
        self.msg_id = self.msg_id + 1;
        self.msg_id
    }
}

} // verus!
