use vstd::prelude::*;
use crate::message::{answers, is_reply_to, Body, Message, NodeError, REPLY_MSG_ID};
use crate::node::Node;

verus! {

/// The bodies of the echo workload.
#[derive(Debug, Clone)]
pub enum EchoBody {
    Echo { echo: String },
    EchoOk { echo: String },
}

/// A stateless node that answers each `echo` with the same text.
pub struct EchoNode {
    id: String,
}

impl EchoNode {
    pub closed spec fn node_id(self) -> Seq<char> {
        self.id@
    }
}

/// The kind of the answer to an echo body: the text, marked as answered.
pub open spec fn echo_answer(kind: EchoBody) -> EchoBody {
    match kind {
        EchoBody::Echo { echo } => EchoBody::EchoOk { echo },
        EchoBody::EchoOk { echo } => EchoBody::EchoOk { echo },
    }
}

impl Node<EchoBody> for EchoNode {
    open spec fn inv(&self) -> bool {
        true
    }

    fn new(id: String, node_ids: Vec<String>) -> (r: Self)
        ensures
            r.node_id() == id@,
    {
        EchoNode { id }
    }

    /// Answers with the text that came in.
    fn handle(&mut self, message: Message<EchoBody>) -> (r: Result<Vec<Message<EchoBody>>, NodeError>)
        ensures
            r matches Ok(out) && out@.len() == 1 && is_reply_to(out@[0], message, echo_answer(message.body.kind)),
    {
        let mut response = message.into_response();
        let kind = match response.body.kind {
            EchoBody::Echo { echo } => EchoBody::EchoOk { echo },
            EchoBody::EchoOk { echo } => EchoBody::EchoOk { echo },
        };
        response.body.kind = kind;
        let mut out = Vec::new();
        out.push(response);
        Ok(out)
    }

    /// An echo node sends nothing unprompted.
    fn gossip(&mut self) -> (r: Vec<Message<EchoBody>>)
        ensures
            r@.len() == 0,
    {
        Vec::new()
    }
}

/// The handshake payload of the standalone echo server.
#[derive(Debug, Clone)]
pub struct Init {
    pub node_id: String,
    pub node_ids: Vec<String>,
}

/// The bodies that the standalone echo server knows: handshake and echo alike.
#[derive(Debug, Clone)]
pub enum Kind {
    Init(Init),
    InitOk,
    Echo { echo: String },
    EchoOk { echo: String },
}

/// Whether the standalone echo server answers a body of this kind.
pub open spec fn is_request(kind: Kind) -> bool {
    kind is Init || kind is Echo
}

/// Whether the standalone echo server answers `kind`.
pub fn is_request_kind(kind: &Kind) -> (r: bool)
    ensures
        r == is_request(*kind),
{
    match kind {
        Kind::Init(_) => true,
        Kind::Echo { .. } => true,
        _ => false,
    }
}

impl Kind {
    /// The answer to a request: `init_ok` for `init`, the same text for `echo`.
    pub fn into_response(self) -> (r: Kind)
        requires
            is_request(self),
        ensures
            match self {
                Kind::Init(_) => r is InitOk,
                Kind::Echo { echo } => r == (Kind::EchoOk { echo }),
                _ => false,
            },
    {
        match self {
            Kind::Init(_) => Kind::InitOk,
            Kind::Echo { echo } => Kind::EchoOk { echo },
            // The two answers below are ruled out by the precondition.
            Kind::InitOk => Kind::InitOk,
            Kind::EchoOk { echo } => Kind::EchoOk { echo },
        }
    }
}

/// The standalone echo server's whole answer to one request.
pub fn respond(message: Message<Kind>) -> (r: Message<Kind>)
    requires
        is_request(message.body.kind),
    ensures
        answers(r, message),
        match message.body.kind {
            Kind::Init(_) => r.body.kind is InitOk,
            Kind::Echo { echo } => r.body.kind == (Kind::EchoOk { echo }),
            _ => false,
        },
{
    let Message { src, dst, body } = message;
    Message {
        src: dst,
        dst: src,
        body: Body { msg_id: Some(REPLY_MSG_ID), in_reply_to: body.msg_id, kind: body.kind.into_response() },
    }
}

} // verus!
