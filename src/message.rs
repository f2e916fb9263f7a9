use vstd::prelude::*;

verus! {

/// The body of an envelope: a typed payload with optional correlation ids.
#[derive(Debug, Clone)]
pub struct Body<Kind> {
    pub kind: Kind,
    /// Assigned by the sender, so that a reply can name it.
    pub msg_id: Option<usize>,
    /// The `msg_id` of the message this one answers.
    pub in_reply_to: Option<usize>,
}

/// An envelope travelling between two nodes (or a node and a client).
#[derive(Debug, Clone)]
pub struct Message<BodyKind> {
    pub src: String,
    pub dst: String,
    pub body: Body<BodyKind>,
}

/// The handshake bodies.
#[derive(Debug, Clone)]
pub enum InitBody {
    Init { node_id: String, node_ids: Vec<String> },
    InitOk,
}

/// Failures that end a node's run.
#[derive(Debug, Clone, Copy, PartialEq, Eq, Structural)]
pub enum NodeError {
    /// The first message was not `init`, or a topology names a node outside the cluster.
    ProtocolViolation,
    /// A gossip exchange names a peer that is not a member of the cluster.
    UnroutableNeighbor,
}

/// The outbound id that every reply of this node carries.
pub const REPLY_MSG_ID: usize = 0;

/// `r` is addressed as an answer to `m`: endpoints swapped, correlated to `m`'s id.
pub open spec fn answers<K>(r: Message<K>, m: Message<K>) -> bool {
    &&& r.src@ == m.dst@
    &&& r.dst@ == m.src@
    &&& r.body.msg_id == Some(REPLY_MSG_ID)
    &&& r.body.in_reply_to == m.body.msg_id
}

/// `r` answers `m` and carries `kind`.
pub open spec fn is_reply_to<K>(r: Message<K>, m: Message<K>, kind: K) -> bool {
    &&& answers(r, m)
    &&& r.body.kind == kind
}

impl<BodyKind> Message<BodyKind> {
    /// The reply skeleton for this message: source and destination swapped,
    /// `in_reply_to` set to this message's id, the body kind carried over.
    pub fn into_response(self) -> (r: Message<BodyKind>)
        ensures
            is_reply_to(r, self, self.body.kind),
            r.src == self.dst,
            r.dst == self.src,
    {
        Message {
            src: self.dst,
            dst: self.src,
            body: Body { msg_id: Some(REPLY_MSG_ID), in_reply_to: self.body.msg_id, kind: self.body.kind },
        }
    }
}

/// What the handshake hands to the runtime: this node's id, the cluster's
/// members, and the `init_ok` reply to send.
pub struct Handshake {
    pub node_id: String,
    pub node_ids: Vec<String>,
    pub reply: Message<InitBody>,
}

/// Decides the handshake on the first message of a run: an `init` is answered
/// with `init_ok`, anything else is a protocol violation.
pub fn accept_init(first: Message<InitBody>) -> (r: Result<Handshake, NodeError>)
    ensures
        match first.body.kind {
            InitBody::Init { node_id, node_ids } => r matches Ok(h) && h.node_id == node_id
                && h.node_ids == node_ids && is_reply_to(h.reply, first, InitBody::InitOk),
            InitBody::InitOk => r == Err::<Handshake, NodeError>(NodeError::ProtocolViolation),
        },
{
    let Message { src, dst, body } = first;
    match body.kind {
        InitBody::Init { node_id, node_ids } => {
            let reply = Message {
                src: dst,
                dst: src,
                body: Body { msg_id: Some(REPLY_MSG_ID), in_reply_to: body.msg_id, kind: InitBody::InitOk },
            };
            Ok(Handshake { node_id, node_ids, reply })
        },
        InitBody::InitOk => Err(NodeError::ProtocolViolation),
    }
}

} // verus!
