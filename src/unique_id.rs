use vstd::prelude::*;
use crate::message::{is_reply_to, Message, NodeError};
use crate::node::Node;

verus! {

/// The bodies of the unique-id workload.
#[derive(Debug, Clone)]
pub enum UniqueIdBody {
    Generate,
    GenerateOk { id: String },
}

/// A node that hands out fresh identifiers.
pub struct UniqueIdNode {
    id: String,
}

impl UniqueIdNode {
    pub closed spec fn node_id(self) -> Seq<char> {
        self.id@
    }
}

/// The length of an identifier in its text form.
pub const ID_LEN: usize = 26;

/// Relies on `ulid::Ulid::new` and `Ulid::to_string`: an id drawn from the
/// clock and the thread's random source, written as 26 base-32 ASCII
/// characters (`ulid::ULID_LEN`). Nothing is promised of which id comes out.
/// The random source panics only where the operating system cannot seed it.
#[verifier::external_body]
fn fresh_id() -> (r: String)
    ensures
        r@.len() == ID_LEN,
{
    ulid::Ulid::new().to_string()
}

/// The kind of the answer to a unique-id body, given a fresh id.
pub open spec fn generate_answer(kind: UniqueIdBody, fresh: String) -> UniqueIdBody {
    match kind {
        UniqueIdBody::Generate => UniqueIdBody::GenerateOk { id: fresh },
        UniqueIdBody::GenerateOk { id } => UniqueIdBody::GenerateOk { id },
    }
}

/// Answers `message` with `fresh` as the generated id.
pub fn answer_with(message: Message<UniqueIdBody>, fresh: String) -> (r: Message<UniqueIdBody>)
    ensures
        is_reply_to(r, message, generate_answer(message.body.kind, fresh)),
{
    let mut response = message.into_response();
    let kind = match response.body.kind {
        UniqueIdBody::Generate => UniqueIdBody::GenerateOk { id: fresh },
        UniqueIdBody::GenerateOk { id } => UniqueIdBody::GenerateOk { id },
    };
    response.body.kind = kind;
    response
}

impl Node<UniqueIdBody> for UniqueIdNode {
    open spec fn inv(&self) -> bool {
        true
    }

    fn new(id: String, node_ids: Vec<String>) -> (r: Self)
        ensures
            r.node_id() == id@,
    {
        UniqueIdNode { id }
    }

    /// Answers a `generate` with a fresh id of the full length.
    fn handle(&mut self, message: Message<UniqueIdBody>) -> (r: Result<Vec<Message<UniqueIdBody>>, NodeError>)
        ensures
            r matches Ok(out) && out@.len() == 1 && exists|fresh: String|
                fresh@.len() == ID_LEN && #[trigger] is_reply_to(
                    out@[0],
                    message,
                    generate_answer(message.body.kind, fresh),
                ),
    {
        let fresh = fresh_id();
        let ghost drawn = fresh;
        let response = answer_with(message, fresh);
        let mut out = Vec::new();
        out.push(response);
        assert(is_reply_to(out@[0], message, generate_answer(message.body.kind, drawn)));
        Ok(out)
    }

    /// A unique-id node sends nothing unprompted.
    fn gossip(&mut self) -> (r: Vec<Message<UniqueIdBody>>)
        ensures
            r@.len() == 0,
    {
        Vec::new()
    }
}

} // verus!
