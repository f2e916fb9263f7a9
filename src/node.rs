use vstd::prelude::*;
use crate::message::{Message, NodeError};

verus! {

/// A node kind driven by the runtime: built from the handshake, fed each
/// inbound message, and asked on every timer tick for its unsolicited sends.
pub trait Node<NodeMessage>: Sized {
    /// The well-formedness of the state, which every step keeps.
    spec fn inv(&self) -> bool;

    /// The node's state right after the handshake.
    fn new(id: String, node_ids: Vec<String>) -> (r: Self)
        ensures
            r.inv(),
    ;

    /// Handles one inbound message and returns the envelopes to send.
    fn handle(&mut self, message: Message<NodeMessage>) -> (r: Result<Vec<Message<NodeMessage>>, NodeError>)
        requires
            old(self).inv(),
        ensures
            final(self).inv(),
    ;

    /// Returns the envelopes to push on a timer tick.
    fn gossip(&mut self) -> (r: Vec<Message<NodeMessage>>)
        requires
            old(self).inv(),
        ensures
            final(self).inv(),
    ;
}

} // verus!
