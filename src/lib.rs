//! A node of a simulated cluster that accepts broadcast values and spreads
//! them to its peers by periodic anti-entropy gossip.
//!
//! The library holds the envelope model, the handshake decision and the
//! per-node state machines; reading and writing lines is left to the caller.

pub mod message;
mod values;
pub mod node;
pub mod broadcast;
pub mod laws;
pub mod echo;
pub mod unique_id;
