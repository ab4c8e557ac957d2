//! The packets of the JSON wire form, exchanged one per stream.
use vstd::prelude::*;

verus! {

/// A packet of the JSON wire form.
#[derive(Debug, Clone)]
pub enum Packet {
    /// Announces the sender's username after connecting.
    Hello { username: String },
    /// A message for every connected peer.
    Chat { from: String, message: String },
    /// A message for one peer.
    Direct { from: String, to: String, message: String },
}

} // verus!
