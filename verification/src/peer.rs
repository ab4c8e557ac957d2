use vstd::prelude::*;

verus! {

/// What is known of a peer: its username and its address.
#[derive(Debug, Clone)]
pub struct PeerInfo {
    pub username: String,
    pub address: String,
}

impl PeerInfo {
    /// The peer `username` at `address`.
    pub fn new(username: String, address: String) -> (info: Self)
        ensures
            info.username@ == username@,
            info.address@ == address@,
    {
        PeerInfo { username, address }
    }
}

} // verus!
