//! The set of peers a chat knows, keyed by username.
use vstd::prelude::*;

use crate::registry::{
    keyed_map, lemma_keyed_map_len, lemma_keyed_map_push, lemma_keyed_map_remove,
    lemma_keyed_map_update, unique_keys,
};

verus! {

/// A peer of a chat: its username and the address it was reached at.
#[derive(Debug, Clone)]
pub struct Peer {
    pub username: String,
    pub address: String,
}

/// Each peer as a (username, address) entry.
pub open spec fn peer_entries(s: Seq<Peer>) -> Seq<(Seq<char>, Seq<char>)> {
    s.map_values(|p: Peer| (p.username@, p.address@))
}

/// The peers of a chat; at most one per username.
pub struct Chat {
    peers: Vec<Peer>,
}

impl View for Chat {
    /// Each username the chat knows, with the address of its peer.
    type V = Map<Seq<char>, Seq<char>>;

    closed spec fn view(&self) -> Map<Seq<char>, Seq<char>> {
        keyed_map(peer_entries(self.peers@))
    }
}

impl Chat {
    #[verifier::type_invariant]
    spec fn usernames_distinct(&self) -> bool {
        unique_keys(peer_entries(self.peers@))
    }

    /// Where the peer named `username` stands, if the chat has one.
    fn position(&self, username: &String) -> (r: Option<usize>)
        ensures
            match r {
                Some(i) => i < self.peers@.len() && self.peers@[i as int].username@ == username@,
                None => forall|i: int|
                    0 <= i < self.peers@.len() ==> self.peers@[i].username@ != username@,
            },
    {
        let mut i: usize = 0;
        while i < self.peers.len()
            invariant
                i <= self.peers@.len(),
                forall|k: int| 0 <= k < i ==> self.peers@[k].username@ != username@,
            decreases self.peers@.len() - i,
        {
            if self.peers[i].username == *username {
                return Some(i);
            }
            i = i + 1;
        }
        None
    }

    /// A chat without peers.
    pub fn new() -> (chat: Self)
        ensures
            chat@ == Map::<Seq<char>, Seq<char>>::empty(),
    {
        let chat = Chat { peers: Vec::new() };
        assert(chat@ =~= Map::<Seq<char>, Seq<char>>::empty());
        chat
    }

    /// Records the peer `username` at `address`, replacing an earlier peer of
    /// that name.
    pub fn add_peer(&mut self, username: String, address: String)
        ensures
            final(self)@ == old(self)@.insert(username@, address@),
    {
        proof {
            use_type_invariant(&*self);
        }
        let ghost old_entries = peer_entries(self.peers@);
        let peer = Peer { username: username.clone(), address };
        match self.position(&username) {
            Some(i) => {
                proof {
                    lemma_keyed_map_update(old_entries, i as int, peer.address@);
                    assert(peer_entries(self.peers@.update(i as int, peer)) =~= old_entries.update(
                        i as int,
                        (old_entries[i as int].0, peer.address@),
                    ));
                }
                let mut peers: Vec<Peer> = Vec::new();
                std::mem::swap(&mut peers, &mut self.peers);
                peers.set(i, peer);
                self.peers = peers;
            },
            None => {
                proof {
                    lemma_keyed_map_push(old_entries, username@, peer.address@);
                    assert(peer_entries(self.peers@.push(peer)) =~= old_entries.push(
                        (username@, peer.address@),
                    ));
                }
                let mut peers: Vec<Peer> = Vec::new();
                std::mem::swap(&mut peers, &mut self.peers);
                peers.push(peer);
                self.peers = peers;
            },
        }
    }

    /// Forgets the peer `username`, if the chat has one.
    pub fn remove_peer(&mut self, username: &str)
        ensures
            final(self)@ == old(self)@.remove(username@),
    {
        proof {
            use_type_invariant(&*self);
        }
        let ghost old_entries = peer_entries(self.peers@);
        let name = username.to_owned();
        match self.position(&name) {
            Some(i) => {
                proof {
                    lemma_keyed_map_remove(old_entries, i as int);
                    assert(peer_entries(self.peers@.remove(i as int)) =~= old_entries.remove(
                        i as int,
                    ));
                }
                let mut peers: Vec<Peer> = Vec::new();
                std::mem::swap(&mut peers, &mut self.peers);
                peers.remove(i);
                self.peers = peers;
            },
            None => {
                proof {
                    assert(!keyed_map(old_entries).contains_key(username@));
                    assert(keyed_map(old_entries).remove(username@) =~= keyed_map(old_entries));
                }
            },
        }
    }

    /// Every peer of the chat, one per username, in no particular order.
    pub fn peers(&self) -> (all: Vec<Peer>)
        ensures
            unique_keys(peer_entries(all@)),
            keyed_map(peer_entries(all@)) == self@,
            self@.dom().finite(),
            all@.len() == self@.dom().len(),
    {
        proof {
            use_type_invariant(self);
            lemma_keyed_map_len(peer_entries(self.peers@));
        }
        let mut all: Vec<Peer> = Vec::new();
        let mut i: usize = 0;
        while i < self.peers.len()
            invariant
                i <= self.peers@.len(),
                peer_entries(all@) == peer_entries(self.peers@).take(i as int),
            decreases self.peers@.len() - i,
        {
            let p = &self.peers[i];
            let copy = Peer { username: p.username.clone(), address: p.address.clone() };
            assert(copy.username@ == p.username@ && copy.address@ == p.address@);
            let ghost before = all@;
            all.push(copy);
            assert(peer_entries(all@) =~= peer_entries(before).push(
                (p.username@, p.address@),
            ));
            i = i + 1;
            assert(peer_entries(all@) =~= peer_entries(self.peers@).take(i as int));
        }
        assert(peer_entries(self.peers@).take(i as int) =~= peer_entries(self.peers@));
        all
    }
}


/// Adding a peer and removing it again leaves the chat as it was without
/// that username.
pub proof fn law_add_then_remove(
    peers: Map<Seq<char>, Seq<char>>,
    username: Seq<char>,
    address: Seq<char>,
)
    ensures
        peers.insert(username, address).remove(username) == peers.remove(username),
{
    assert(peers.insert(username, address).remove(username) =~= peers.remove(username));
}

/// Adding a peer twice keeps only the later address.
pub proof fn law_add_replaces(
    peers: Map<Seq<char>, Seq<char>>,
    username: Seq<char>,
    first: Seq<char>,
    second: Seq<char>,
)
    ensures
        peers.insert(username, first).insert(username, second) == peers.insert(username, second),
{
    assert(peers.insert(username, first).insert(username, second) =~= peers.insert(
        username,
        second,
    ));
}


/// Adding a peer grows the number of peers by one exactly when its username
/// was new.
pub proof fn law_add_peer_count(
    peers: Map<Seq<char>, Seq<char>>,
    username: Seq<char>,
    address: Seq<char>,
)
    requires
        peers.dom().finite(),
    ensures
        peers.insert(username, address).dom().len() == peers.dom().len() + (if peers.contains_key(
            username,
        ) {
            0int
        } else {
            1int
        }),
{
    if peers.contains_key(username) {
        assert(peers.insert(username, address).dom() =~= peers.dom());
    } else {
        assert(peers.insert(username, address).dom() =~= peers.dom().insert(username));
    }
}

} // verus!
