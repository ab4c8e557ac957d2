//! The connected peers of a node, keyed by username, each with the handle of
//! its connection.
use vstd::prelude::*;

use crate::core_error::CoreError;
use crate::order::{lemma_lex_le_total, lemma_lex_le_transitive, text_le, text_le_exec};
use crate::registry::{
    has_key, keyed_map, lemma_keyed_map_entry, lemma_keyed_map_len, lemma_keyed_map_push,
    lemma_keyed_map_remove,
    lemma_keyed_map_update, unique_keys,
};

verus! {

/// A connected peer: its username, its address and the handle of its
/// connection.
#[derive(Debug, Clone)]
pub struct Peer<C> {
    pub username: String,
    pub address: String,
    pub connection: C,
}

/// Each peer as an entry under its username.
pub open spec fn connected_entries<C>(s: Seq<Peer<C>>) -> Seq<(Seq<char>, Peer<C>)> {
    s.map_values(|p: Peer<C>| (p.username@, p))
}

/// The names are in order and distinct.
pub open spec fn sorted_distinct(names: Seq<Seq<char>>) -> bool {
    &&& forall|i: int, j: int| 0 <= i < j < names.len() ==> text_le(names[i], names[j])
    &&& forall|i: int, j: int| 0 <= i < names.len() && 0 <= j < names.len() && i != j ==> names[i]
        != names[j]
}

/// Each string by its characters.
pub open spec fn string_views(s: Seq<String>) -> Seq<Seq<char>> {
    s.map_values(|x: String| x@)
}

/// `names` and `keys` hold the same names.
pub open spec fn same_names(names: Seq<Seq<char>>, keys: Seq<Seq<char>>) -> bool {
    &&& forall|a: int| 0 <= a < names.len() ==> #[trigger] keys.contains(names[a])
    &&& forall|m: int| 0 <= m < keys.len() ==> #[trigger] names.contains(keys[m])
}

/// Inserting the next key anywhere keeps the names those of the keys seen so
/// far, and the next key is new among them.
proof fn lemma_name_step(view: Seq<Seq<char>>, keys: Seq<Seq<char>>, k: int, p: int)
    requires
        0 <= k < keys.len(),
        view.len() == k,
        0 <= p <= k,
        forall|i: int, j: int| 0 <= i < keys.len() && 0 <= j < keys.len() && i != j ==> keys[i] != keys[j],
        same_names(view, keys.take(k)),
    ensures
        forall|a: int| 0 <= a < view.len() ==> view[a] != keys[k],
        same_names(view.insert(p, keys[k]), keys.take(k + 1)),
{
    let nv = view.insert(p, keys[k]);
    let t = keys.take(k + 1);
    assert forall|a: int| 0 <= a < view.len() implies view[a] != keys[k] by {
        assert(keys.take(k).contains(view[a]));
        let m = choose|m: int| 0 <= m < k && keys.take(k)[m] == view[a];
        assert(keys.take(k)[m] == keys[m]);
    }
    assert forall|a: int| 0 <= a < nv.len() implies #[trigger] t.contains(nv[a]) by {
        if a < p {
            assert(nv[a] == view[a]);
            assert(keys.take(k).contains(view[a]));
        let m = choose|m: int| 0 <= m < k && keys.take(k)[m] == view[a];
            assert(t[m] == keys.take(k)[m]);
        } else if a == p {
            assert(t[k] == nv[a]);
        } else {
            assert(nv[a] == view[a - 1]);
            assert(keys.take(k).contains(view[a - 1]));
            let m = choose|m: int| 0 <= m < k && keys.take(k)[m] == view[a - 1];
            assert(t[m] == keys.take(k)[m]);
        }
    }
    assert forall|m: int| 0 <= m < t.len() implies #[trigger] nv.contains(t[m]) by {
        if m == k {
            assert(nv[p] == t[m]);
        } else {
            assert(t[m] == keys.take(k)[m]);
            assert(view.contains(keys.take(k)[m]));
            let a = choose|a: int| 0 <= a < view.len() && view[a] == keys.take(k)[m];
            if a < p {
                assert(nv[a] == view[a]);
            } else {
                assert(nv[a + 1] == view[a]);
            }
        }
    }
}

/// The connected peers; at most one per username.
pub struct PeerManager<C> {
    peers: Vec<Peer<C>>,
}

impl<C> View for PeerManager<C> {
    /// Each username with its peer.
    type V = Map<Seq<char>, Peer<C>>;

    closed spec fn view(&self) -> Map<Seq<char>, Peer<C>> {
        keyed_map(connected_entries(self.peers@))
    }
}

/// Inserting `x` where it is no earlier than what precedes it and no later
/// than what follows keeps a sorted sequence sorted.
proof fn lemma_sorted_insert(s: Seq<Seq<char>>, p: int, x: Seq<char>)
    requires
        forall|i: int, j: int| 0 <= i < j < s.len() ==> text_le(s[i], s[j]),
        0 <= p <= s.len(),
        p == 0 || text_le(s[p - 1], x),
        forall|q: int| p <= q < s.len() ==> text_le(x, #[trigger] s[q]),
    ensures
        forall|i: int, j: int|
            0 <= i < j < s.len() + 1 ==> text_le(s.insert(p, x)[i], s.insert(p, x)[j]),
{
    let t = s.insert(p, x);
    assert forall|i: int, j: int| 0 <= i < j < s.len() + 1 implies text_le(t[i], t[j]) by {
        if j < p {
            assert(t[i] == s[i] && t[j] == s[j]);
        } else if j == p {
            assert(t[j] == x && t[i] == s[i]);
            if i < p - 1 {
                assert(text_le(s[i], s[p - 1]));
                lemma_lex_le_transitive(
                    vstd::utf8::encode_utf8(s[i]),
                    vstd::utf8::encode_utf8(s[p - 1]),
                    vstd::utf8::encode_utf8(x),
                );
            }
        } else if i == p {
            assert(t[i] == x && t[j] == s[j - 1]);
        } else if i < p {
            assert(t[i] == s[i] && t[j] == s[j - 1]);
        } else {
            assert(t[i] == s[i - 1] && t[j] == s[j - 1]);
        }
    }
}

impl<C> PeerManager<C> {
    #[verifier::type_invariant]
    spec fn usernames_distinct(&self) -> bool {
        unique_keys(connected_entries(self.peers@))
    }

    /// Where the peer named `username` stands, if there is one.
    fn position(&self, username: &String) -> (r: Option<usize>)
        ensures
            match r {
                Some(i) => i < self.peers@.len() && self.peers@[i as int].username@ == username@,
                None => forall|i: int|
                    0 <= i < self.peers@.len() ==> self.peers@[i].username@ != username@,
            },
    {
        let mut i: usize = 0;
        while i < self.peers.len()
            invariant
                i <= self.peers@.len(),
                forall|k: int| 0 <= k < i ==> self.peers@[k].username@ != username@,
            decreases self.peers@.len() - i,
        {
            if self.peers[i].username == *username {
                return Some(i);
            }
            i = i + 1;
        }
        None
    }

    /// A manager without peers.
    pub fn new() -> (m: Self)
        ensures
            m@ == Map::<Seq<char>, Peer<C>>::empty(),
    {
        let m = PeerManager { peers: Vec::new() };
        assert(m@ =~= Map::<Seq<char>, Peer<C>>::empty());
        m
    }

    /// Adds `peer`; refused with `PeerAlreadyExists` when a peer of that
    /// username is already there, which is then left as it was.
    pub fn add(&mut self, peer: Peer<C>) -> (r: Result<(), CoreError>)
        ensures
            old(self)@.contains_key(peer.username@) ==> r == Err::<(), CoreError>(
                CoreError::PeerAlreadyExists(peer.username),
            ) && final(self)@ == old(self)@,
            !old(self)@.contains_key(peer.username@) ==> r is Ok && final(self)@ == old(
                self,
            )@.insert(peer.username@, peer),
    {
        proof {
            use_type_invariant(&*self);
        }
        let ghost entries = connected_entries(self.peers@);
        match self.position(&peer.username) {
            Some(i) => {
                proof {
                    lemma_keyed_map_entry(entries, i as int);
                }
                Err(CoreError::PeerAlreadyExists(peer.username))
            },
            None => {
                proof {
                    lemma_keyed_map_push(entries, peer.username@, peer);
                    assert(connected_entries(self.peers@.push(peer)) =~= entries.push(
                        (peer.username@, peer),
                    ));
                }
                let mut peers: Vec<Peer<C>> = Vec::new();
                std::mem::swap(&mut peers, &mut self.peers);
                peers.push(peer);
                self.peers = peers;
                Ok(())
            },
        }
    }

    /// Puts `peer` under its username, replacing a peer of that name.
    pub fn insert(&mut self, peer: Peer<C>)
        ensures
            final(self)@ == old(self)@.insert(peer.username@, peer),
    {
        proof {
            use_type_invariant(&*self);
        }
        let ghost entries = connected_entries(self.peers@);
        match self.position(&peer.username) {
            Some(i) => {
                proof {
                    lemma_keyed_map_update(entries, i as int, peer);
                    assert(connected_entries(self.peers@.update(i as int, peer)) =~= entries.update(
                        i as int,
                        (entries[i as int].0, peer),
                    ));
                }
                let mut peers: Vec<Peer<C>> = Vec::new();
                std::mem::swap(&mut peers, &mut self.peers);
                peers.set(i, peer);
                self.peers = peers;
            },
            None => {
                proof {
                    lemma_keyed_map_push(entries, peer.username@, peer);
                    assert(connected_entries(self.peers@.push(peer)) =~= entries.push(
                        (peer.username@, peer),
                    ));
                }
                let mut peers: Vec<Peer<C>> = Vec::new();
                std::mem::swap(&mut peers, &mut self.peers);
                peers.push(peer);
                self.peers = peers;
            },
        }
    }

    /// Takes out the peer named `username`, if there is one.
    pub fn remove(&mut self, username: &str) -> (r: Option<Peer<C>>)
        ensures
            final(self)@ == old(self)@.remove(username@),
            match r {
                Some(p) => old(self)@.contains_key(username@) && p == old(self)@[username@],
                None => !old(self)@.contains_key(username@),
            },
    {
        proof {
            use_type_invariant(&*self);
        }
        let ghost entries = connected_entries(self.peers@);
        let name = username.to_owned();
        match self.position(&name) {
            Some(i) => {
                proof {
                    lemma_keyed_map_entry(entries, i as int);
                    lemma_keyed_map_remove(entries, i as int);
                    assert(connected_entries(self.peers@.remove(i as int)) =~= entries.remove(
                        i as int,
                    ));
                }
                let mut peers: Vec<Peer<C>> = Vec::new();
                std::mem::swap(&mut peers, &mut self.peers);
                let removed = peers.remove(i);
                self.peers = peers;
                Some(removed)
            },
            None => {
                proof {
                    assert(keyed_map(entries).remove(username@) =~= keyed_map(entries));
                }
                None
            },
        }
    }

    /// The peer named `username`, if there is one.
    pub fn get(&self, username: &str) -> (r: Option<&Peer<C>>)
        ensures
            match r {
                Some(p) => self@.contains_key(username@) && *p == self@[username@]
                    && p.username@ == username@,
                None => !self@.contains_key(username@),
            },
    {
        proof {
            use_type_invariant(self);
        }
        let name = username.to_owned();
        match self.position(&name) {
            Some(i) => {
                proof {
                    lemma_keyed_map_entry(connected_entries(self.peers@), i as int);
                }
                Some(&self.peers[i])
            },
            None => None,
        }
    }

    /// The usernames of all peers, each once, in the order of their UTF-8
    /// bytes.
    pub fn names(&self) -> (names: Vec<String>)
        ensures
            forall|i: int| 0 <= i < names@.len() ==> self@.contains_key(#[trigger] names@[i]@),
            forall|k: Seq<char>|
                self@.contains_key(k) ==> exists|i: int|
                    0 <= i < names@.len() && #[trigger] names@[i]@ == k,
            sorted_distinct(string_views(names@)),
    {
        proof {
            use_type_invariant(self);
        }
        let ghost entries = connected_entries(self.peers@);
        let ghost keys = entries.map_values(|e: (Seq<char>, Peer<C>)| e.0);
        let mut sorted: Vec<String> = Vec::new();
        let mut k: usize = 0;
        while k < self.peers.len()
            invariant
                entries == connected_entries(self.peers@),
                keys == entries.map_values(|e: (Seq<char>, Peer<C>)| e.0),
                unique_keys(entries),
                k <= self.peers@.len(),
                sorted@.len() == k,
                sorted_distinct(string_views(sorted@)),
                same_names(string_views(sorted@), keys.take(k as int)),
            decreases self.peers@.len() - k,
        {
            let x = self.peers[k].username.clone();
            let ghost view = string_views(sorted@);
            let mut p = sorted.len();
            while p > 0 && !text_le_exec(sorted[p - 1].as_str(), x.as_str())
                invariant
                    p <= sorted@.len(),
                    view == string_views(sorted@),
                    forall|q: int| p <= q < sorted@.len() ==> text_le(x@, #[trigger] view[q]),
                decreases p,
            {
                proof {
                    lemma_lex_le_total(
                        vstd::utf8::encode_utf8(view[p - 1]),
                        vstd::utf8::encode_utf8(x@),
                    );
                }
                p = p - 1;
            }
            proof {
                assert(keys[k as int] == x@);
                lemma_name_step(view, keys, k as int, p as int);
                lemma_sorted_insert(view, p as int, x@);
            }
            sorted.insert(p, x);
            assert(string_views(sorted@) =~= view.insert(p as int, x@));
            k = k + 1;
        }
        proof {
            assert(keys.take(k as int) =~= keys);
            let view = string_views(sorted@);
            assert forall|i: int| 0 <= i < sorted@.len() implies self@.contains_key(
                #[trigger] sorted@[i]@,
            ) by {
                assert(view[i] == sorted@[i]@);
                assert(keys.contains(view[i]));
                let m = choose|m: int| 0 <= m < keys.len() && keys[m] == view[i];
                lemma_keyed_map_entry(entries, m);
            }
            assert forall|key: Seq<char>| self@.contains_key(key) implies exists|i: int|
                0 <= i < sorted@.len() && #[trigger] sorted@[i]@ == key by {
                assert(has_key(entries, key));
                let m = choose|m: int| 0 <= m < entries.len() && entries[m].0 == key;
                assert(keys[m] == key);
                assert(view.contains(keys[m]));
                let a = choose|a: int| 0 <= a < view.len() && view[a] == keys[m];
                assert(sorted@[a]@ == view[a]);
            }
        }
        sorted
    }

    /// All peers, one per username, in no particular order.
    pub fn all(&self) -> (all: &[Peer<C>])
        ensures
            unique_keys(connected_entries(all@)),
            keyed_map(connected_entries(all@)) == self@,
            self@.dom().finite(),
            all@.len() == self@.dom().len(),
    {
        proof {
            use_type_invariant(self);
            lemma_keyed_map_len(connected_entries(self.peers@));
        }
        self.peers.as_slice()
    }
}

} // verus!
