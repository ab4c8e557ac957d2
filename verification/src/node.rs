//! What a node decides about its peers between network operations: who is
//! admitted after the identity exchange, who is dropped, and what may be sent.
use vstd::prelude::*;

use crate::core_error::CoreError;
use crate::error::ProtocolError;
use crate::events::IncomingMessage;
use crate::packet::{decode_packet, law_decode_encode, text_fits, Packet, SpecPacket};
use crate::peer_manager::{Peer, PeerManager};
use crate::wire::{be32_bytes, be32_value, lemma_be32_roundtrip, u32_to_be};

verus! {

/// Admits the peer that announced `username` from `address` once the
/// identity exchange is done: refused with `PeerAlreadyExists` when a peer of
/// that name is connected (the peers are then left as they were), else
/// recorded and reported connected.
pub fn admit_peer<C>(
    peers: &mut PeerManager<C>,
    username: String,
    address: String,
    connection: C,
) -> (r: Result<IncomingMessage, CoreError>)
    ensures
        old(peers)@.contains_key(username@) ==> {
            &&& r == Err::<IncomingMessage, CoreError>(CoreError::PeerAlreadyExists(username))
            &&& final(peers)@ == old(peers)@
        },
        !old(peers)@.contains_key(username@) ==> {
            &&& r == Ok::<IncomingMessage, CoreError>(
                IncomingMessage::PeerConnected { username, address },
            )
            &&& final(peers)@ == old(peers)@.insert(
                username@,
                Peer { username, address, connection },
            )
        },
{
    let peer = Peer { username: username.clone(), address: address.clone(), connection };
    match peers.add(peer) {
        Ok(()) => Ok(IncomingMessage::PeerConnected { username, address }),
        Err(e) => Err(e),
    }
}

/// Drops the peer `username` when its connection ends, and reports it gone.
pub fn peer_left<C>(peers: &mut PeerManager<C>, username: String) -> (event: IncomingMessage)
    ensures
        final(peers)@ == old(peers)@.remove(username@),
        event == (IncomingMessage::PeerDisconnected { username }),
{
    let _ = peers.remove(username.as_str());
    IncomingMessage::PeerDisconnected { username }
}

/// Takes out the peer `username` to disconnect it; `PeerNotFound` when no
/// such peer is connected.
pub fn take_peer<C>(peers: &mut PeerManager<C>, username: &str) -> (r: Result<Peer<C>, CoreError>)
    ensures
        final(peers)@ == old(peers)@.remove(username@),
        match r {
            Ok(p) => old(peers)@.contains_key(username@) && p == old(peers)@[username@],
            Err(e) => !old(peers)@.contains_key(username@) && (e matches CoreError::PeerNotFound(
                name,
            ) && name@ == username@),
        },
{
    match peers.remove(username) {
        Some(p) => Ok(p),
        None => Err(CoreError::PeerNotFound(username.to_owned())),
    }
}


/// What sending `message` from `from` to the peer `username` takes: the
/// peer and the direct packet for it; `PeerNotFound` when no such peer is
/// connected, else a protocol error when a field does not fit the format.
pub fn prepare_direct<'a, C>(
    peers: &'a PeerManager<C>,
    from: String,
    username: &str,
    message: &str,
) -> (r: Result<(&'a Peer<C>, Packet), CoreError>)
    ensures
        !peers@.contains_key(username@) ==> (r matches Err(CoreError::PeerNotFound(name))
            && name@ == username@),
        peers@.contains_key(username@) && !(text_fits(from@) && text_fits(username@) && text_fits(
            message@,
        )) ==> r == Err::<(&'a Peer<C>, Packet), CoreError>(
            CoreError::Protocol(ProtocolError::FieldTooLarge),
        ),
        peers@.contains_key(username@) && text_fits(from@) && text_fits(username@) && text_fits(
            message@,
        ) ==> (r matches Ok((peer, packet)) && *peer == peers@[username@] && packet@
            == SpecPacket::Direct { from: from@, to: username@, message: message@ }),
{
    let peer = match peers.get(username) {
        Some(peer) => peer,
        None => return Err(CoreError::PeerNotFound(username.to_owned())),
    };
    match Packet::direct(from, username.to_owned(), message.to_owned()) {
        Ok(packet) => Ok((peer, packet)),
        Err(e) => Err(CoreError::Protocol(e)),
    }
}


/// A packet framed for a stream: the length of its encoding as four
/// big-endian bytes (taken modulo 2^32, as a `u32` holds it), then the
/// encoding; a protocol error when a field does not fit the format.
pub fn frame_packet(packet: &Packet) -> (r: Result<Vec<u8>, CoreError>)
    ensures
        packet@.encodable() ==> (r matches Ok(bytes) && bytes@ == be32_bytes(
            (packet@.wire().len() % 0x1_0000_0000) as u32,
        ) + packet@.wire()),
        !packet@.encodable() ==> r == Err::<Vec<u8>, CoreError>(
            CoreError::Protocol(ProtocolError::FieldTooLarge),
        ),
{
    let data = match packet.encode() {
        Ok(data) => data,
        Err(e) => return Err(CoreError::Protocol(e)),
    };
    let length = ((data.len() as u64) % 0x1_0000_0000u64) as u32;
    let prefix = u32_to_be(length);
    let mut framed: Vec<u8> = Vec::new();
    let mut i: usize = 0;
    while i < 4
        invariant
            i <= 4,
            framed@ == prefix@.take(i as int),
        decreases 4 - i,
    {
        framed.push(prefix[i]);
        i = i + 1;
        assert(framed@ =~= prefix@.take(i as int));
    }
    let mut j: usize = 0;
    while j < data.len()
        invariant
            j <= data@.len(),
            framed@ == prefix@ + data@.take(j as int),
        decreases data@.len() - j,
    {
        framed.push(data[j]);
        j = j + 1;
        assert(framed@ =~= prefix@ + data@.take(j as int));
    }
    assert(prefix@.take(4) =~= prefix@);
    assert(data@.take(data@.len() as int) =~= data@);
    Ok(framed)
}


/// The receiving side of a frame gets the packet back: past the four-byte
/// prefix the frame decodes to the packet, and for a packet of at most
/// `u32::MAX` bytes the prefix is its length.
#[verifier::rlimit(60)]
pub proof fn law_frame_roundtrip(p: SpecPacket)
    requires
        p.encodable(),
    ensures
        ({
            let frame = be32_bytes((p.wire().len() % 0x1_0000_0000) as u32) + p.wire();
            &&& decode_packet(frame.skip(4)) == Ok::<SpecPacket, ProtocolError>(p)
            &&& p.wire().len() <= u32::MAX ==> be32_value(frame.take(4)) == p.wire().len()
        }),
{
    let w = p.wire();
    let n = (w.len() % 0x1_0000_0000) as u32;
    let frame = be32_bytes(n) + w;
    assert(decode_packet(frame.skip(4)) == Ok::<SpecPacket, ProtocolError>(p)) by {
        law_decode_encode(p, Seq::empty());
        assert(frame.skip(4) =~= w + Seq::<u8>::empty());
    }
    assert(w.len() <= u32::MAX ==> be32_value(frame.take(4)) == w.len()) by {
        lemma_be32_roundtrip(n);
        assert(frame.take(4) =~= be32_bytes(n));
    }
}

} // verus!
