//! What a node reports to its user, and how it reacts to what peers send.
use vstd::prelude::*;

use crate::core_error::CoreError;
use crate::json;
use crate::packet::Packet;
use crate::peer_manager::{Peer, PeerManager};

verus! {

/// Something that happened on the network, for the user to see.
#[derive(Debug, Clone)]
pub enum IncomingMessage {
    Direct { from: String, to: String, message: String },
    Chat { from: String, message: String },
    PeerConnected { username: String, address: String },
    PeerDisconnected { username: String },
}

/// What a received packet is reported as: a direct or chat message as such;
/// an identity packet, valid only while connecting, as nothing.
pub fn report_packet(packet: Packet) -> (event: Option<IncomingMessage>)
    ensures
        match packet {
            Packet::Direct { from, to, message } => event matches Some(
                IncomingMessage::Direct { from: f, to: t, message: m },
            ) && f == from && t == to && m == message,
            Packet::Chat { from, message } => event matches Some(
                IncomingMessage::Chat { from: f, message: m },
            ) && f == from && m == message,
            Packet::Identity { .. } => event is None,
        },
{
    match packet {
        Packet::Direct { from, to, message } => Some(IncomingMessage::Direct { from, to, message }),
        Packet::Chat { from, message } => Some(IncomingMessage::Chat { from, message }),
        Packet::Identity { .. } => None,
    }
}

/// The username a peer announces in the first packet of a connection; any
/// other packet there breaks the protocol.
pub fn announced_username(packet: Packet) -> (r: Result<String, CoreError>)
    ensures
        match packet {
            Packet::Identity { username } => r == Ok::<String, CoreError>(username),
            _ => r == Err::<String, CoreError>(CoreError::ConnectionClosed),
        },
{
    match packet {
        Packet::Identity { username } => Ok(username),
        _ => Err(CoreError::ConnectionClosed),
    }
}

/// Reacts to a JSON packet received on `connection` from `address`: a hello
/// records the sender as a peer under its username (replacing an earlier
/// peer of that name) and reports it connected; a message is reported as
/// such and leaves the peers as they were.
pub fn receive_json<C>(
    peers: &mut PeerManager<C>,
    packet: json::Packet,
    connection: C,
    address: String,
) -> (event: IncomingMessage)
    ensures
        match packet {
            json::Packet::Hello { username } => {
                &&& final(peers)@ == old(peers)@.insert(
                    username@,
                    Peer { username, address, connection },
                )
                &&& event == IncomingMessage::PeerConnected { username, address }
            },
            json::Packet::Chat { from, message } => {
                &&& final(peers)@ == old(peers)@
                &&& event == IncomingMessage::Chat { from, message }
            },
            json::Packet::Direct { from, to, message } => {
                &&& final(peers)@ == old(peers)@
                &&& event == IncomingMessage::Direct { from, to, message }
            },
        },
{
    match packet {
        json::Packet::Hello { username } => {
            peers.insert(
                Peer { username: username.clone(), address: address.clone(), connection },
            );
            IncomingMessage::PeerConnected { username, address }
        },
        json::Packet::Chat { from, message } => IncomingMessage::Chat { from, message },
        json::Packet::Direct { from, to, message } => IncomingMessage::Direct { from, to, message },
    }
}

/// The error for a peer that is not connected:
/// `Peer '{username}' is not connected.`
pub fn not_connected(username: &str) -> (message: String)
    ensures
        message@ == "Peer '"@ + username@ + "' is not connected."@,
{
    let mut message = "Peer '".to_owned();
    message.append(username);
    message.append("' is not connected.");
    message
}


/// Takes out the peer `username` to disconnect it; when no such peer is
/// connected, the message `Peer '{username}' is not connected.`
pub fn disconnect_peer<C>(peers: &mut PeerManager<C>, username: &str) -> (r: Result<Peer<C>, String>)
    ensures
        final(peers)@ == old(peers)@.remove(username@),
        match r {
            Ok(p) => old(peers)@.contains_key(username@) && p == old(peers)@[username@],
            Err(m) => !old(peers)@.contains_key(username@) && m@ == "Peer '"@ + username@
                + "' is not connected."@,
        },
{
    match peers.remove(username) {
        Some(p) => Ok(p),
        None => Err(not_connected(username)),
    }
}

/// What sending `message` from `from` to the peer `target` takes: the peer
/// and the JSON direct packet for it; when no such peer is connected, the
/// message `Peer '{target}' is not connected.`
pub fn direct_to<'a, C>(
    peers: &'a PeerManager<C>,
    from: String,
    target: &str,
    message: &str,
) -> (r: Result<(&'a Peer<C>, json::Packet), String>)
    ensures
        match r {
            Ok((peer, packet)) => {
                &&& peers@.contains_key(target@)
                &&& *peer == peers@[target@]
                &&& packet matches json::Packet::Direct { from: f, to: t, message: m }
                &&& f == from && t@ == target@ && m@ == message@
            },
            Err(m) => !peers@.contains_key(target@) && m@ == "Peer '"@ + target@
                + "' is not connected."@,
        },
{
    match peers.get(target) {
        Some(peer) => Ok(
            (
                peer,
                json::Packet::Direct {
                    from,
                    to: target.to_owned(),
                    message: message.to_owned(),
                },
            ),
        ),
        None => Err(not_connected(target)),
    }
}

} // verus!
