use yap::chat::Chat;
use yap::core_error::CoreError;
use yap::events::{direct_to, disconnect_peer};
use yap::events::{announced_username, not_connected, receive_json, report_packet, IncomingMessage};
use yap::json;
use yap::packet::Packet;
use yap::peer::PeerInfo;
use yap::peer_manager::{Peer, PeerManager};

fn s(text: &str) -> String {
    text.to_string()
}

fn peer(name: &str, address: &str, connection: u32) -> Peer<u32> {
    Peer { username: s(name), address: s(address), connection }
}

#[test]
fn chat_add_replace_remove() {
    let mut chat = Chat::new();
    assert!(chat.peers().is_empty());
    chat.add_peer(s("bob"), s("1.1.1.1:1"));
    chat.add_peer(s("alice"), s("2.2.2.2:2"));
    chat.add_peer(s("bob"), s("3.3.3.3:3"));
    let mut all: Vec<(String, String)> =
        chat.peers().into_iter().map(|p| (p.username, p.address)).collect();
    all.sort();
    assert_eq!(all, vec![(s("alice"), s("2.2.2.2:2")), (s("bob"), s("3.3.3.3:3"))]);
    chat.remove_peer("bob");
    chat.remove_peer("nobody");
    let names: Vec<String> = chat.peers().into_iter().map(|p| p.username).collect();
    assert_eq!(names, vec![s("alice")]);
}

#[test]
fn peer_info_new() {
    let info = PeerInfo::new(s("bob"), s("10.0.0.1:7331"));
    assert_eq!(info.username, "bob");
    assert_eq!(info.address, "10.0.0.1:7331");
}

#[test]
fn manager_add_refuses_duplicates() {
    let mut peers = PeerManager::new();
    assert!(peers.add(peer("bob", "a", 1)).is_ok());
    assert_eq!(peers.add(peer("bob", "b", 2)), Err(CoreError::PeerAlreadyExists(s("bob"))));
    assert_eq!(peers.get("bob").unwrap().connection, 1);
    assert!(peers.get("carol").is_none());
}

#[test]
fn manager_insert_replaces() {
    let mut peers = PeerManager::new();
    peers.insert(peer("bob", "a", 1));
    peers.insert(peer("bob", "b", 2));
    assert_eq!(peers.all().len(), 1);
    assert_eq!(peers.get("bob").unwrap().address, "b");
}

#[test]
fn manager_remove() {
    let mut peers = PeerManager::new();
    peers.insert(peer("bob", "a", 1));
    assert_eq!(peers.remove("bob").unwrap().connection, 1);
    assert!(peers.remove("bob").is_none());
    assert!(peers.names().is_empty());
}

#[test]
fn manager_names_are_sorted() {
    let mut peers = PeerManager::new();
    for (i, name) in ["mallory", "Bob", "alice", "zoë", "carol", "Älva", "bob"].iter().enumerate() {
        peers.insert(peer(name, "x", i as u32));
    }
    let mut expected: Vec<String> = ["mallory", "Bob", "alice", "zoë", "carol", "Älva", "bob"]
        .iter()
        .map(|n| s(n))
        .collect();
    expected.sort();
    assert_eq!(peers.names(), expected);
}

#[test]
fn report_packets() {
    match report_packet(Packet::chat(s("a"), s("hi")).unwrap()) {
        Some(IncomingMessage::Chat { from, message }) => {
            assert_eq!((from, message), (s("a"), s("hi")));
        }
        other => panic!("unexpected {other:?}"),
    }
    assert!(report_packet(Packet::identity(s("a")).unwrap()).is_none());
}

#[test]
fn announced_username_from_identity_only() {
    assert_eq!(announced_username(Packet::identity(s("bob")).unwrap()), Ok(s("bob")));
    assert_eq!(
        announced_username(Packet::chat(s("bob"), s("hi")).unwrap()),
        Err(CoreError::ConnectionClosed)
    );
}

#[test]
fn receive_json_hello_records_peer() {
    let mut peers: PeerManager<u32> = PeerManager::new();
    let event = receive_json(&mut peers, json::Packet::Hello { username: s("bob") }, 7, s("1.2.3.4:5"));
    match event {
        IncomingMessage::PeerConnected { username, address } => {
            assert_eq!((username, address), (s("bob"), s("1.2.3.4:5")));
        }
        other => panic!("unexpected {other:?}"),
    }
    assert_eq!(peers.get("bob").unwrap().connection, 7);
    let event = receive_json(
        &mut peers,
        json::Packet::Direct { from: s("bob"), to: s("me"), message: s("yo") },
        8,
        s("1.2.3.4:5"),
    );
    assert!(matches!(event, IncomingMessage::Direct { .. }));
    assert_eq!(peers.get("bob").unwrap().connection, 7);
}

#[test]
fn not_connected_message() {
    assert_eq!(not_connected("bob"), "Peer 'bob' is not connected.");
}

#[test]
fn chat_peer_count_follows_names() {
    let mut chat = Chat::new();
    chat.add_peer(s("a"), s("1"));
    chat.add_peer(s("b"), s("2"));
    assert_eq!(chat.peers().len(), 2);
    chat.add_peer(s("a"), s("3"));
    assert_eq!(chat.peers().len(), 2);
}

#[test]
fn disconnect_peer_and_direct_to() {
    let mut peers: PeerManager<u32> = PeerManager::new();
    peers.insert(peer("bob", "a", 5));
    match direct_to(&peers, s("me"), "bob", "hi") {
        Ok((p, json::Packet::Direct { from, to, message })) => {
            assert_eq!(p.connection, 5);
            assert_eq!((from, to, message), (s("me"), s("bob"), s("hi")));
        }
        other => panic!("unexpected {:?}", other.map(|(p, q)| (p.connection, q))),
    }
    assert_eq!(disconnect_peer(&mut peers, "bob").unwrap().connection, 5);
    assert_eq!(disconnect_peer(&mut peers, "bob").unwrap_err(), "Peer 'bob' is not connected.");
    assert_eq!(
        direct_to(&peers, s("me"), "bob", "hi").map(|(p, _)| p.connection).unwrap_err(),
        "Peer 'bob' is not connected."
    );
}
