use yap::core_error::CoreError;
use yap::error::ProtocolError;
use yap::events::IncomingMessage;
use yap::node::{admit_peer, frame_packet, peer_left, prepare_direct, take_peer};
use yap::packet::Packet;
use yap::peer_manager::PeerManager;

fn s(text: &str) -> String {
    text.to_string()
}

#[test]
fn admit_then_refuse_duplicate() {
    let mut peers: PeerManager<u8> = PeerManager::new();
    match admit_peer(&mut peers, s("bob"), s("1.1.1.1:1"), 1) {
        Ok(IncomingMessage::PeerConnected { username, address }) => {
            assert_eq!((username, address), (s("bob"), s("1.1.1.1:1")));
        }
        other => panic!("unexpected {other:?}"),
    }
    match admit_peer(&mut peers, s("bob"), s("2.2.2.2:2"), 2) {
        Err(e) => assert_eq!(e, CoreError::PeerAlreadyExists(s("bob"))),
        Ok(other) => panic!("unexpected {other:?}"),
    }
    assert_eq!(peers.get("bob").unwrap().connection, 1);
}

#[test]
fn peer_left_drops_and_reports() {
    let mut peers: PeerManager<u8> = PeerManager::new();
    let _ = admit_peer(&mut peers, s("bob"), s("a"), 1);
    match peer_left(&mut peers, s("bob")) {
        IncomingMessage::PeerDisconnected { username } => assert_eq!(username, "bob"),
        other => panic!("unexpected {other:?}"),
    }
    assert!(peers.get("bob").is_none());
}

#[test]
fn take_peer_found_and_missing() {
    let mut peers: PeerManager<u8> = PeerManager::new();
    let _ = admit_peer(&mut peers, s("bob"), s("a"), 3);
    assert_eq!(take_peer(&mut peers, "bob").unwrap().connection, 3);
    match take_peer(&mut peers, "bob") {
        Err(e) => assert_eq!(e, CoreError::PeerNotFound(s("bob"))),
        Ok(_) => panic!("bob was already taken"),
    }
}

#[test]
fn prepare_direct_cases() {
    let mut peers: PeerManager<u8> = PeerManager::new();
    match prepare_direct(&peers, s("me"), "bob", "hi") {
        Err(e) => assert_eq!(e, CoreError::PeerNotFound(s("bob"))),
        Ok(_) => panic!("bob is not connected"),
    }
    let _ = admit_peer(&mut peers, s("bob"), s("a"), 4);
    let (peer, packet) = prepare_direct(&peers, s("me"), "bob", "hi").unwrap();
    assert_eq!(peer.connection, 4);
    assert_eq!(packet, Packet::Direct { from: s("me"), to: s("bob"), message: s("hi") });
    assert_eq!(
        CoreError::from(ProtocolError::InvalidUtf8),
        CoreError::Protocol(ProtocolError::InvalidUtf8)
    );
}

#[test]
fn frame_packet_prefixes_length() {
    let packet = Packet::chat(s("a"), s("hi")).unwrap();
    let framed = frame_packet(&packet).unwrap();
    let encoded = packet.encode().unwrap();
    assert_eq!(&framed[..4], &(encoded.len() as u32).to_be_bytes());
    assert_eq!(&framed[4..], &encoded[..]);
    assert_eq!(Packet::decode(&framed[4..]).unwrap(), packet);
}
