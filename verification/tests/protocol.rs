use yap::error::ProtocolError;
use yap::identity::Identity;
use yap::packet::Packet;

fn s(text: &str) -> String {
    text.to_string()
}

#[test]
fn identity_packet_encodes_with_type_byte_and_length() {
    let packet = Packet::identity(s("alice")).unwrap();
    assert_eq!(
        packet.encode().unwrap(),
        vec![1, 0, 0, 0, 5, b'a', b'l', b'i', b'c', b'e']
    );
}

#[test]
fn direct_packet_roundtrip() {
    let packet = Packet::direct(s("alice"), s("bob"), s("hi bob")).unwrap();
    let bytes = packet.encode().unwrap();
    assert_eq!(bytes[0], 2);
    assert_eq!(Packet::decode(&bytes).unwrap(), packet);
}

#[test]
fn chat_packet_roundtrip_with_unicode() {
    let packet = Packet::chat(s("zoë"), s("héllo 👋 世界")).unwrap();
    let bytes = packet.encode().unwrap();
    assert_eq!(bytes[0], 3);
    // "zoë" is four bytes of UTF-8.
    assert_eq!(&bytes[1..5], &[0, 0, 0, 4]);
    assert_eq!(Packet::decode(&bytes).unwrap(), packet);
}

#[test]
fn decode_ignores_trailing_bytes() {
    let packet = Packet::chat(s("a"), s("b")).unwrap();
    let mut bytes = packet.encode().unwrap();
    bytes.extend_from_slice(&[9, 9, 9]);
    assert_eq!(Packet::decode(&bytes).unwrap(), packet);
}

#[test]
fn decode_empty_is_too_short() {
    assert_eq!(Packet::decode(&[]), Err(ProtocolError::TooShort));
}

#[test]
fn decode_unknown_type() {
    assert_eq!(
        Packet::decode(&[7, 0, 0, 0, 0]),
        Err(ProtocolError::UnknownPacketType(7))
    );
    assert_eq!(Packet::decode(&[0]), Err(ProtocolError::UnknownPacketType(0)));
}

#[test]
fn decode_truncated_length_and_body() {
    assert_eq!(Packet::decode(&[1, 0, 0]), Err(ProtocolError::TooShort));
    assert_eq!(Packet::decode(&[1, 0, 0, 0, 3, b'a']), Err(ProtocolError::TooShort));
    // The second field of a chat packet is missing.
    assert_eq!(Packet::decode(&[3, 0, 0, 0, 1, b'a']), Err(ProtocolError::TooShort));
}

#[test]
fn decode_invalid_utf8() {
    assert_eq!(
        Packet::decode(&[1, 0, 0, 0, 2, 0xC3, 0x28]),
        Err(ProtocolError::InvalidUtf8)
    );
}

#[test]
fn empty_fields_are_allowed_in_packets() {
    let packet = Packet::chat(s(""), s("")).unwrap();
    let bytes = packet.encode().unwrap();
    assert_eq!(bytes, vec![3, 0, 0, 0, 0, 0, 0, 0, 0]);
    assert_eq!(Packet::decode(&bytes).unwrap(), packet);
}

#[test]
fn identity_new_rejects_empty() {
    assert_eq!(Identity::new(s("")), Err(ProtocolError::FieldTooLarge));
}

#[test]
fn identity_new_rejects_too_long() {
    let long = "x".repeat(65536);
    assert_eq!(Identity::new(long), Err(ProtocolError::FieldTooLarge));
    let limit = "x".repeat(65535);
    assert!(Identity::new(limit).is_ok());
}

#[test]
fn identity_encode_layout() {
    let id = Identity::new(s("bob")).unwrap();
    assert_eq!(id.encode().unwrap(), vec![0, 3, b'b', b'o', b'b']);
}

#[test]
fn identity_encode_too_long_field() {
    let id = Identity { username: "y".repeat(70000) };
    assert_eq!(id.encode(), Err(ProtocolError::FieldTooLarge));
}

#[test]
fn identity_roundtrip() {
    let id = Identity::new(s("ünïcødé")).unwrap();
    let mut bytes = id.encode().unwrap();
    bytes.push(42);
    assert_eq!(Identity::decode(&bytes).unwrap(), id);
}

#[test]
fn identity_decode_errors() {
    assert_eq!(Identity::decode(&[0]), Err(ProtocolError::TooShort));
    assert_eq!(Identity::decode(&[0, 2, b'a']), Err(ProtocolError::TooShort));
    assert_eq!(Identity::decode(&[0, 1, 0xFF]), Err(ProtocolError::InvalidUtf8));
    // A zero-length name is read, then refused.
    assert_eq!(Identity::decode(&[0, 0]), Err(ProtocolError::FieldTooLarge));
}
