//! The binary packet format: a type byte followed by length-prefixed UTF-8
//! text fields.
use vstd::prelude::*;
use vstd::slice::slice_subrange;
use vstd::utf8::*;

use crate::error::ProtocolError;
use crate::wire::{be32_bytes, be32_value, lemma_be32_roundtrip, lemma_be32_value_roundtrip, u32_from_be, u32_to_be, utf8_len, utf8_text};

verus! {

broadcast use vstd::utf8::group_utf8_lib;

/// The largest number of bytes a text field may hold: its length must fit the
/// four-byte prefix.
const MAX_TEXT_LENGTH: usize = 0xFFFF_FFFF;

/// The kind of a packet, carried in its first byte.
#[derive(Debug, Clone, Copy, PartialEq, Eq, Structural)]
pub enum PacketType {
    Identity,
    Direct,
    Chat,
}

/// The byte that announces each packet type.
pub open spec fn type_byte(t: PacketType) -> u8 {
    match t {
        PacketType::Identity => 1,
        PacketType::Direct => 2,
        PacketType::Chat => 3,
    }
}

impl PacketType {
    /// The packet type announced by `value`, if any.
    fn from_u8(value: u8) -> (r: Result<Self, ProtocolError>)
        ensures
            match r {
                Ok(t) => type_byte(t) == value,
                Err(e) => e == ProtocolError::UnknownPacketType(value) && value != 1 && value
                    != 2 && value != 3,
            },
    {
        match value {
            1 => Ok(PacketType::Identity),
            2 => Ok(PacketType::Direct),
            3 => Ok(PacketType::Chat),
            other => Err(ProtocolError::UnknownPacketType(other)),
        }
    }

    /// The byte that announces this packet type.
    fn to_u8(self) -> (b: u8)
        ensures
            b == type_byte(self),
    {
        match self {
            PacketType::Identity => 1,
            PacketType::Direct => 2,
            PacketType::Chat => 3,
        }
    }
}

/// A packet exchanged between peers.
#[derive(Debug, Clone, PartialEq, Eq)]
pub enum Packet {
    /// Announces the sender's username.
    Identity { username: String },
    /// A message for one peer.
    Direct { from: String, to: String, message: String },
    /// A message for every connected peer.
    Chat { from: String, message: String },
}

/// The mathematical content of a [`Packet`]: its text fields as characters.
pub enum SpecPacket {
    Identity { username: Seq<char> },
    Direct { from: Seq<char>, to: Seq<char>, message: Seq<char> },
    Chat { from: Seq<char>, message: Seq<char> },
}

impl View for Packet {
    type V = SpecPacket;

    open spec fn view(&self) -> SpecPacket {
        match self {
            Packet::Identity { username } => SpecPacket::Identity { username: username@ },
            Packet::Direct { from, to, message } => SpecPacket::Direct {
                from: from@,
                to: to@,
                message: message@,
            },
            Packet::Chat { from, message } => SpecPacket::Chat { from: from@, message: message@ },
        }
    }
}

/// A text field fits the format when its UTF-8 encoding has at most
/// `u32::MAX` bytes.
pub open spec fn text_fits(s: Seq<char>) -> bool {
    encode_utf8(s).len() <= u32::MAX
}

/// A text field on the wire: the byte length of its UTF-8 encoding as four
/// big-endian bytes, then the encoding itself.
pub open spec fn text_field(s: Seq<char>) -> Seq<u8> {
    be32_bytes(encode_utf8(s).len() as u32) + encode_utf8(s)
}

impl SpecPacket {
    /// Every text field of the packet fits the format.
    pub open spec fn encodable(self) -> bool {
        match self {
            SpecPacket::Identity { username } => text_fits(username),
            SpecPacket::Direct { from, to, message } => text_fits(from) && text_fits(to)
                && text_fits(message),
            SpecPacket::Chat { from, message } => text_fits(from) && text_fits(message),
        }
    }

    /// The packet on the wire: its type byte, then each text field in order.
    pub open spec fn wire(self) -> Seq<u8> {
        match self {
            SpecPacket::Identity { username } => seq![1u8] + text_field(username),
            SpecPacket::Direct { from, to, message } => seq![2u8] + text_field(from) + text_field(
                to,
            ) + text_field(message),
            SpecPacket::Chat { from, message } => seq![3u8] + text_field(from) + text_field(
                message,
            ),
        }
    }
}

/// Reads the text field that starts at `pos` in `data`: its text and the
/// position just after it, or why it cannot be read.
pub open spec fn read_text(data: Seq<u8>, pos: int) -> Result<(Seq<char>, int), ProtocolError> {
    if data.len() - pos < 4 {
        Err(ProtocolError::TooShort)
    } else {
        let len = be32_value(data.subrange(pos, pos + 4));
        let start = pos + 4;
        if data.len() - start < len {
            Err(ProtocolError::TooShort)
        } else {
            let bytes = data.subrange(start, start + len);
            if valid_utf8(bytes) {
                Ok((decode_utf8(bytes), start + len))
            } else {
                Err(ProtocolError::InvalidUtf8)
            }
        }
    }
}

/// What decoding `data` gives: the packet that its leading bytes hold (bytes
/// after the packet are ignored), or the first reason it cannot be read.
pub open spec fn decode_packet(data: Seq<u8>) -> Result<SpecPacket, ProtocolError> {
    if data.len() == 0 {
        Err(ProtocolError::TooShort)
    } else if data[0] == 1 {
        match read_text(data, 1) {
            Err(e) => Err(e),
            Ok((username, _)) => Ok(SpecPacket::Identity { username }),
        }
    } else if data[0] == 2 {
        match read_text(data, 1) {
            Err(e) => Err(e),
            Ok((from, p1)) => match read_text(data, p1) {
                Err(e) => Err(e),
                Ok((to, p2)) => match read_text(data, p2) {
                    Err(e) => Err(e),
                    Ok((message, _)) => Ok(SpecPacket::Direct { from, to, message }),
                },
            },
        }
    } else if data[0] == 3 {
        match read_text(data, 1) {
            Err(e) => Err(e),
            Ok((from, p1)) => match read_text(data, p1) {
                Err(e) => Err(e),
                Ok((message, _)) => Ok(SpecPacket::Chat { from, message }),
            },
        }
    } else {
        Err(ProtocolError::UnknownPacketType(data[0]))
    }
}

/// A packet result taken by its view.
pub open spec fn packet_result_view(r: Result<Packet, ProtocolError>) -> Result<
    SpecPacket,
    ProtocolError,
> {
    match r {
        Ok(p) => Ok(p@),
        Err(e) => Err(e),
    }
}

/// Checks that a text field fits the format.
fn validate_text(value: &str) -> (r: Result<(), ProtocolError>)
    ensures
        r is Ok <==> text_fits(value@),
        r matches Err(e) ==> e == ProtocolError::FieldTooLarge,
{
    if utf8_len(value) > MAX_TEXT_LENGTH {
        return Err(ProtocolError::FieldTooLarge);
    }
    Ok(())
}

/// Appends the text field for `value` to `output`.
fn write_string(output: &mut Vec<u8>, value: &str) -> (r: Result<(), ProtocolError>)
    ensures
        match r {
            Ok(()) => text_fits(value@) && final(output)@ == old(output)@ + text_field(value@),
            Err(e) => !text_fits(value@) && e == ProtocolError::FieldTooLarge && final(output)@
                == old(output)@,
        },
{
    validate_text(value)?;
    let bytes = value.as_bytes();
    let length = bytes.len() as u32;
    let prefix = u32_to_be(length);
    let ghost before = output@;
    let mut i: usize = 0;
    while i < 4
        invariant
            i <= 4,
            output@ == before + prefix@.take(i as int),
        decreases 4 - i,
    {
        output.push(prefix[i]);
        i = i + 1;
        assert(output@ =~= before + prefix@.take(i as int));
    }
    let ghost mid = output@;
    let mut j: usize = 0;
    while j < bytes.len()
        invariant
            j <= bytes@.len(),
            output@ == mid + bytes@.take(j as int),
        decreases bytes@.len() - j,
    {
        output.push(bytes[j]);
        j = j + 1;
        assert(output@ =~= mid + bytes@.take(j as int));
    }
    assert(prefix@.take(4) =~= prefix@);
    assert(bytes@.take(bytes@.len() as int) =~= bytes@);
    assert(output@ =~= before + text_field(value@));
    Ok(())
}

/// Reads the text field at `*cursor` and moves the cursor past it.
fn read_string(data: &[u8], cursor: &mut usize) -> (r: Result<String, ProtocolError>)
    requires
        *old(cursor) <= data@.len(),
    ensures
        match read_text(data@, *old(cursor) as int) {
            Ok((text, next)) => r matches Ok(s) && s@ == text && *final(cursor) == next,
            Err(e) => r == Err::<String, ProtocolError>(e),
        },
        data@.len() - *old(cursor) < 4 ==> *final(cursor) == *old(cursor),
        data@.len() - *old(cursor) >= 4 && r is Err ==> *final(cursor) == *old(cursor) + 4,
        *final(cursor) <= data@.len(),
{
    let pos = *cursor;
    if data.len() - pos < 4 {
        return Err(ProtocolError::TooShort);
    }
    let length = u32_from_be([data[pos], data[pos + 1], data[pos + 2], data[pos + 3]]) as usize;
    assert(data@.subrange(pos as int, pos + 4) =~= seq![
        data@[pos as int],
        data@[pos + 1],
        data@[pos + 2],
        data@[pos + 3],
    ]);
    *cursor = pos + 4;
    if data.len() - *cursor < length {
        return Err(ProtocolError::TooShort);
    }
    let start = *cursor;
    let bytes = slice_subrange(data, start, start + length);
    match utf8_text(bytes) {
        Some(text) => {
            let value = text.to_owned();
            *cursor = start + length;
            Ok(value)
        },
        None => Err(ProtocolError::InvalidUtf8),
    }
}

/// A text field written at `pos` reads back as the same text, ending where
/// the field ends.
proof fn lemma_read_text_field(data: Seq<u8>, pos: int, s: Seq<char>)
    requires
        text_fits(s),
        0 <= pos,
        pos + text_field(s).len() <= data.len(),
        data.subrange(pos, pos + text_field(s).len()) == text_field(s),
    ensures
        read_text(data, pos) == Ok::<(Seq<char>, int), ProtocolError>(
            (s, pos + text_field(s).len()),
        ),
{
    let enc = encode_utf8(s);
    let n = enc.len() as u32;
    lemma_be32_roundtrip(n);
    let tf = text_field(s);
    assert(data.subrange(pos, pos + 4) =~= tf.subrange(0, 4));
    assert(tf.subrange(0, 4) =~= be32_bytes(n));
    assert(data.subrange(pos + 4, pos + 4 + enc.len()) =~= tf.subrange(4, tf.len() as int));
    assert(tf.subrange(4, tf.len() as int) =~= enc);
}

/// A text field that reads successfully is exactly the field of its text.
proof fn lemma_read_text_inverse(data: Seq<u8>, pos: int)
    requires
        0 <= pos <= data.len(),
        read_text(data, pos) is Ok,
    ensures
        ({
            let (s, next) = read_text(data, pos)->Ok_0;
            &&& text_fits(s)
            &&& next == pos + text_field(s).len()
            &&& next <= data.len()
            &&& data.subrange(pos, next) == text_field(s)
        }),
{
    let head = data.subrange(pos, pos + 4);
    lemma_be32_value_roundtrip(head);
    let len = be32_value(head);
    let bytes = data.subrange(pos + 4, pos + 4 + len);
    let s = decode_utf8(bytes);
    assert(encode_utf8(s) == bytes);
    assert(data.subrange(pos, pos + 4 + len) =~= head + bytes);
}

/// Decoding the wire form of a packet gives the packet back, whatever bytes
/// follow it.
pub proof fn law_decode_encode(p: SpecPacket, rest: Seq<u8>)
    requires
        p.encodable(),
    ensures
        decode_packet(p.wire() + rest) == Ok::<SpecPacket, ProtocolError>(p),
{
    let data = p.wire() + rest;
    match p {
        SpecPacket::Identity { username } => {
            let t0 = text_field(username);
            assert(data.subrange(1, 1 + t0.len() as int) =~= t0);
            lemma_read_text_field(data, 1, username);
        },
        SpecPacket::Direct { from, to, message } => {
            let (t0, t1, t2) = (text_field(from), text_field(to), text_field(message));
            let p1: int = 1 + t0.len() as int;
            let p2: int = p1 + t1.len();
            assert(data.subrange(1, p1) =~= t0);
            assert(data.subrange(p1, p2) =~= t1);
            assert(data.subrange(p2, p2 + t2.len() as int) =~= t2);
            lemma_read_text_field(data, 1, from);
            lemma_read_text_field(data, p1, to);
            lemma_read_text_field(data, p2, message);
        },
        SpecPacket::Chat { from, message } => {
            let (t0, t1) = (text_field(from), text_field(message));
            let p1: int = 1 + t0.len() as int;
            assert(data.subrange(1, p1) =~= t0);
            assert(data.subrange(p1, p1 + t1.len() as int) =~= t1);
            lemma_read_text_field(data, 1, from);
            lemma_read_text_field(data, p1, message);
        },
    }
}

/// A successful decode only accepts the wire form of the decoded packet:
/// the packet is encodable and its wire form is the start of the input.
pub proof fn law_encode_decode(data: Seq<u8>)
    requires
        decode_packet(data) is Ok,
    ensures
        ({
            let p = decode_packet(data)->Ok_0;
            &&& p.encodable()
            &&& p.wire().len() <= data.len()
            &&& data.subrange(0, p.wire().len() as int) == p.wire()
        }),
{
    let p = decode_packet(data)->Ok_0;
    lemma_read_text_inverse(data, 1);
    let (a, p1) = read_text(data, 1)->Ok_0;
    if data[0] == 1 {
        assert(data.subrange(0, p.wire().len() as int) =~= seq![data[0]] + data.subrange(1, p1));
    } else if data[0] == 2 {
        lemma_read_text_inverse(data, p1);
        let (b, p2) = read_text(data, p1)->Ok_0;
        lemma_read_text_inverse(data, p2);
        let (c, p3) = read_text(data, p2)->Ok_0;
        assert(data.subrange(0, p3) =~= seq![data[0]] + data.subrange(1, p1) + data.subrange(
            p1,
            p2,
        ) + data.subrange(p2, p3));
    } else {
        lemma_read_text_inverse(data, p1);
        let (b, p2) = read_text(data, p1)->Ok_0;
        assert(data.subrange(0, p2) =~= seq![data[0]] + data.subrange(1, p1) + data.subrange(
            p1,
            p2,
        ));
    }
}

impl Packet {
    /// An identity packet announcing `username`; fails when the name is too
    /// large for the format.
    pub fn identity(username: String) -> (r: Result<Self, ProtocolError>)
        ensures
            packet_result_view(r) == (if text_fits(username@) {
                Ok(SpecPacket::Identity { username: username@ })
            } else {
                Err(ProtocolError::FieldTooLarge)
            }),
    {
        validate_text(username.as_str())?;
        Ok(Packet::Identity { username })
    }

    /// A direct message from `from` to `to`; fails when a field is too large
    /// for the format.
    pub fn direct(from: String, to: String, message: String) -> (r: Result<Self, ProtocolError>)
        ensures
            packet_result_view(r) == (if text_fits(from@) && text_fits(to@) && text_fits(
                message@,
            ) {
                Ok(SpecPacket::Direct { from: from@, to: to@, message: message@ })
            } else {
                Err(ProtocolError::FieldTooLarge)
            }),
    {
        validate_text(from.as_str())?;
        validate_text(to.as_str())?;
        validate_text(message.as_str())?;
        Ok(Packet::Direct { from, to, message })
    }

    /// A chat message from `from` for every peer; fails when a field is too
    /// large for the format.
    pub fn chat(from: String, message: String) -> (r: Result<Self, ProtocolError>)
        ensures
            packet_result_view(r) == (if text_fits(from@) && text_fits(message@) {
                Ok(SpecPacket::Chat { from: from@, message: message@ })
            } else {
                Err(ProtocolError::FieldTooLarge)
            }),
    {
        validate_text(from.as_str())?;
        validate_text(message.as_str())?;
        Ok(Packet::Chat { from, message })
    }

    /// The packet's bytes on the wire, or `FieldTooLarge` when a field does
    /// not fit the format.
    pub fn encode(&self) -> (r: Result<Vec<u8>, ProtocolError>)
        ensures
            match r {
                Ok(bytes) => self@.encodable() && bytes@ == self@.wire(),
                Err(e) => !self@.encodable() && e == ProtocolError::FieldTooLarge,
            },
    {
        let mut output: Vec<u8> = Vec::new();
        match self {
            Packet::Identity { username } => {
                output.push(PacketType::Identity.to_u8());
                write_string(&mut output, username.as_str())?;
            },
            Packet::Direct { from, to, message } => {
                output.push(PacketType::Direct.to_u8());
                write_string(&mut output, from.as_str())?;
                write_string(&mut output, to.as_str())?;
                write_string(&mut output, message.as_str())?;
            },
            Packet::Chat { from, message } => {
                output.push(PacketType::Chat.to_u8());
                write_string(&mut output, from.as_str())?;
                write_string(&mut output, message.as_str())?;
            },
        }
        assert(output@ =~= self@.wire());
        Ok(output)
    }

    /// Reads the packet at the start of `data`; bytes after it are ignored.
    pub fn decode(data: &[u8]) -> (r: Result<Self, ProtocolError>)
        ensures
            packet_result_view(r) == decode_packet(data@),
    {
        if data.len() == 0 {
            return Err(ProtocolError::TooShort);
        }
        let packet_type = PacketType::from_u8(data[0])?;
        let mut cursor: usize = 1;
        match packet_type {
            PacketType::Identity => {
                let username = read_string(data, &mut cursor)?;
                Ok(Packet::Identity { username })
            },
            PacketType::Direct => {
                let from = read_string(data, &mut cursor)?;
                let to = read_string(data, &mut cursor)?;
                let message = read_string(data, &mut cursor)?;
                Ok(Packet::Direct { from, to, message })
            },
            PacketType::Chat => {
                let from = read_string(data, &mut cursor)?;
                let message = read_string(data, &mut cursor)?;
                Ok(Packet::Chat { from, message })
            },
        }
    }
}

} // verus!
