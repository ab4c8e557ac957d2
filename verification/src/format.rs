//! The binary wire format stated on its own terms: where each field of a
//! packet stands and how its length is written, and what a peer reads back
//! from bytes laid out that way.
use vstd::prelude::*;
use vstd::utf8::*;

use crate::error::ProtocolError;
use crate::packet::{decode_packet, read_text, text_field, text_fits, SpecPacket};
use crate::wire::{be32_bytes, be32_value, lemma_be32_roundtrip, lemma_be32_value_roundtrip};

verus! {

/// The largest number a four-byte length prefix can hold.
pub open spec fn max_field_len() -> int {
    0xFFFF_FFFF
}

/// At `pos`, `data` holds the field of the bytes `e`: four bytes, most
/// significant first, whose number is the length of `e`, then `e` itself.
pub open spec fn holds_field(data: Seq<u8>, pos: nat, e: Seq<u8>) -> bool {
    let h = data.subrange(pos as int, pos + 4 as int);
    &&& pos + 4 + e.len() <= data.len()
    &&& h[0] * 0x100_0000 + h[1] * 0x1_0000 + h[2] * 0x100 + h[3] == e.len()
    &&& data.subrange(pos + 4 as int, pos + 4 + e.len() as int) == e
}

/// Where a text field written by the format stands, its UTF-8 bytes are
/// held in the layout above.
proof fn lemma_text_field_holds(d: Seq<u8>, p: nat, s: Seq<char>)
    requires
        encode_utf8(s).len() <= max_field_len(),
        p + text_field(s).len() <= d.len(),
        d.subrange(p as int, p + text_field(s).len() as int) == text_field(s),
    ensures
        holds_field(d, p, encode_utf8(s)),
{
    let e = encode_utf8(s);
    let n = e.len() as u32;
    lemma_be32_roundtrip(n);
    let t = text_field(s);
    assert(d.subrange(p as int, p + 4 as int) =~= t.subrange(0, 4));
    assert(t.subrange(0, 4) =~= be32_bytes(n));
    assert(d.subrange(p + 4 as int, p + 4 + e.len() as int) =~= t.subrange(4, t.len() as int));
    assert(t.subrange(4, t.len() as int) =~= e);
}

/// Bytes laid out as a field of `s` read back as `s`, ending after it.
proof fn lemma_read_held_field(data: Seq<u8>, pos: nat, s: Seq<char>)
    requires
        holds_field(data, pos, encode_utf8(s)),
    ensures
        read_text(data, pos as int) == Ok::<(Seq<char>, int), ProtocolError>(
            (s, pos + 4 + encode_utf8(s).len() as int),
        ),
{
    broadcast use vstd::utf8::group_utf8_lib;

    let h = data.subrange(pos as int, pos + 4 as int);
    assert(be32_value(h) == encode_utf8(s).len());
}

/// A text field fits the format exactly when its UTF-8 encoding has at most
/// `u32::MAX` bytes, the most a four-byte length can say.
pub proof fn law_text_fits_limit(s: Seq<char>)
    ensures
        text_fits(s) <==> encode_utf8(s).len() <= max_field_len(),
{
}

/// An identity packet on the wire: type byte 1, then the username's field.
pub proof fn law_identity_wire_layout(username: Seq<char>)
    requires
        encode_utf8(username).len() <= max_field_len(),
    ensures
        ({
            let p = SpecPacket::Identity { username };
            let w = p.wire();
            &&& p.encodable()
            &&& w.len() == 5 + encode_utf8(username).len()
            &&& w[0] == 1
            &&& holds_field(w, 1, encode_utf8(username))
        }),
{
    let w = SpecPacket::Identity { username }.wire();
    let t0 = text_field(username);
    assert(w.subrange(1, 1 + t0.len() as int) =~= t0);
    lemma_text_field_holds(w, 1, username);
}

/// A direct packet on the wire: type byte 2, then the fields of the sender,
/// the recipient and the message, in that order.
pub proof fn law_direct_wire_layout(from: Seq<char>, to: Seq<char>, message: Seq<char>)
    requires
        encode_utf8(from).len() <= max_field_len(),
        encode_utf8(to).len() <= max_field_len(),
        encode_utf8(message).len() <= max_field_len(),
    ensures
        ({
            let p = SpecPacket::Direct { from, to, message };
            let w = p.wire();
            let (a, b, c) = (encode_utf8(from), encode_utf8(to), encode_utf8(message));
            &&& p.encodable()
            &&& w.len() == 13 + a.len() + b.len() + c.len()
            &&& w[0] == 2
            &&& holds_field(w, 1, a)
            &&& holds_field(w, 5 + a.len(), b)
            &&& holds_field(w, 9 + a.len() + b.len(), c)
        }),
{
    let w = SpecPacket::Direct { from, to, message }.wire();
    let (t0, t1, t2) = (text_field(from), text_field(to), text_field(message));
    lemma_be32_roundtrip(encode_utf8(from).len() as u32);
    lemma_be32_roundtrip(encode_utf8(to).len() as u32);
    let p1 = 1 + t0.len();
    let p2 = p1 + t1.len();
    assert(w.subrange(1, p1 as int) =~= t0);
    assert(w.subrange(p1 as int, p2 as int) =~= t1);
    assert(w.subrange(p2 as int, p2 + t2.len() as int) =~= t2);
    lemma_text_field_holds(w, 1, from);
    lemma_text_field_holds(w, p1, to);
    lemma_text_field_holds(w, p2, message);
}

/// A chat packet on the wire: type byte 3, then the fields of the sender and
/// the message, in that order.
pub proof fn law_chat_wire_layout(from: Seq<char>, message: Seq<char>)
    requires
        encode_utf8(from).len() <= max_field_len(),
        encode_utf8(message).len() <= max_field_len(),
    ensures
        ({
            let p = SpecPacket::Chat { from, message };
            let w = p.wire();
            let (a, c) = (encode_utf8(from), encode_utf8(message));
            &&& p.encodable()
            &&& w.len() == 9 + a.len() + c.len()
            &&& w[0] == 3
            &&& holds_field(w, 1, a)
            &&& holds_field(w, 5 + a.len(), c)
        }),
{
    let w = SpecPacket::Chat { from, message }.wire();
    let (t0, t1) = (text_field(from), text_field(message));
    lemma_be32_roundtrip(encode_utf8(from).len() as u32);
    let p1 = 1 + t0.len();
    assert(w.subrange(1, p1 as int) =~= t0);
    assert(w.subrange(p1 as int, p1 + t1.len() as int) =~= t1);
    lemma_text_field_holds(w, 1, from);
    lemma_text_field_holds(w, p1, message);
}

/// Bytes that start with type byte 1 and a username's field decode to the
/// identity packet of that username, whatever follows.
pub proof fn law_decode_identity_layout(data: Seq<u8>, username: Seq<char>)
    requires
        data.len() > 0,
        data[0] == 1,
        holds_field(data, 1, encode_utf8(username)),
    ensures
        decode_packet(data) == Ok::<SpecPacket, ProtocolError>(SpecPacket::Identity { username }),
{
    lemma_read_held_field(data, 1, username);
}

/// Bytes that start with type byte 2 and the fields of a sender, a recipient
/// and a message decode to the direct packet from that sender to that
/// recipient, whatever follows.
pub proof fn law_decode_direct_layout(
    data: Seq<u8>,
    from: Seq<char>,
    to: Seq<char>,
    message: Seq<char>,
)
    requires
        data.len() > 0,
        data[0] == 2,
        holds_field(data, 1, encode_utf8(from)),
        holds_field(data, 5 + encode_utf8(from).len(), encode_utf8(to)),
        holds_field(
            data,
            9 + encode_utf8(from).len() + encode_utf8(to).len(),
            encode_utf8(message),
        ),
    ensures
        decode_packet(data) == Ok::<SpecPacket, ProtocolError>(
            SpecPacket::Direct { from, to, message },
        ),
{
    let a = encode_utf8(from).len();
    let b = encode_utf8(to).len();
    lemma_read_held_field(data, 1, from);
    lemma_read_held_field(data, 5 + a, to);
    lemma_read_held_field(data, 9 + a + b, message);
}

/// Bytes that start with type byte 3 and the fields of a sender and a
/// message decode to the chat packet from that sender, whatever follows.
pub proof fn law_decode_chat_layout(data: Seq<u8>, from: Seq<char>, message: Seq<char>)
    requires
        data.len() > 0,
        data[0] == 3,
        holds_field(data, 1, encode_utf8(from)),
        holds_field(data, 5 + encode_utf8(from).len(), encode_utf8(message)),
    ensures
        decode_packet(data) == Ok::<SpecPacket, ProtocolError>(SpecPacket::Chat { from, message }),
{
    let a = encode_utf8(from).len();
    lemma_read_held_field(data, 1, from);
    lemma_read_held_field(data, 5 + a, message);
}

} // verus!
