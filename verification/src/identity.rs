//! A peer's identity on the wire: its username behind a two-byte length.
use vstd::prelude::*;
use vstd::slice::slice_subrange;
use vstd::utf8::*;

use crate::error::ProtocolError;
use crate::wire::{
    be16_bytes, be16_value, lemma_be16_roundtrip, lemma_be16_value_roundtrip, u16_from_be,
    u16_to_be, utf8_len, utf8_text,
};

verus! {

broadcast use vstd::utf8::group_utf8_lib;

/// A peer's identity: the username it goes by.
#[derive(Debug, Clone, PartialEq, Eq)]
pub struct Identity {
    pub username: String,
}

/// A username is acceptable when it is not empty and its UTF-8 encoding fits
/// the two-byte length prefix.
pub open spec fn valid_username(name: Seq<char>) -> bool {
    name.len() > 0 && encode_utf8(name).len() <= u16::MAX
}

/// An identity on the wire: the byte length of the username's UTF-8 encoding
/// as two big-endian bytes, then the encoding.
pub open spec fn identity_wire(name: Seq<char>) -> Seq<u8> {
    be16_bytes(encode_utf8(name).len() as u16) + encode_utf8(name)
}

/// What decoding `data` gives: the username at its start (later bytes are
/// ignored), or the first reason it cannot be read.
pub open spec fn decode_identity(data: Seq<u8>) -> Result<Seq<char>, ProtocolError> {
    if data.len() < 2 {
        Err(ProtocolError::TooShort)
    } else {
        let len = be16_value(data.subrange(0, 2));
        if data.len() < 2 + len {
            Err(ProtocolError::TooShort)
        } else {
            let bytes = data.subrange(2, 2 + len);
            if !valid_utf8(bytes) {
                Err(ProtocolError::InvalidUtf8)
            } else if !valid_username(decode_utf8(bytes)) {
                Err(ProtocolError::FieldTooLarge)
            } else {
                Ok(decode_utf8(bytes))
            }
        }
    }
}

/// An identity result taken by its username.
pub open spec fn identity_result_view(r: Result<Identity, ProtocolError>) -> Result<
    Seq<char>,
    ProtocolError,
> {
    match r {
        Ok(id) => Ok(id.username@),
        Err(e) => Err(e),
    }
}

impl Identity {
    /// An identity for `username`; `FieldTooLarge` when the name is empty or
    /// longer than `u16::MAX` bytes.
    pub fn new(username: String) -> (r: Result<Self, ProtocolError>)
        ensures
            identity_result_view(r) == (if valid_username(username@) {
                Ok(username@)
            } else {
                Err(ProtocolError::FieldTooLarge)
            }),
    {
        let len = utf8_len(username.as_str());
        proof {
            assert(username@.len() == 0 <==> encode_utf8(username@).len() == 0) by {
                if username@.len() > 0 {
                    vstd::utf8::encode_utf8_first_scalar(username@);
                }
            }
        }
        if len == 0 || len > 0xFFFF {
            return Err(ProtocolError::FieldTooLarge);
        }
        Ok(Identity { username })
    }

    /// The identity's bytes on the wire; `FieldTooLarge` when the username is
    /// longer than `u16::MAX` bytes.
    pub fn encode(&self) -> (r: Result<Vec<u8>, ProtocolError>)
        ensures
            match r {
                Ok(bytes) => encode_utf8(self.username@).len() <= u16::MAX && bytes@
                    == identity_wire(self.username@),
                Err(e) => encode_utf8(self.username@).len() > u16::MAX && e
                    == ProtocolError::FieldTooLarge,
            },
    {
        let name = self.username.as_str().as_bytes();
        if name.len() > 0xFFFF {
            return Err(ProtocolError::FieldTooLarge);
        }
        let prefix = u16_to_be(name.len() as u16);
        let mut output: Vec<u8> = Vec::new();
        output.push(prefix[0]);
        output.push(prefix[1]);
        let mut j: usize = 0;
        while j < name.len()
            invariant
                j <= name@.len(),
                output@ == prefix@ + name@.take(j as int),
            decreases name@.len() - j,
        {
            output.push(name[j]);
            j = j + 1;
            assert(output@ =~= prefix@ + name@.take(j as int));
        }
        assert(name@.take(name@.len() as int) =~= name@);
        Ok(output)
    }

    /// Reads the identity at the start of `data`; bytes after it are ignored.
    pub fn decode(data: &[u8]) -> (r: Result<Self, ProtocolError>)
        ensures
            identity_result_view(r) == decode_identity(data@),
    {
        if data.len() < 2 {
            return Err(ProtocolError::TooShort);
        }
        let length = u16_from_be([data[0], data[1]]) as usize;
        assert(data@.subrange(0, 2) =~= seq![data@[0], data@[1]]);
        if data.len() - 2 < length {
            return Err(ProtocolError::TooShort);
        }
        let bytes = slice_subrange(data, 2, 2 + length);
        let username = match utf8_text(bytes) {
            Some(text) => text.to_owned(),
            None => return Err(ProtocolError::InvalidUtf8),
        };
        Self::new(username)
    }
}

/// Decoding the wire form of a valid identity gives it back, whatever bytes
/// follow it.
pub proof fn law_identity_decode_encode(name: Seq<char>, rest: Seq<u8>)
    requires
        valid_username(name),
    ensures
        decode_identity(identity_wire(name) + rest) == Ok::<Seq<char>, ProtocolError>(name),
{
    let enc = encode_utf8(name);
    lemma_be16_roundtrip(enc.len() as u16);
    let data = identity_wire(name) + rest;
    assert(data.subrange(0, 2) =~= be16_bytes(enc.len() as u16));
    assert(data.subrange(2, 2 + enc.len() as int) =~= enc);
}

/// A successful decode only accepts the wire form of the decoded identity:
/// the name is valid and its wire form is the start of the input.
pub proof fn law_identity_encode_decode(data: Seq<u8>)
    requires
        decode_identity(data) is Ok,
    ensures
        ({
            let name = decode_identity(data)->Ok_0;
            &&& valid_username(name)
            &&& identity_wire(name).len() <= data.len()
            &&& data.subrange(0, identity_wire(name).len() as int) == identity_wire(name)
        }),
{
    let head = data.subrange(0, 2);
    lemma_be16_value_roundtrip(head);
    let len = be16_value(head);
    let bytes = data.subrange(2, 2 + len);
    let name = decode_utf8(bytes);
    assert(encode_utf8(name) == bytes);
    assert(data.subrange(0, 2 + len) =~= head + bytes);
}


/// An identity that `new` accepts always encodes, and decodes back to itself.
pub proof fn law_accepted_identity_roundtrip(name: Seq<char>)
    requires
        valid_username(name),
    ensures
        encode_utf8(name).len() <= u16::MAX,
        decode_identity(identity_wire(name)) == Ok::<Seq<char>, ProtocolError>(name),
{
    law_identity_decode_encode(name, Seq::empty());
    assert(identity_wire(name) + Seq::<u8>::empty() =~= identity_wire(name));
}

} // verus!
