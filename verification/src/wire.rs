//! Big-endian length prefixes and UTF-8 text, the building blocks of the
//! wire format.
use vstd::prelude::*;
use vstd::utf8::*;

verus! {

/// The four bytes of `n`, most significant first.
pub open spec fn be32_bytes(n: u32) -> Seq<u8> {
    seq![
        (n / 0x100_0000) as u8,
        ((n / 0x1_0000) % 0x100) as u8,
        ((n / 0x100) % 0x100) as u8,
        (n % 0x100) as u8,
    ]
}

/// The number that four bytes, most significant first, stand for.
pub open spec fn be32_value(b: Seq<u8>) -> int
    recommends
        b.len() == 4,
{
    b[0] * 0x100_0000 + b[1] * 0x1_0000 + b[2] * 0x100 + b[3]
}

/// The two bytes of `n`, most significant first.
pub open spec fn be16_bytes(n: u16) -> Seq<u8> {
    seq![(n / 0x100) as u8, (n % 0x100) as u8]
}

/// The number that two bytes, most significant first, stand for.
pub open spec fn be16_value(b: Seq<u8>) -> int
    recommends
        b.len() == 2,
{
    b[0] * 0x100 + b[1]
}

/// Four big-endian bytes give back the number they were made from.
pub proof fn lemma_be32_roundtrip(n: u32)
    ensures
        be32_bytes(n).len() == 4,
        be32_value(be32_bytes(n)) == n,
{
    let b = be32_bytes(n);
    assert(b[0] == n / 0x100_0000);
    assert(b[1] == (n / 0x1_0000) % 0x100);
    assert(b[2] == (n / 0x100) % 0x100);
    assert(b[3] == n % 0x100);
    assert((n / 0x100_0000) * 0x100_0000 + ((n / 0x1_0000) % 0x100) * 0x1_0000 + ((n / 0x100)
        % 0x100) * 0x100 + n % 0x100 == n) by (nonlinear_arith);
}

/// Any four bytes are the big-endian bytes of the number they stand for.
pub proof fn lemma_be32_value_roundtrip(b: Seq<u8>)
    requires
        b.len() == 4,
    ensures
        0 <= be32_value(b) <= u32::MAX,
        be32_bytes(be32_value(b) as u32) == b,
{
    let (b0, b1, b2, b3) = (b[0] as int, b[1] as int, b[2] as int, b[3] as int);
    let v = b0 * 0x100_0000 + b1 * 0x1_0000 + b2 * 0x100 + b3;
    assert(0 <= v <= u32::MAX) by (nonlinear_arith)
        requires
            0 <= b0 < 256,
            0 <= b1 < 256,
            0 <= b2 < 256,
            0 <= b3 < 256,
            v == b0 * 0x100_0000 + b1 * 0x1_0000 + b2 * 0x100 + b3,
    ;
    assert(v / 0x100_0000 == b0 && (v / 0x1_0000) % 0x100 == b1 && (v / 0x100) % 0x100 == b2 && v
        % 0x100 == b3) by (nonlinear_arith)
        requires
            0 <= b0 < 256,
            0 <= b1 < 256,
            0 <= b2 < 256,
            0 <= b3 < 256,
            v == b0 * 0x100_0000 + b1 * 0x1_0000 + b2 * 0x100 + b3,
    ;
    assert(be32_bytes(v as u32) =~= b);
}

/// The big-endian bytes of `n`.
pub fn u32_to_be(n: u32) -> (out: [u8; 4])
    ensures
        out@ == be32_bytes(n),
{
    let out = [
        (n / 0x100_0000) as u8,
        ((n / 0x1_0000) % 0x100) as u8,
        ((n / 0x100) % 0x100) as u8,
        (n % 0x100) as u8,
    ];
    assert(out@ =~= be32_bytes(n));
    out
}


/// Two big-endian bytes give back the number they were made from.
pub proof fn lemma_be16_roundtrip(n: u16)
    ensures
        be16_bytes(n).len() == 2,
        be16_value(be16_bytes(n)) == n,
{
    let b = be16_bytes(n);
    assert(b[0] == n / 0x100);
    assert(b[1] == n % 0x100);
    assert((n / 0x100) * 0x100 + n % 0x100 == n) by (nonlinear_arith);
}

/// Any two bytes are the big-endian bytes of the number they stand for.
pub proof fn lemma_be16_value_roundtrip(b: Seq<u8>)
    requires
        b.len() == 2,
    ensures
        0 <= be16_value(b) <= u16::MAX,
        be16_bytes(be16_value(b) as u16) == b,
{
    let (b0, b1) = (b[0] as int, b[1] as int);
    let v = b0 * 0x100 + b1;
    assert(0 <= v <= u16::MAX && v / 0x100 == b0 && v % 0x100 == b1) by (nonlinear_arith)
        requires
            0 <= b0 < 256,
            0 <= b1 < 256,
            v == b0 * 0x100 + b1,
    ;
    assert(be16_bytes(v as u16) =~= b);
}

/// The number that four bytes, most significant first, stand for.
pub fn u32_from_be(b: [u8; 4]) -> (n: u32)
    ensures
        n == be32_value(b@),
{
    (b[0] as u32) * 0x100_0000 + (b[1] as u32) * 0x1_0000 + (b[2] as u32) * 0x100 + (b[3] as u32)
}

/// The big-endian bytes of `n`.
pub fn u16_to_be(n: u16) -> (out: [u8; 2])
    ensures
        out@ == be16_bytes(n),
{
    let out = [(n / 0x100) as u8, (n % 0x100) as u8];
    assert(out@ =~= be16_bytes(n));
    out
}

/// The number that two bytes, most significant first, stand for.
pub fn u16_from_be(b: [u8; 2]) -> (n: u16)
    ensures
        n == be16_value(b@),
{
    (b[0] as u16) * 0x100 + (b[1] as u16)
}

/// Decodes `bytes` as UTF-8 with `std::str::from_utf8`.
///
/// Trusted: `from_utf8` is documented to succeed exactly when the slice is
/// valid UTF-8, and then to return the string slice whose bytes are `bytes`;
/// the contract says so in terms of vstd's UTF-8 definitions.
#[verifier::external_body]
pub(crate) fn utf8_text(bytes: &[u8]) -> (text: Option<&str>)
    ensures
        text is Some <==> valid_utf8(bytes@),
        text matches Some(t) ==> t@ == decode_utf8(bytes@),
{
    match std::str::from_utf8(bytes) {
        Ok(t) => Some(t),
        Err(_) => None,
    }
}

/// The number of bytes of the UTF-8 encoding of `s`.
pub fn utf8_len(s: &str) -> (n: usize)
    ensures
        n == encode_utf8(s@).len(),
{
    s.as_bytes().len()
}

} // verus!
