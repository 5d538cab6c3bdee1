//! The wire form of the primitives: fixed-width little-endian integers,
//! length-prefixed UTF-8 strings, and the prefix relation the decoding
//! contracts are stated with.

use vstd::prelude::*;
use vstd::utf8::encode_utf8;

verus! {

/// The two bytes of a 16-bit value, least significant first.
pub open spec fn u16_le(v: u16) -> Seq<u8> {
    seq![(v & 0xff) as u8, ((v >> 8) & 0xff) as u8]
}

/// The four bytes of a 32-bit value, least significant first.
pub open spec fn u32_le(v: u32) -> Seq<u8> {
    seq![
        (v & 0xff) as u8,
        ((v >> 8) & 0xff) as u8,
        ((v >> 16) & 0xff) as u8,
        ((v >> 24) & 0xff) as u8,
    ]
}

/// The eight bytes of a 64-bit value, least significant first.
pub open spec fn u64_le(v: u64) -> Seq<u8> {
    seq![
        (v & 0xff) as u8,
        ((v >> 8) & 0xff) as u8,
        ((v >> 16) & 0xff) as u8,
        ((v >> 24) & 0xff) as u8,
        ((v >> 32) & 0xff) as u8,
        ((v >> 40) & 0xff) as u8,
        ((v >> 48) & 0xff) as u8,
        ((v >> 56) & 0xff) as u8,
    ]
}

/// Signed values cross the wire in two's complement, as their unsigned bit pattern.
pub open spec fn i16_le(v: i16) -> Seq<u8> {
    u16_le(v as u16)
}

pub open spec fn i32_le(v: i32) -> Seq<u8> {
    u32_le(v as u32)
}

pub open spec fn i64_le(v: i64) -> Seq<u8> {
    u64_le(v as u64)
}

/// The 16-bit value held by the first two bytes, least significant first.
pub open spec fn u16_from_le(b: Seq<u8>) -> u16
    recommends
        b.len() >= 2,
{
    (b[0] as u16) | ((b[1] as u16) << 8)
}

/// The 32-bit value held by the first four bytes, least significant first.
pub open spec fn u32_from_le(b: Seq<u8>) -> u32
    recommends
        b.len() >= 4,
{
    (b[0] as u32) | ((b[1] as u32) << 8) | ((b[2] as u32) << 16) | ((b[3] as u32) << 24)
}

/// The 64-bit value held by the first eight bytes, least significant first.
pub open spec fn u64_from_le(b: Seq<u8>) -> u64
    recommends
        b.len() >= 8,
{
    (b[0] as u64) | ((b[1] as u64) << 8) | ((b[2] as u64) << 16) | ((b[3] as u64) << 24)
        | ((b[4] as u64) << 32) | ((b[5] as u64) << 40) | ((b[6] as u64) << 48)
        | ((b[7] as u64) << 56)
}

/// Wire form of a string: a `u64` byte length, then the UTF-8 bytes.
pub open spec fn enc_str(s: Seq<char>) -> Seq<u8> {
    u64_le(encode_utf8(s).len() as u64) + encode_utf8(s)
}

/// `p` is an initial segment of `s`.
pub open spec fn prefix_of(p: Seq<u8>, s: Seq<u8>) -> bool {
    p.len() <= s.len() && p == s.take(p.len() as int)
}

/// Encoding two bytes back from their 16-bit value restores the bytes.
pub proof fn lemma_u16_le_of_bytes(b0: u8, b1: u8)
    ensures
        u16_le((b0 as u16) | ((b1 as u16) << 8)) == seq![b0, b1],
{
    assert((((b0 as u16) | ((b1 as u16) << 8)) & 0xff) as u8 == b0) by (bit_vector);
    assert(((((b0 as u16) | ((b1 as u16) << 8)) >> 8) & 0xff) as u8 == b1) by (bit_vector);
    assert(u16_le((b0 as u16) | ((b1 as u16) << 8)) =~= seq![b0, b1]);
}

/// Decoding the bytes of a 16-bit value restores the value.
pub proof fn lemma_u16_from_le(v: u16)
    ensures
        u16_from_le(u16_le(v)) == v,
{
    assert(((v & 0xff) as u8 as u16) | (((v >> 8) & 0xff) as u8 as u16) << 8 == v)
        by (bit_vector);
}

pub proof fn lemma_u32_le_of_bytes(b0: u8, b1: u8, b2: u8, b3: u8)
    ensures
        u32_le(
            (b0 as u32) | ((b1 as u32) << 8) | ((b2 as u32) << 16) | ((b3 as u32) << 24),
        ) == seq![b0, b1, b2, b3],
{
    let v = (b0 as u32) | ((b1 as u32) << 8) | ((b2 as u32) << 16) | ((b3 as u32) << 24);
    assert((((b0 as u32) | ((b1 as u32) << 8) | ((b2 as u32) << 16) | ((b3 as u32) << 24))
        & 0xff) as u8 == b0) by (bit_vector);
    assert(((((b0 as u32) | ((b1 as u32) << 8) | ((b2 as u32) << 16) | ((b3 as u32) << 24))
        >> 8) & 0xff) as u8 == b1) by (bit_vector);
    assert(((((b0 as u32) | ((b1 as u32) << 8) | ((b2 as u32) << 16) | ((b3 as u32) << 24))
        >> 16) & 0xff) as u8 == b2) by (bit_vector);
    assert(((((b0 as u32) | ((b1 as u32) << 8) | ((b2 as u32) << 16) | ((b3 as u32) << 24))
        >> 24) & 0xff) as u8 == b3) by (bit_vector);
    assert(u32_le(v) =~= seq![b0, b1, b2, b3]);
}

pub proof fn lemma_u32_from_le(v: u32)
    ensures
        u32_from_le(u32_le(v)) == v,
{
    assert(((v & 0xff) as u8 as u32) | (((v >> 8) & 0xff) as u8 as u32) << 8
        | (((v >> 16) & 0xff) as u8 as u32) << 16 | (((v >> 24) & 0xff) as u8 as u32) << 24
        == v) by (bit_vector);
}

pub proof fn lemma_u64_le_of_bytes(b0: u8, b1: u8, b2: u8, b3: u8, b4: u8, b5: u8, b6: u8, b7: u8)
    ensures
        u64_le(
            (b0 as u64) | ((b1 as u64) << 8) | ((b2 as u64) << 16) | ((b3 as u64) << 24)
                | ((b4 as u64) << 32) | ((b5 as u64) << 40) | ((b6 as u64) << 48)
                | ((b7 as u64) << 56),
        ) == seq![b0, b1, b2, b3, b4, b5, b6, b7],
{
    let v = (b0 as u64) | ((b1 as u64) << 8) | ((b2 as u64) << 16) | ((b3 as u64) << 24)
        | ((b4 as u64) << 32) | ((b5 as u64) << 40) | ((b6 as u64) << 48) | ((b7 as u64) << 56);
    assert({
        let w = (b0 as u64) | ((b1 as u64) << 8) | ((b2 as u64) << 16) | ((b3 as u64) << 24)
            | ((b4 as u64) << 32) | ((b5 as u64) << 40) | ((b6 as u64) << 48)
            | ((b7 as u64) << 56);
        (w & 0xff) as u8 == b0 && ((w >> 8) & 0xff) as u8 == b1 && ((w >> 16) & 0xff) as u8 == b2
            && ((w >> 24) & 0xff) as u8 == b3 && ((w >> 32) & 0xff) as u8 == b4
            && ((w >> 40) & 0xff) as u8 == b5 && ((w >> 48) & 0xff) as u8 == b6
            && ((w >> 56) & 0xff) as u8 == b7
    }) by (bit_vector);
    assert(u64_le(v) =~= seq![b0, b1, b2, b3, b4, b5, b6, b7]);
}

pub proof fn lemma_u64_from_le(v: u64)
    ensures
        u64_from_le(u64_le(v)) == v,
{
    assert(((v & 0xff) as u8 as u64) | (((v >> 8) & 0xff) as u8 as u64) << 8
        | (((v >> 16) & 0xff) as u8 as u64) << 16 | (((v >> 24) & 0xff) as u8 as u64) << 24
        | (((v >> 32) & 0xff) as u8 as u64) << 32 | (((v >> 40) & 0xff) as u8 as u64) << 40
        | (((v >> 48) & 0xff) as u8 as u64) << 48 | (((v >> 56) & 0xff) as u8 as u64) << 56
        == v) by (bit_vector);
}

/// Two values with the same wire bytes are the same value.
pub proof fn lemma_u16_le_injective(a: u16, b: u16)
    requires
        u16_le(a) == u16_le(b),
    ensures
        a == b,
{
    lemma_u16_from_le(a);
    lemma_u16_from_le(b);
}

pub proof fn lemma_u32_le_injective(a: u32, b: u32)
    requires
        u32_le(a) == u32_le(b),
    ensures
        a == b,
{
    lemma_u32_from_le(a);
    lemma_u32_from_le(b);
}

pub proof fn lemma_u64_le_injective(a: u64, b: u64)
    requires
        u64_le(a) == u64_le(b),
    ensures
        a == b,
{
    lemma_u64_from_le(a);
    lemma_u64_from_le(b);
}

/// The first bytes of a stream that starts with an encoded value decode to
/// that value, whatever follows.
pub proof fn lemma_u16_from_le_concat(v: u16, rest: Seq<u8>)
    ensures
        u16_from_le(u16_le(v) + rest) == v,
{
    let s = u16_le(v) + rest;
    assert(s[0] == u16_le(v)[0] && s[1] == u16_le(v)[1]);
    lemma_u16_from_le(v);
}

pub proof fn lemma_u32_from_le_concat(v: u32, rest: Seq<u8>)
    ensures
        u32_from_le(u32_le(v) + rest) == v,
{
    let s = u32_le(v) + rest;
    assert(s[0] == u32_le(v)[0] && s[1] == u32_le(v)[1] && s[2] == u32_le(v)[2] && s[3]
        == u32_le(v)[3]);
    lemma_u32_from_le(v);
}

pub proof fn lemma_u64_from_le_concat(v: u64, rest: Seq<u8>)
    ensures
        u64_from_le(u64_le(v) + rest) == v,
{
    let s = u64_le(v) + rest;
    assert(s[0] == u64_le(v)[0] && s[1] == u64_le(v)[1] && s[2] == u64_le(v)[2] && s[3]
        == u64_le(v)[3] && s[4] == u64_le(v)[4] && s[5] == u64_le(v)[5] && s[6] == u64_le(v)[6]
        && s[7] == u64_le(v)[7]);
    lemma_u64_from_le(v);
}

/// What a stream that starts with an encoded string looks like: the length
/// field holds the byte count of the UTF-8 body, which follows at offset 8.
pub proof fn lemma_enc_str_prefix(s: Seq<char>, stream: Seq<u8>)
    requires
        prefix_of(enc_str(s), stream),
        stream.len() <= usize::MAX,
    ensures
        stream.len() >= 8,
        encode_utf8(s).len() + 8 <= stream.len(),
        u64_from_le(stream) == encode_utf8(s).len() as u64,
        u64_from_le(stream) as nat == encode_utf8(s).len(),
        prefix_of(encode_utf8(s), stream.skip(8)),
        stream.skip(8).skip(encode_utf8(s).len() as int) == stream.skip(enc_str(s).len() as int),
        enc_str(s).len() == 8 + encode_utf8(s).len(),
{
    let len = encode_utf8(s).len();
    lemma_prefix_chain(u64_le(len as u64), encode_utf8(s), stream);
    lemma_prefix_split(u64_le(len as u64), stream);
    lemma_u64_from_le_concat(len as u64, stream.skip(8));
}

/// Concatenation of byte streams associates.
pub proof fn lemma_add_assoc(a: Seq<u8>, b: Seq<u8>, c: Seq<u8>)
    ensures
        (a + b) + c == a + (b + c),
{
    assert((a + b) + c =~= a + (b + c));
}

/// Two encoded 16-bit values at the head of the same stream are the same value.
pub proof fn lemma_u16_prefix_value(t: u16, rest: Seq<u8>, g: u16)
    requires
        prefix_of(u16_le(g), u16_le(t) + rest),
    ensures
        g == t,
{
    assert(u16_le(g) =~= u16_le(t));
    lemma_u16_le_injective(g, t);
}

pub proof fn lemma_u32_prefix_value(t: u32, rest: Seq<u8>, g: u32)
    requires
        prefix_of(u32_le(g), u32_le(t) + rest),
    ensures
        g == t,
{
    assert(u32_le(g) =~= u32_le(t));
    lemma_u32_le_injective(g, t);
}

pub proof fn lemma_u64_prefix_value(t: u64, rest: Seq<u8>, g: u64)
    requires
        prefix_of(u64_le(g), u64_le(t) + rest),
    ensures
        g == t,
{
    assert(u64_le(g) =~= u64_le(t));
    lemma_u64_le_injective(g, t);
}

/// A stream that is a prefix followed by a remainder: both directions.
pub proof fn lemma_concat_prefix(a: Seq<u8>, rest: Seq<u8>, s: Seq<u8>)
    requires
        s == a + rest,
    ensures
        prefix_of(a, s),
        s.skip(a.len() as int) == rest,
{
    assert(a =~= s.take(a.len() as int));
    assert(s.skip(a.len() as int) =~= rest);
}

pub proof fn lemma_prefix_split(a: Seq<u8>, s: Seq<u8>)
    requires
        prefix_of(a, s),
    ensures
        s == a + s.skip(a.len() as int),
{
    assert(s =~= a + s.skip(a.len() as int));
}

/// A concatenated prefix splits into a prefix and a prefix of the remainder.
pub proof fn lemma_prefix_chain(a: Seq<u8>, b: Seq<u8>, s: Seq<u8>)
    requires
        prefix_of(a + b, s),
    ensures
        prefix_of(a, s),
        prefix_of(b, s.skip(a.len() as int)),
        s.skip(a.len() as int).skip(b.len() as int) == s.skip((a + b).len() as int),
{
    let n = a.len() as int;
    let m = b.len() as int;
    assert(a =~= s.take(n));
    assert(forall|i: int| 0 <= i < m ==> b[i] == (a + b)[n + i]);
    assert(b =~= s.skip(n).take(m));
    assert(s.skip(n).skip(m) =~= s.skip((a + b).len() as int));
}

} // verus!
