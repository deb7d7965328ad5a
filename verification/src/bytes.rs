//! Fixed-width integer encodings and byte-buffer helpers shared by the codecs.

use byteorder::ByteOrder;
use vstd::prelude::*;

verus! {

/// The eight bytes of `v`, most significant first.
pub open spec fn be_u64(v: u64) -> Seq<u8> {
    seq![
        (v >> 56) as u8,
        ((v >> 48) & 0xff) as u8,
        ((v >> 40) & 0xff) as u8,
        ((v >> 32) & 0xff) as u8,
        ((v >> 24) & 0xff) as u8,
        ((v >> 16) & 0xff) as u8,
        ((v >> 8) & 0xff) as u8,
        (v & 0xff) as u8,
    ]
}

/// The number that eight bytes spell, most significant first.
pub open spec fn be_u64_value(s: Seq<u8>) -> u64
    recommends
        s.len() == 8,
{
    (s[0] as u64) << 56 | (s[1] as u64) << 48 | (s[2] as u64) << 40 | (s[3] as u64) << 32 | (
    s[4] as u64) << 24 | (s[5] as u64) << 16 | (s[6] as u64) << 8 | (s[7] as u64)
}

/// The eight bytes of `v`, least significant first.
pub open spec fn le_u64(v: u64) -> Seq<u8> {
    be_u64(v).reverse()
}

/// The two bytes of `v`, least significant first.
pub open spec fn le_u16(v: u16) -> Seq<u8> {
    seq![(v & 0xff) as u8, (v >> 8) as u8]
}

/// The number that two bytes spell, least significant first.
pub open spec fn le_u16_value(s: Seq<u8>) -> u16
    recommends
        s.len() == 2,
{
    (s[0] as u16) | (s[1] as u16) << 8
}

/// The sixteen bytes of `v`, most significant first.
pub open spec fn be_u128(v: u128) -> Seq<u8> {
    be_u64((v >> 64) as u64) + be_u64((v & 0xffff_ffff_ffff_ffff) as u64)
}

/// The number that sixteen bytes spell, most significant first.
pub open spec fn be_u128_value(s: Seq<u8>) -> u128
    recommends
        s.len() == 16,
{
    (be_u64_value(s.subrange(0, 8)) as u128) << 64 | (be_u64_value(s.subrange(8, 16)) as u128)
}

/// Reading back what `be_u128` wrote gives the number again.
pub proof fn lemma_be_u128_roundtrip(v: u128)
    ensures
        be_u128(v).len() == 16,
        be_u128_value(be_u128(v)) == v,
{
    let hi = (v >> 64) as u64;
    let lo = (v & 0xffff_ffff_ffff_ffff) as u64;
    lemma_be_u64_roundtrip(hi);
    lemma_be_u64_roundtrip(lo);
    assert(be_u128(v).subrange(0, 8) =~= be_u64(hi));
    assert(be_u128(v).subrange(8, 16) =~= be_u64(lo));
    assert((hi as u128) << 64 | (lo as u128) == v) by (bit_vector)
        requires
            hi == (v >> 64) as u64,
            lo == (v & 0xffff_ffff_ffff_ffff) as u64,
    ;
}

/// Reading back what `be_u64` wrote gives the number again.
pub proof fn lemma_be_u64_roundtrip(v: u64)
    ensures
        be_u64(v).len() == 8,
        be_u64_value(be_u64(v)) == v,
{
    let s = be_u64(v);
    let b0 = s[0];
    let b1 = s[1];
    let b2 = s[2];
    let b3 = s[3];
    let b4 = s[4];
    let b5 = s[5];
    let b6 = s[6];
    let b7 = s[7];
    assert((b0 as u64) << 56 | (b1 as u64) << 48 | (b2 as u64) << 40 | (b3 as u64) << 32 | (
    b4 as u64) << 24 | (b5 as u64) << 16 | (b6 as u64) << 8 | (b7 as u64) == v) by (bit_vector)
        requires
            b0 == (v >> 56) as u8,
            b1 == ((v >> 48) & 0xff) as u8,
            b2 == ((v >> 40) & 0xff) as u8,
            b3 == ((v >> 32) & 0xff) as u8,
            b4 == ((v >> 24) & 0xff) as u8,
            b5 == ((v >> 16) & 0xff) as u8,
            b6 == ((v >> 8) & 0xff) as u8,
            b7 == (v & 0xff) as u8,
    ;
}

/// Writing the number that eight bytes spell gives the bytes again.
pub proof fn lemma_be_u64_bytes_roundtrip(s: Seq<u8>)
    requires
        s.len() == 8,
    ensures
        be_u64(be_u64_value(s)) == s,
{
    let v = be_u64_value(s);
    let b0 = s[0];
    let b1 = s[1];
    let b2 = s[2];
    let b3 = s[3];
    let b4 = s[4];
    let b5 = s[5];
    let b6 = s[6];
    let b7 = s[7];
    assert(b0 == (v >> 56) as u8 && b1 == ((v >> 48) & 0xff) as u8 && b2 == ((v >> 40) & 0xff) as u8
        && b3 == ((v >> 32) & 0xff) as u8 && b4 == ((v >> 24) & 0xff) as u8 && b5 == ((v >> 16)
        & 0xff) as u8 && b6 == ((v >> 8) & 0xff) as u8 && b7 == (v & 0xff) as u8) by (bit_vector)
        requires
            v == (b0 as u64) << 56 | (b1 as u64) << 48 | (b2 as u64) << 40 | (b3 as u64) << 32 | (
            b4 as u64) << 24 | (b5 as u64) << 16 | (b6 as u64) << 8 | (b7 as u64),
    ;
    assert(be_u64(v) =~= s);
}

/// Reading back what `le_u16` wrote gives the number again.
pub proof fn lemma_le_u16_roundtrip(v: u16)
    ensures
        le_u16(v).len() == 2,
        le_u16_value(le_u16(v)) == v,
{
    let b0 = le_u16(v)[0];
    let b1 = le_u16(v)[1];
    assert((b0 as u16) | (b1 as u16) << 8 == v) by (bit_vector)
        requires
            b0 == (v & 0xff) as u8,
            b1 == (v >> 8) as u8,
    ;
}

/// Writing the number that two bytes spell gives the bytes again.
pub proof fn lemma_le_u16_bytes_roundtrip(s: Seq<u8>)
    requires
        s.len() == 2,
    ensures
        le_u16(le_u16_value(s)) == s,
{
    let v = le_u16_value(s);
    let b0 = s[0];
    let b1 = s[1];
    assert(b0 == (v & 0xff) as u8 && b1 == (v >> 8) as u8) by (bit_vector)
        requires
            v == (b0 as u16) | (b1 as u16) << 8,
    ;
    assert(le_u16(v) =~= s);
}

/// Calls `byteorder::BigEndian::write_u64` on an eight-byte buffer. The
/// crate documents that it writes the number most significant byte first.
#[verifier::external_body]
pub(crate) fn u64_to_be(v: u64) -> (out: [u8; 8])
    ensures
        out@ == be_u64(v),
{
    let mut out = [0u8; 8];
    byteorder::BigEndian::write_u64(&mut out, v);
    out
}

/// Calls `byteorder::BigEndian::read_u64`, which panics on fewer than eight
/// bytes and reads the first eight, most significant first.
#[verifier::external_body]
pub(crate) fn u64_from_be(buf: &[u8]) -> (v: u64)
    requires
        buf@.len() >= 8,
    ensures
        v == be_u64_value(buf@.subrange(0, 8)),
{
    byteorder::BigEndian::read_u64(buf)
}

/// Calls `byteorder::LittleEndian::write_u64` on an eight-byte buffer. The
/// crate documents that it writes the number least significant byte first.
#[verifier::external_body]
pub(crate) fn u64_to_le(v: u64) -> (out: [u8; 8])
    ensures
        out@ == le_u64(v),
{
    let mut out = [0u8; 8];
    byteorder::LittleEndian::write_u64(&mut out, v);
    out
}

/// Calls `byteorder::LittleEndian::write_u16` on a two-byte buffer. The
/// crate documents that it writes the number least significant byte first.
#[verifier::external_body]
pub(crate) fn u16_to_le(v: u16) -> (out: [u8; 2])
    ensures
        out@ == le_u16(v),
{
    let mut out = [0u8; 2];
    byteorder::LittleEndian::write_u16(&mut out, v);
    out
}

/// Calls `byteorder::LittleEndian::read_u16`, which panics on fewer than two
/// bytes and reads the first two, least significant first.
#[verifier::external_body]
pub(crate) fn u16_from_le(buf: &[u8]) -> (v: u16)
    requires
        buf@.len() >= 2,
    ensures
        v == le_u16_value(buf@.subrange(0, 2)),
{
    byteorder::LittleEndian::read_u16(buf)
}

/// Calls `byteorder::BigEndian::write_u128` on a sixteen-byte buffer. The
/// crate documents that it writes the number most significant byte first.
#[verifier::external_body]
pub(crate) fn u128_to_be(v: u128) -> (out: [u8; 16])
    ensures
        out@ == be_u128(v),
{
    let mut out = [0u8; 16];
    byteorder::BigEndian::write_u128(&mut out, v);
    out
}

/// Calls `byteorder::BigEndian::read_u128`, which panics on fewer than
/// sixteen bytes and reads the first sixteen, most significant first.
#[verifier::external_body]
pub(crate) fn u128_from_be(buf: &[u8]) -> (v: u128)
    requires
        buf@.len() >= 16,
    ensures
        v == be_u128_value(buf@.subrange(0, 16)),
{
    byteorder::BigEndian::read_u128(buf)
}

/// The number that eight bytes spell, least significant first.
pub open spec fn le_u64_value(s: Seq<u8>) -> u64
    recommends
        s.len() == 8,
{
    be_u64_value(s.reverse())
}

/// Reading back what `le_u64` wrote gives the number again, and writing the
/// number that eight bytes spell gives the bytes again.
pub proof fn lemma_le_u64_roundtrip(v: u64, s: Seq<u8>)
    requires
        s.len() == 8,
    ensures
        le_u64(v).len() == 8,
        le_u64_value(le_u64(v)) == v,
        le_u64(le_u64_value(s)) == s,
{
    lemma_be_u64_roundtrip(v);
    assert(le_u64(v).reverse() =~= be_u64(v));
    lemma_be_u64_bytes_roundtrip(s.reverse());
    assert(s.reverse().reverse() =~= s);
}

/// Writing the number that sixteen bytes spell gives the bytes again.
pub proof fn lemma_be_u128_bytes_roundtrip(s: Seq<u8>)
    requires
        s.len() == 16,
    ensures
        be_u128(be_u128_value(s)) == s,
{
    let hi = be_u64_value(s.subrange(0, 8));
    let lo = be_u64_value(s.subrange(8, 16));
    let v = be_u128_value(s);
    lemma_be_u64_bytes_roundtrip(s.subrange(0, 8));
    lemma_be_u64_bytes_roundtrip(s.subrange(8, 16));
    assert((v >> 64) as u64 == hi && (v & 0xffff_ffff_ffff_ffff) as u64 == lo) by (bit_vector)
        requires
            v == (hi as u128) << 64 | (lo as u128),
    ;
    assert(be_u128(v) =~= s);
}

/// Calls `byteorder::LittleEndian::read_u64`, which panics on fewer than
/// eight bytes and reads the first eight, least significant first.
#[verifier::external_body]
pub(crate) fn u64_from_le(buf: &[u8]) -> (v: u64)
    requires
        buf@.len() >= 8,
    ensures
        v == le_u64_value(buf@.subrange(0, 8)),
{
    byteorder::LittleEndian::read_u64(buf)
}

/// Appends `bytes` to `out`.
pub fn append(out: &mut Vec<u8>, bytes: &[u8])
    ensures
        final(out)@ == old(out)@ + bytes@,
{
    out.extend_from_slice(bytes);
}

/// Whether two byte strings are the same.
pub fn bytes_equal(a: &[u8], b: &[u8]) -> (r: bool)
    ensures
        r == (a@ == b@),
{
    if a.len() != b.len() {
        return false;
    }
    let mut i: usize = 0;
    while i < a.len()
        invariant
            i <= a.len(),
            a.len() == b.len(),
            forall|j: int| 0 <= j < i ==> a@[j] == b@[j],
        decreases a.len() - i,
    {
        if a[i] != b[i] {
            return false;
        }
        i += 1;
    }
    assert(a@ =~= b@);
    true
}

} // verus!
