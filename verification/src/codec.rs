//! The building blocks of the canonical binary encoding: lengths in base 128,
//! byte strings with their length in front, and 64-bit numbers least
//! significant byte first.

use crate::bytes::{
    append, be_u128, be_u128_value, le_u64, le_u64_value, lemma_be_u128_bytes_roundtrip,
    lemma_be_u128_roundtrip, lemma_le_u64_roundtrip, u128_from_be, u64_from_le, u64_to_le,
};
use vstd::prelude::*;

verus! {

/// A length in base 128, least significant group first; every byte but the
/// last has its high bit set.
pub open spec fn uleb128(n: nat) -> Seq<u8>
    decreases n,
{
    if n < 128 {
        seq![n as u8]
    } else {
        seq![(n % 128 + 128) as u8] + uleb128(n / 128)
    }
}

/// A byte string in the canonical encoding: its length, then its bytes.
pub open spec fn byte_string(b: Seq<u8>) -> Seq<u8> {
    uleb128(b.len()) + b
}

/// The parts one after another.
pub open spec fn concat_all(parts: Seq<Seq<u8>>) -> Seq<u8>
    decreases parts.len(),
{
    if parts.len() == 0 {
        Seq::<u8>::empty()
    } else {
        concat_all(parts.drop_last()) + parts.last()
    }
}

/// A list in the canonical encoding: the number of its items, then the
/// encodings of the items in turn.
pub open spec fn sequence(parts: Seq<Seq<u8>>) -> Seq<u8> {
    uleb128(parts.len()) + concat_all(parts)
}

/// Adding one part at the end adds its bytes at the end.
pub proof fn lemma_concat_all_push(parts: Seq<Seq<u8>>, n: int)
    requires
        0 <= n < parts.len(),
    ensures
        concat_all(parts.take(n + 1)) == concat_all(parts.take(n)) + parts[n],
{
    assert(parts.take(n + 1).drop_last() =~= parts.take(n));
}

/// Appends `n` in base 128.
pub fn write_uleb128(out: &mut Vec<u8>, n: usize)
    ensures
        final(out)@ == old(out)@ + uleb128(n as nat),
{
    let mut rest: usize = n;
    let ghost before = out@;
    while rest >= 128
        invariant
            before + uleb128(n as nat) == out@ + uleb128(rest as nat),
        decreases rest,
    {
        let group: u8 = (rest % 128 + 128) as u8;
        out.push(group);
        assert((out@.drop_last() + uleb128(rest as nat)) =~= out@ + uleb128((rest / 128) as nat));
        rest = rest / 128;
    }
    out.push(rest as u8);
    assert(out@ =~= out@.drop_last() + uleb128(rest as nat));
    assert(before == old(out)@);
}

/// Appends a byte string: its length, then its bytes.
pub fn write_byte_string(out: &mut Vec<u8>, b: &[u8])
    ensures
        final(out)@ == old(out)@ + byte_string(b@),
{
    write_uleb128(out, b.len());
    append(out, b);
    assert(out@ =~= old(out)@ + byte_string(b@));
}

/// Appends a 64-bit number, least significant byte first.
pub fn write_u64(out: &mut Vec<u8>, v: u64)
    ensures
        final(out)@ == old(out)@ + le_u64(v),
{
    let bytes = u64_to_le(v);
    append(out, &bytes);
}

/// Appends one byte.
pub fn write_u8(out: &mut Vec<u8>, v: u8)
    ensures
        final(out)@ == old(out)@ + seq![v],
{
    out.push(v);
    assert(out@ =~= old(out)@ + seq![v]);
}

/// Whether `enc` stands at `pos` in `data`.
pub open spec fn reads(data: Seq<u8>, pos: int, enc: Seq<u8>) -> bool {
    0 <= pos && pos + enc.len() <= data.len() && data.subrange(pos, pos + enc.len()) == enc
}

/// Two encodings stand one behind the other where their concatenation
/// stands.
pub proof fn lemma_reads_split(data: Seq<u8>, pos: int, a: Seq<u8>, b: Seq<u8>)
    ensures
        reads(data, pos, a + b) <==> (reads(data, pos, a) && reads(data, pos + a.len(), b)),
{
    if reads(data, pos, a + b) {
        assert(data.subrange(pos, pos + a.len()) =~= (a + b).subrange(0, a.len() as int));
        assert((a + b).subrange(0, a.len() as int) =~= a);
        assert(data.subrange(pos + a.len(), pos + a.len() + b.len()) =~= (a + b).subrange(
            a.len() as int,
            (a + b).len() as int,
        ));
        assert((a + b).subrange(a.len() as int, (a + b).len() as int) =~= b);
    }
    if reads(data, pos, a) && reads(data, pos + a.len(), b) {
        assert(data.subrange(pos, pos + (a + b).len()) =~= data.subrange(pos, pos + a.len())
            + data.subrange(pos + a.len(), pos + a.len() + b.len()));
    }
}

/// The length in base 128 that stands at `pos`, with the place behind it.
/// Only the shortest form of a length is read: but for a single byte, the
/// last byte is not zero.
pub open spec fn uleb_read(s: Seq<u8>, pos: int, first: bool) -> Option<(nat, int)>
    decreases s.len() - pos,
{
    if pos < 0 || pos >= s.len() {
        None
    } else if s[pos] < 128 {
        if !first && s[pos] == 0 {
            None
        } else {
            Some((s[pos] as nat, pos + 1))
        }
    } else {
        match uleb_read(s, pos + 1, false) {
            None => None,
            Some((high, next)) => Some((((s[pos] - 128) + 128 * high) as nat, next)),
        }
    }
}

/// A length that stands at a place is read there.
pub proof fn lemma_uleb_read_complete(data: Seq<u8>, pos: int, n: nat, first: bool)
    requires
        reads(data, pos, uleb128(n)),
        first || n > 0,
    ensures
        uleb_read(data, pos, first) == Some((n, pos + uleb128(n).len())),
    decreases n,
{
    let enc = uleb128(n);
    assert(data[pos] == data.subrange(pos, pos + enc.len())[0]);
    if n >= 128 {
        let rest = uleb128(n / 128);
        assert(enc =~= seq![(n % 128 + 128) as u8] + rest);
        lemma_reads_split(data, pos, seq![(n % 128 + 128) as u8], rest);
        lemma_uleb_read_complete(data, pos + 1, n / 128, false);
    }
}

/// What is read at a place is a length that stands there.
pub proof fn lemma_uleb_read_sound(data: Seq<u8>, pos: int, first: bool)
    requires
        uleb_read(data, pos, first) is Some,
    ensures
        reads(data, pos, uleb128(uleb_read(data, pos, first)->Some_0.0)),
        uleb_read(data, pos, first)->Some_0.1 == pos + uleb128(
            uleb_read(data, pos, first)->Some_0.0,
        ).len(),
        first || uleb_read(data, pos, first)->Some_0.0 > 0,
    decreases data.len() - pos,
{
    let n = uleb_read(data, pos, first)->Some_0.0;
    if data[pos] < 128 {
        assert(data.subrange(pos, pos + 1) =~= seq![data[pos]]);
    } else {
        lemma_uleb_read_sound(data, pos + 1, false);
        let high = uleb_read(data, pos + 1, false)->Some_0.0;
        assert(n == (data[pos] - 128) + 128 * high);
        assert(n / 128 == high && n % 128 == data[pos] - 128);
        lemma_reads_split(data, pos, seq![data[pos]], uleb128(high));
        assert(data.subrange(pos, pos + 1) =~= seq![data[pos]]);
        assert(uleb128(n) =~= seq![data[pos]] + uleb128(high));
    }
}

fn read_uleb_from(data: &[u8], pos: usize, first: bool) -> (r: Option<(usize, usize)>)
    ensures
        r is Some <==> (uleb_read(data@, pos as int, first) is Some && uleb_read(
            data@,
            pos as int,
            first,
        )->Some_0.0 <= usize::MAX),
        r is Some ==> r->Some_0.0 == uleb_read(data@, pos as int, first)->Some_0.0 && r->Some_0.1
            == uleb_read(data@, pos as int, first)->Some_0.1 && r->Some_0.1 <= data@.len(),
    decreases data@.len() - pos,
{
    if pos >= data.len() {
        return None;
    }
    let byte = data[pos];
    if byte < 128 {
        if !first && byte == 0 {
            None
        } else {
            Some((byte as usize, pos + 1))
        }
    } else {
        match read_uleb_from(data, pos + 1, false) {
            None => None,
            Some((high, next)) => {
                match high.checked_mul(128) {
                    None => None,
                    Some(scaled) => match scaled.checked_add((byte - 128) as usize) {
                        None => None,
                        Some(value) => Some((value, next)),
                    },
                }
            },
        }
    }
}

/// Reads the length that stands at `pos`, and returns it with the place
/// behind it.
pub fn read_uleb128(data: &[u8], pos: usize) -> (r: Option<(usize, usize)>)
    ensures
        forall|n: nat|
            #[trigger] reads(data@, pos as int, uleb128(n)) && n <= usize::MAX ==> r == Some(
                (n as usize, (pos + uleb128(n).len()) as usize),
            ),
        r is Some ==> reads(data@, pos as int, uleb128(r->Some_0.0 as nat)) && r->Some_0.1 == pos
            + uleb128(r->Some_0.0 as nat).len(),
{
    let r = read_uleb_from(data, pos, true);
    proof {
        assert forall|n: nat| #[trigger]
            reads(data@, pos as int, uleb128(n)) && n <= usize::MAX implies r == Some(
            (n as usize, (pos + uleb128(n).len()) as usize),
        ) by {
            lemma_uleb_read_complete(data@, pos as int, n, true);
        }
        if r is Some {
            lemma_uleb_read_sound(data@, pos as int, true);
        }
    }
    r
}

/// Reads the byte string that stands at `pos`, and returns it with the place
/// behind it.
pub fn read_byte_string(data: &[u8], pos: usize) -> (r: Option<(Vec<u8>, usize)>)
    ensures
        forall|b: Seq<u8>|
            #[trigger] reads(data@, pos as int, byte_string(b)) ==> r is Some && r->Some_0.0@ == b
                && r->Some_0.1 == pos + byte_string(b).len(),
        r is Some ==> reads(data@, pos as int, byte_string(r->Some_0.0@)) && r->Some_0.1 == pos
            + byte_string(r->Some_0.0@).len(),
{
    let total = data.len();
    proof {
        assert forall|b: Seq<u8>| #[trigger]
            reads(data@, pos as int, byte_string(b)) implies reads(
            data@,
            pos as int,
            uleb128(b.len()),
        ) && reads(data@, pos + uleb128(b.len()).len(), b) && b.len() <= usize::MAX by {
            lemma_reads_split(data@, pos as int, uleb128(b.len()), b);
            assert(b.len() <= total);
        }
    }
    let (len, start) = match read_uleb128(data, pos) {
        Some(read) => read,
        None => {
            return None;
        },
    };
    if data.len() - start < len {
        return None;
    }
    let mut bytes: Vec<u8> = Vec::new();
    append(&mut bytes, vstd::slice::slice_subrange(data, start, start + len));
    proof {
        assert(bytes@ =~= data@.subrange(start as int, start + len));
        lemma_reads_split(data@, pos as int, uleb128(len as nat), bytes@);
    }
    Some((bytes, start + len))
}

/// Reads the 64-bit number that stands at `pos`, least significant byte
/// first, and returns it with the place behind it.
pub fn read_u64(data: &[u8], pos: usize) -> (r: Option<(u64, usize)>)
    ensures
        forall|v: u64|
            #[trigger] reads(data@, pos as int, le_u64(v)) ==> r == Some((v, (pos + 8) as usize)),
        r is Some ==> reads(data@, pos as int, le_u64(r->Some_0.0)) && r->Some_0.1 == pos + 8,
{
    proof {
        assert forall|v: u64| #[trigger] reads(data@, pos as int, le_u64(v)) implies pos + 8
            <= data@.len() && le_u64_value(data@.subrange(pos as int, pos + 8)) == v by {
            lemma_le_u64_roundtrip(v, le_u64(v));
        }
    }
    if pos > data.len() || data.len() - pos < 8 {
        return None;
    }
    let bytes = vstd::slice::slice_subrange(data, pos, pos + 8);
    assert(bytes@.subrange(0, 8) =~= bytes@);
    let v = u64_from_le(bytes);
    proof {
        lemma_le_u64_roundtrip(v, bytes@);
    }
    Some((v, pos + 8))
}

/// Reads the 128-bit number that stands at `pos`, most significant byte
/// first, and returns it with the place behind it.
pub fn read_u128(data: &[u8], pos: usize) -> (r: Option<(u128, usize)>)
    ensures
        forall|v: u128|
            #[trigger] reads(data@, pos as int, be_u128(v)) ==> r == Some((v, (pos + 16) as usize)),
        r is Some ==> reads(data@, pos as int, be_u128(r->Some_0.0)) && r->Some_0.1 == pos + 16,
{
    proof {
        assert forall|v: u128| #[trigger] reads(data@, pos as int, be_u128(v)) implies pos + 16
            <= data@.len() && be_u128_value(data@.subrange(pos as int, pos + 16)) == v by {
            lemma_be_u128_roundtrip(v);
        }
    }
    if pos > data.len() || data.len() - pos < 16 {
        return None;
    }
    let bytes = vstd::slice::slice_subrange(data, pos, pos + 16);
    assert(bytes@.subrange(0, 16) =~= bytes@);
    let v = u128_from_be(bytes);
    proof {
        lemma_be_u128_bytes_roundtrip(bytes@);
    }
    Some((v, pos + 16))
}

/// Reads the byte that stands at `pos`, and returns it with the place
/// behind it.
pub fn read_u8(data: &[u8], pos: usize) -> (r: Option<(u8, usize)>)
    ensures
        forall|v: u8| #[trigger] reads(data@, pos as int, seq![v]) ==> r == Some((v, (pos + 1) as usize)),
        r is Some ==> reads(data@, pos as int, seq![r->Some_0.0]) && r->Some_0.1 == pos + 1,
{
    proof {
        assert forall|v: u8| #[trigger] reads(data@, pos as int, seq![v]) implies pos < data@.len()
            && data@[pos as int] == v by {
            assert(data@.subrange(pos as int, pos + 1)[0] == v);
        }
    }
    if pos >= data.len() {
        return None;
    }
    assert(data@.subrange(pos as int, pos + 1) =~= seq![data@[pos as int]]);
    Some((data[pos], pos + 1))
}

} // verus!
