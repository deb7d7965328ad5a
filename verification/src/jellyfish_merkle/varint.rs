//! Numbers of 64 bits in base 128, least significant group first. Each of the
//! first eight bytes holds seven bits and, in its high bit, whether more
//! follows; a ninth byte holds the eight bits that are left.

use vstd::prelude::*;

verus! {

/// The encoding of `n` from the round `round` on. Eight rounds take seven
/// bits each; what is left after them is one byte as it stands.
pub open spec fn varint_from(n: u64, round: int) -> Seq<u8>
    decreases 8 - round,
{
    if round >= 8 {
        seq![n as u8]
    } else if n >> 7 == 0 {
        seq![(n & 0x7f) as u8]
    } else {
        seq![((n & 0x7f) as u8) | 0x80u8] + varint_from(n >> 7, round + 1)
    }
}

/// The encoding of `n`.
pub open spec fn varint(n: u64) -> Seq<u8> {
    varint_from(n, 0)
}

/// The number that stands at `pos` in `s` from the round `round` on, with
/// the place behind it; `None` where the bytes end too early.
pub open spec fn varint_read_from(s: Seq<u8>, pos: int, round: int) -> Option<(u64, int)>
    decreases 8 - round,
{
    if pos < 0 || pos >= s.len() {
        None
    } else if round >= 8 {
        Some((s[pos] as u64, pos + 1))
    } else if s[pos] & 0x80 == 0 {
        Some((s[pos] as u64, pos + 1))
    } else {
        match varint_read_from(s, pos + 1, round + 1) {
            Some((high, next)) => Some((((s[pos] & 0x7f) as u64) | (high << 7), next)),
            None => None,
        }
    }
}

/// The number that stands at `pos` in `s`, with the place behind it.
pub open spec fn varint_read(s: Seq<u8>, pos: int) -> Option<(u64, int)> {
    varint_read_from(s, pos, 0)
}

/// An encoding is one to nine bytes long.
pub proof fn lemma_varint_len(n: u64, round: int)
    requires
        0 <= round <= 8,
    ensures
        1 <= varint_from(n, round).len() <= 9 - round,
    decreases 8 - round,
{
    if round < 8 && n >> 7 != 0 {
        lemma_varint_len(n >> 7, round + 1);
    }
}

/// Reading an encoding gives the number again, whatever stands before and
/// behind it.
pub proof fn lemma_varint_roundtrip_from(
    head: Seq<u8>,
    n: u64,
    tail: Seq<u8>,
    round: int,
)
    requires
        0 <= round <= 8,
        round == 8 ==> n <= 0xff,
        n >> ((64 - 7 * round) as u64) == 0 || round == 0,
    ensures
        varint_read_from(head + varint_from(n, round) + tail, head.len() as int, round) == Some(
            (n, head.len() as int + varint_from(n, round).len() as int),
        ),
    decreases 8 - round,
{
    let s = head + varint_from(n, round) + tail;
    let pos = head.len() as int;
    let first = varint_from(n, round)[0];
    assert(s[pos] == first);
    if round >= 8 {
        assert(n as u8 as u64 == n) by (bit_vector)
            requires
                n <= 0xff,
        ;
    } else if n >> 7 == 0 {
        let b = (n & 0x7f) as u8;
        assert(b & 0x80 == 0 && b as u64 == n) by (bit_vector)
            requires
                b == (n & 0x7f) as u8,
                n >> 7 == 0,
        ;
    } else {
        let b = ((n & 0x7f) as u8) | 0x80u8;
        let high = n >> 7;
        assert(b & 0x80 != 0 && ((b & 0x7f) as u64) | (high << 7) == n) by (bit_vector)
            requires
                b == ((n & 0x7f) as u8) | 0x80u8,
                high == n >> 7,
        ;
        let shift = (64 - 7 * round) as u64;
        let next_shift = (64 - 7 * (round + 1)) as u64;
        assert(high >> next_shift == 0) by (bit_vector)
            requires
                high == n >> 7,
                n >> shift == 0 || shift == 64,
                next_shift + 7 == shift,
                shift <= 64,
                next_shift >= 8,
        ;
        if round + 1 == 8 {
            assert(high <= 0xff) by (bit_vector)
                requires
                    high >> 8 == 0,
            ;
        }
        let head2 = head.push(b);
        assert(head2 + varint_from(high, round + 1) + tail =~= s);
        lemma_varint_roundtrip_from(head2, high, tail, round + 1);
    }
}

/// Reading the encoding of a number gives the number again.
pub proof fn lemma_varint_roundtrip(n: u64)
    ensures
        varint_read(varint(n), 0) == Some((n, varint(n).len() as int)),
{
    lemma_varint_roundtrip_from(Seq::<u8>::empty(), n, Seq::<u8>::empty(), 0);
    assert(Seq::<u8>::empty() + varint(n) + Seq::<u8>::empty() =~= varint(n));
}

/// Appends the encoding of `num`.
pub fn serialize_u64_varint(num: u64, binary: &mut Vec<u8>)
    ensures
        final(binary)@ == old(binary)@ + varint(num),
{
    let mut rest: u64 = num;
    let mut round: u8 = 0;
    while round < 8
        invariant
            round <= 8,
            old(binary)@ + varint(num) == binary@ + varint_from(rest, round as int),
        decreases 8 - round,
    {
        let low_bits: u8 = (rest & 0x7f) as u8;
        let high: u64 = rest >> 7;
        if high == 0 {
            binary.push(low_bits);
            assert(binary@ =~= old(binary)@ + varint(num));
            return ;
        }
        binary.push(low_bits | 0x80);
        assert(binary@ + varint_from(high, round + 1) =~= old(binary)@ + varint(num));
        rest = high;
        round += 1;
    }
    binary.push(rest as u8);
    assert(binary@ =~= old(binary)@ + varint(num));
}

/// Reads the number that stands at `pos`, and returns it with the place
/// behind it.
pub fn deserialize_u64_varint(data: &[u8], pos: usize) -> (r: Option<(u64, usize)>)
    ensures
        r is Some <==> varint_read(data@, pos as int) is Some,
        r is Some ==> r->Some_0.0 == varint_read(data@, pos as int)->Some_0.0 && r->Some_0.1
            == varint_read(data@, pos as int)->Some_0.1 && pos < r->Some_0.1 <= data@.len(),
{
    read_from(data, pos, 0)
}

fn read_from(data: &[u8], pos: usize, round: u8) -> (r: Option<(u64, usize)>)
    requires
        round <= 8,
    ensures
        r is Some <==> varint_read_from(data@, pos as int, round as int) is Some,
        r is Some ==> r->Some_0.0 == varint_read_from(data@, pos as int, round as int)->Some_0.0
            && r->Some_0.1 == varint_read_from(data@, pos as int, round as int)->Some_0.1 && pos
            < r->Some_0.1 <= data@.len(),
    decreases 8 - round,
{
    if pos >= data.len() {
        return None;
    }
    let byte = data[pos];
    if round >= 8 || byte & 0x80 == 0 {
        return Some((byte as u64, pos + 1));
    }
    match read_from(data, pos + 1, round + 1) {
        Some((high, next)) => Some((((byte & 0x7f) as u64) | (high << 7), next)),
        None => None,
    }
}

} // verus!
