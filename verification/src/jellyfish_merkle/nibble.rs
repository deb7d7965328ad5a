//! Nibbles and paths of nibbles.

use vstd::prelude::*;

verus! {

/// The height of the root of the tree, and so the most nibbles in a path.
pub const ROOT_NIBBLE_HEIGHT: usize = 64;

/// A value of four bits.
#[derive(Clone, Copy, Debug, PartialEq, Eq, Hash, PartialOrd, Ord)]
pub struct Nibble {
    value: u8,
}

impl View for Nibble {
    type V = u8;

    closed spec fn view(&self) -> u8 {
        self.value
    }
}

impl Nibble {
    #[verifier::type_invariant]
    spec fn inv(self) -> bool {
        self.value < 16
    }

    /// The nibble with the value `value`, which is below sixteen.
    pub fn new(value: u8) -> (r: Self)
        requires
            value < 16,
        ensures
            r@ == value,
    {
        Nibble { value }
    }

    /// The value of the nibble; it is below sixteen.
    pub fn value(&self) -> (r: u8)
        ensures
            r == self@,
            r < 16,
    {
        proof {
            use_type_invariant(self);
        }
        self.value
    }
}

/// The nibble at place `i` of a packed path: the high half of a byte at an
/// even place, the low half at an odd one.
pub open spec fn nibble_at(bytes: Seq<u8>, i: int) -> u8 {
    if i % 2 == 0 {
        bytes[i / 2] >> 4
    } else {
        bytes[i / 2] & 0x0f
    }
}

/// The nibbles of a packed path of `num_nibbles` nibbles.
pub open spec fn unpacked(bytes: Seq<u8>, num_nibbles: int) -> Seq<u8> {
    Seq::new(num_nibbles as nat, |i: int| nibble_at(bytes, i))
}

/// Whether bytes pack a path of `num_nibbles` nibbles: the path is no longer
/// than the tree is high, there is a byte for every two nibbles, and the low
/// half of the last byte is zero where the number of nibbles is odd.
pub open spec fn packs(bytes: Seq<u8>, num_nibbles: int) -> bool {
    &&& 0 <= num_nibbles <= ROOT_NIBBLE_HEIGHT
    &&& bytes.len() == (num_nibbles + 1) / 2
    &&& (num_nibbles % 2 == 1 ==> bytes.last() & 0x0f == 0)
}

/// A path of nibbles, two to a byte.
#[derive(Debug, PartialEq, Eq, Hash)]
pub struct NibblePath {
    num_nibbles: usize,
    bytes: Vec<u8>,
}

impl View for NibblePath {
    type V = Seq<u8>;

    /// The nibbles of the path.
    closed spec fn view(&self) -> Seq<u8> {
        unpacked(self.bytes@, self.num_nibbles as int)
    }
}

impl Clone for NibblePath {
    fn clone(&self) -> (r: Self)
        ensures
            r@ == self@,
            r.spec_bytes() == self.spec_bytes(),
            r.spec_num_nibbles() == self.spec_num_nibbles(),
    {
        proof {
            use_type_invariant(self);
        }
        NibblePath { num_nibbles: self.num_nibbles, bytes: self.bytes.clone() }
    }
}

impl NibblePath {
    #[verifier::type_invariant]
    spec fn inv(self) -> bool {
        packs(self.bytes@, self.num_nibbles as int)
    }

    /// The bytes that pack the path.
    pub closed spec fn spec_bytes(&self) -> Seq<u8> {
        self.bytes@
    }

    /// The number of nibbles of the path.
    pub closed spec fn spec_num_nibbles(&self) -> int {
        self.num_nibbles as int
    }

    /// A path is packed as its invariant says, and its nibbles are those of
    /// its bytes.
    pub fn check_packed(&self)
        ensures
            packs(self.spec_bytes(), self.spec_num_nibbles()),
            self@ == unpacked(self.spec_bytes(), self.spec_num_nibbles()),
            self@.len() == self.spec_num_nibbles(),
    {
        proof {
            use_type_invariant(self);
        }
    }

    /// The path of an even number of nibbles that the bytes pack.
    pub fn new(bytes: Vec<u8>) -> (r: Self)
        requires
            bytes@.len() <= ROOT_NIBBLE_HEIGHT / 2,
        ensures
            r.spec_bytes() == bytes@,
            r.spec_num_nibbles() == 2 * bytes@.len(),
            r@ == unpacked(bytes@, 2 * bytes@.len() as int),
    {
        let num_nibbles = bytes.len() * 2;
        NibblePath { num_nibbles, bytes }
    }

    /// The path of an odd number of nibbles that the bytes pack; the low
    /// half of the last byte is zero.
    pub fn new_odd(bytes: Vec<u8>) -> (r: Self)
        requires
            1 <= bytes@.len() <= ROOT_NIBBLE_HEIGHT / 2,
            bytes@.last() & 0x0f == 0,
        ensures
            r.spec_bytes() == bytes@,
            r.spec_num_nibbles() == 2 * bytes@.len() - 1,
            r@ == unpacked(bytes@, 2 * bytes@.len() as int - 1),
    {
        let num_nibbles = bytes.len() * 2 - 1;
        NibblePath { num_nibbles, bytes }
    }

    /// The number of nibbles of the path.
    pub fn num_nibbles(&self) -> (r: usize)
        ensures
            r == self@.len(),
            r == self.spec_num_nibbles(),
            r <= ROOT_NIBBLE_HEIGHT,
    {
        proof {
            use_type_invariant(self);
        }
        self.num_nibbles
    }

    /// Whether the path holds no nibble.
    pub fn is_empty(&self) -> (r: bool)
        ensures
            r == (self@.len() == 0),
    {
        self.num_nibbles() == 0
    }

    /// The bytes that pack the path.
    pub fn bytes(&self) -> (r: &[u8])
        ensures
            r@ == self.spec_bytes(),
    {
        self.bytes.as_slice()
    }

    /// The nibble at place `i`.
    pub fn get_nibble(&self, i: usize) -> (r: Nibble)
        requires
            i < self@.len(),
        ensures
            r@ == self@[i as int],
    {
        proof {
            use_type_invariant(self);
        }
        let byte = self.bytes[i / 2];
        let value = if i % 2 == 0 {
            byte >> 4
        } else {
            byte & 0x0f
        };
        assert(byte >> 4 < 16 && byte & 0x0f < 16) by (bit_vector);
        Nibble::new(value)
    }

    /// Adds a nibble at the end of a path that is not as long as the tree is
    /// high.
    pub fn push(&mut self, nibble: Nibble)
        requires
            old(self)@.len() < ROOT_NIBBLE_HEIGHT,
        ensures
            final(self)@ == old(self)@.push(nibble@),
    {
        proof {
            use_type_invariant(&*self);
        }
        let value = nibble.value();
        let mut bytes = self.bytes.clone();
        let n = self.num_nibbles;
        let ghost before = self.bytes@;
        assert(bytes@ =~= before);
        if n % 2 == 0 {
            let byte = value << 4;
            assert((byte >> 4) == value && byte & 0x0f == 0) by (bit_vector)
                requires
                    byte == value << 4,
                    value < 16,
            ;
            bytes.push(byte);
            assert(unpacked(bytes@, n + 1) =~= unpacked(before, n as int).push(value)) by {
                assert forall|i: int| 0 <= i < n implies nibble_at(bytes@, i) == nibble_at(
                    before,
                    i,
                ) by {
                    assert(bytes@[i / 2] == before[i / 2]);
                }
            }
        } else {
            let last = bytes.len() - 1;
            let low = bytes[last];
            let byte = low | value;
            assert((byte >> 4) == (low >> 4) && byte & 0x0f == value) by (bit_vector)
                requires
                    byte == low | value,
                    value < 16,
                    low & 0x0f == 0,
            ;
            bytes[last] = byte;
            assert(unpacked(bytes@, n + 1) =~= unpacked(before, n as int).push(value)) by {
                assert forall|i: int| 0 <= i < n implies nibble_at(bytes@, i) == nibble_at(
                    before,
                    i,
                ) by {
                    if i / 2 < last {
                        assert(bytes@[i / 2] == before[i / 2]);
                    }
                }
            }
        }
        *self = NibblePath { num_nibbles: n + 1, bytes };
    }

    /// Takes the last nibble off the path, if there is one.
    pub fn pop(&mut self) -> (r: Option<Nibble>)
        ensures
            r is Some <==> old(self)@.len() > 0,
            r is Some ==> r->Some_0@ == old(self)@.last() && final(self)@ == old(self)@.drop_last(),
            r is None ==> final(self)@ == old(self)@,
    {
        proof {
            use_type_invariant(&*self);
        }
        if self.num_nibbles == 0 {
            return None;
        }
        let mut bytes = self.bytes.clone();
        let n = self.num_nibbles;
        let ghost before = self.bytes@;
        assert(bytes@ =~= before);
        let last = bytes.len() - 1;
        let byte = bytes[last];
        assert(byte >> 4 < 16 && byte & 0x0f < 16 && (byte & 0xf0) & 0x0f == 0 && (byte & 0xf0) >> 4
            == byte >> 4) by (bit_vector);
        if n % 2 == 0 {
            bytes[last] = byte & 0xf0;
            assert(unpacked(bytes@, n - 1) =~= unpacked(before, n as int).drop_last()) by {
                assert forall|i: int| 0 <= i < n - 1 implies nibble_at(bytes@, i) == nibble_at(
                    before,
                    i,
                ) by {
                    if i / 2 < last {
                        assert(bytes@[i / 2] == before[i / 2]);
                    }
                }
            }
            *self = NibblePath { num_nibbles: n - 1, bytes };
            Some(Nibble::new(byte & 0x0f))
        } else {
            bytes.pop();
            assert(unpacked(bytes@, n - 1) =~= unpacked(before, n as int).drop_last()) by {
                assert forall|i: int| 0 <= i < n - 1 implies nibble_at(bytes@, i) == nibble_at(
                    before,
                    i,
                ) by {
                    assert(bytes@[i / 2] == before[i / 2]);
                }
            }
            *self = NibblePath { num_nibbles: n - 1, bytes };
            Some(Nibble::new(byte >> 4))
        }
    }
}

} // verus!
