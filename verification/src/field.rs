//! Field and group elements as fixed-width words.

use vstd::prelude::*;
use vstd::arithmetic::power2::lemma2_to64;
use crate::bits::{
    bits_le, bytes_le, bytes_value_le, lemma_bits_le_len, lemma_bits_of_value, lemma_bytes_le_len,
    lemma_value_bound,
    lemma_bytes_of_value, lemma_bytes_value_bound, lemma_value_of_bits, lemma_value_of_bytes, push_bits_be, push_bits_le, push_bytes_le,
    read_bits_be, read_bits_le, read_bytes_le, value_le,
};

verus! {

/// The number of bits in the encoding of a field element.
pub const FIELD_BITS: usize = 256;

/// The number of bytes in the encoding of a field element.
pub const FIELD_BYTES: usize = 32;

/// An element of the base field, held as four 64-bit limbs, least
/// significant limb first.
#[derive(Clone, Copy, Debug, PartialEq, Eq, Structural, Hash)]
pub struct Field {
    pub l0: u64,
    pub l1: u64,
    pub l2: u64,
    pub l3: u64,
}

/// A group element, identified by its x-coordinate.
#[derive(Clone, Copy, Debug, PartialEq, Eq, Structural, Hash)]
pub struct Group {
    pub x: Field,
}

/// Reversing a concatenation swaps the parts.
pub proof fn lemma_reverse_concat<T>(a: Seq<T>, b: Seq<T>)
    ensures
        (a + b).reverse() == b.reverse() + a.reverse(),
{
    assert((a + b).reverse() =~= b.reverse() + a.reverse());
}

impl Field {
    /// The additive identity as a mathematical value.
    pub open spec fn spec_zero() -> Field {
        Field { l0: 0, l1: 0, l2: 0, l3: 0 }
    }

    /// The multiplicative identity as a mathematical value.
    pub open spec fn spec_one() -> Field {
        Field { l0: 1, l1: 0, l2: 0, l3: 0 }
    }

    /// The 256 bits of the element, least significant first.
    pub open spec fn spec_bits_le(self) -> Seq<bool> {
        bits_le(self.l0 as nat, 64) + bits_le(self.l1 as nat, 64) + bits_le(self.l2 as nat, 64)
            + bits_le(self.l3 as nat, 64)
    }

    /// The 256 bits of the element, most significant first.
    pub open spec fn spec_bits_be(self) -> Seq<bool> {
        self.spec_bits_le().reverse()
    }

    /// The element that 256 little-endian bits spell.
    pub open spec fn spec_from_bits_le(bits: Seq<bool>) -> Field {
        Field {
            l0: value_le(bits.subrange(0, 64)) as u64,
            l1: value_le(bits.subrange(64, 128)) as u64,
            l2: value_le(bits.subrange(128, 192)) as u64,
            l3: value_le(bits.subrange(192, 256)) as u64,
        }
    }

    /// The element that 256 big-endian bits spell.
    pub open spec fn spec_from_bits_be(bits: Seq<bool>) -> Field {
        Field::spec_from_bits_le(bits.reverse())
    }

    /// The 32 bytes of the element, least significant first.
    pub open spec fn spec_bytes_le(self) -> Seq<u8> {
        bytes_le(self.l0 as nat, 8) + bytes_le(self.l1 as nat, 8) + bytes_le(self.l2 as nat, 8)
            + bytes_le(self.l3 as nat, 8)
    }

    /// The element that 32 little-endian bytes spell.
    pub open spec fn spec_from_bytes_le(bytes: Seq<u8>) -> Field {
        Field {
            l0: bytes_value_le(bytes.subrange(0, 8)) as u64,
            l1: bytes_value_le(bytes.subrange(8, 16)) as u64,
            l2: bytes_value_le(bytes.subrange(16, 24)) as u64,
            l3: bytes_value_le(bytes.subrange(24, 32)) as u64,
        }
    }

    /// The 256 bits of the element in the order that `le` selects.
    pub open spec fn spec_bits(self, le: bool) -> Seq<bool> {
        if le {
            self.spec_bits_le()
        } else {
            self.spec_bits_be()
        }
    }

    /// The element that 256 bits spell in the order that `le` selects.
    pub open spec fn spec_from_bits(bits: Seq<bool>, le: bool) -> Field {
        if le {
            Field::spec_from_bits_le(bits)
        } else {
            Field::spec_from_bits_be(bits)
        }
    }

    /// The additive identity.
    pub fn zero() -> (r: Field)
        ensures
            r == Field::spec_zero(),
    {
        Field { l0: 0, l1: 0, l2: 0, l3: 0 }
    }

    /// The multiplicative identity.
    pub fn one() -> (r: Field)
        ensures
            r == Field::spec_one(),
    {
        Field { l0: 1, l1: 0, l2: 0, l3: 0 }
    }

    /// The element whose least significant limb is `x` and whose other
    /// limbs are zero.
    pub fn from_u64(x: u64) -> (r: Field)
        ensures
            r == (Field { l0: x, l1: 0, l2: 0, l3: 0 }),
    {
        Field { l0: x, l1: 0, l2: 0, l3: 0 }
    }

    /// Whether this element is the additive identity.
    pub fn is_zero(&self) -> (r: bool)
        ensures
            r == (*self == Field::spec_zero()),
    {
        self.l0 == 0 && self.l1 == 0 && self.l2 == 0 && self.l3 == 0
    }

    /// The encoding has 256 bits, in either order.
    pub proof fn lemma_bits_len(self)
        ensures
            self.spec_bits_le().len() == FIELD_BITS,
            self.spec_bits_be().len() == FIELD_BITS,
    {
        lemma_bits_le_len(self.l0 as nat, 64);
        lemma_bits_le_len(self.l1 as nat, 64);
        lemma_bits_le_len(self.l2 as nat, 64);
        lemma_bits_le_len(self.l3 as nat, 64);
    }

    /// Decoding the bits of an element gives the element back, in either
    /// bit order.
    pub proof fn lemma_bits_round_trip(self)
        ensures
            Field::spec_from_bits_le(self.spec_bits_le()) == self,
            Field::spec_from_bits_be(self.spec_bits_be()) == self,
    {
        let a = bits_le(self.l0 as nat, 64);
        let b = bits_le(self.l1 as nat, 64);
        let c = bits_le(self.l2 as nat, 64);
        let d = bits_le(self.l3 as nat, 64);
        lemma_bits_le_len(self.l0 as nat, 64);
        lemma_bits_le_len(self.l1 as nat, 64);
        lemma_bits_le_len(self.l2 as nat, 64);
        lemma_bits_le_len(self.l3 as nat, 64);
        lemma2_to64();
        lemma_value_of_bits(self.l0 as nat, 64);
        lemma_value_of_bits(self.l1 as nat, 64);
        lemma_value_of_bits(self.l2 as nat, 64);
        lemma_value_of_bits(self.l3 as nat, 64);
        let all = self.spec_bits_le();
        assert(all.subrange(0, 64) =~= a);
        assert(all.subrange(64, 128) =~= b);
        assert(all.subrange(128, 192) =~= c);
        assert(all.subrange(192, 256) =~= d);
        assert(all.reverse().reverse() =~= all);
    }

    /// The encoding has 32 bytes.
    pub proof fn lemma_bytes_len(self)
        ensures
            self.spec_bytes_le().len() == FIELD_BYTES,
    {
        lemma_bytes_le_len(self.l0 as nat, 8);
        lemma_bytes_le_len(self.l1 as nat, 8);
        lemma_bytes_le_len(self.l2 as nat, 8);
        lemma_bytes_le_len(self.l3 as nat, 8);
    }

    /// Decoding the bytes of an element gives the element back.
    pub proof fn lemma_bytes_round_trip(self)
        ensures
            Field::spec_from_bytes_le(self.spec_bytes_le()) == self,
    {
        let a = bytes_le(self.l0 as nat, 8);
        let b = bytes_le(self.l1 as nat, 8);
        let c = bytes_le(self.l2 as nat, 8);
        let d = bytes_le(self.l3 as nat, 8);
        lemma_bytes_le_len(self.l0 as nat, 8);
        lemma_bytes_le_len(self.l1 as nat, 8);
        lemma_bytes_le_len(self.l2 as nat, 8);
        lemma_bytes_le_len(self.l3 as nat, 8);
        lemma2_to64();
        lemma_value_of_bytes(self.l0 as nat, 8);
        lemma_value_of_bytes(self.l1 as nat, 8);
        lemma_value_of_bytes(self.l2 as nat, 8);
        lemma_value_of_bytes(self.l3 as nat, 8);
        let all = self.spec_bytes_le();
        assert(all.subrange(0, 8) =~= a);
        assert(all.subrange(8, 16) =~= b);
        assert(all.subrange(16, 24) =~= c);
        assert(all.subrange(24, 32) =~= d);
    }

    /// Encoding the element that 256 bits spell gives the bits back.
    pub proof fn lemma_bits_of_decoded(bits: Seq<bool>)
        requires
            bits.len() == FIELD_BITS,
        ensures
            Field::spec_from_bits_le(bits).spec_bits_le() == bits,
    {
        let a = bits.subrange(0, 64);
        let b = bits.subrange(64, 128);
        let c = bits.subrange(128, 192);
        let d = bits.subrange(192, 256);
        lemma2_to64();
        lemma_value_bound(a);
        lemma_value_bound(b);
        lemma_value_bound(c);
        lemma_value_bound(d);
        lemma_bits_of_value(a);
        lemma_bits_of_value(b);
        lemma_bits_of_value(c);
        lemma_bits_of_value(d);
        assert(Field::spec_from_bits_le(bits).spec_bits_le() =~= a + b + c + d);
        assert(a + b + c + d =~= bits);
    }

    /// Encoding the element that 32 bytes spell gives the bytes back.
    pub proof fn lemma_bytes_of_decoded(bytes: Seq<u8>)
        requires
            bytes.len() == FIELD_BYTES,
        ensures
            Field::spec_from_bytes_le(bytes).spec_bytes_le() == bytes,
    {
        let a = bytes.subrange(0, 8);
        let b = bytes.subrange(8, 16);
        let c = bytes.subrange(16, 24);
        let d = bytes.subrange(24, 32);
        lemma2_to64();
        lemma_bytes_value_bound(a);
        lemma_bytes_value_bound(b);
        lemma_bytes_value_bound(c);
        lemma_bytes_value_bound(d);
        lemma_bytes_of_value(a);
        lemma_bytes_of_value(b);
        lemma_bytes_of_value(c);
        lemma_bytes_of_value(d);
        assert(Field::spec_from_bytes_le(bytes).spec_bytes_le() =~= a + b + c + d);
        assert(a + b + c + d =~= bytes);
    }

    /// Appends the bits of the element, least significant first.
    pub fn push_bits_le(&self, out: &mut Vec<bool>)
        ensures
            final(out)@ == old(out)@ + self.spec_bits_le(),
    {
        push_bits_le(out, self.l0, 64);
        push_bits_le(out, self.l1, 64);
        push_bits_le(out, self.l2, 64);
        push_bits_le(out, self.l3, 64);
        assert(out@ =~= old(out)@ + self.spec_bits_le());
    }

    /// Appends the bits of the element, most significant first.
    pub fn push_bits_be(&self, out: &mut Vec<bool>)
        ensures
            final(out)@ == old(out)@ + self.spec_bits_be(),
    {
        push_bits_be(out, self.l3, 64);
        push_bits_be(out, self.l2, 64);
        push_bits_be(out, self.l1, 64);
        push_bits_be(out, self.l0, 64);
        proof {
            let a = bits_le(self.l0 as nat, 64);
            let b = bits_le(self.l1 as nat, 64);
            let c = bits_le(self.l2 as nat, 64);
            let d = bits_le(self.l3 as nat, 64);
            lemma_reverse_concat(a + b + c, d);
            lemma_reverse_concat(a + b, c);
            lemma_reverse_concat(a, b);
            assert(out@ =~= old(out)@ + self.spec_bits_be());
        }
    }

    /// The bits of the element, least significant first.
    pub fn to_bits_le(&self) -> (r: Vec<bool>)
        ensures
            r@ == self.spec_bits_le(),
    {
        let mut out: Vec<bool> = Vec::new();
        self.push_bits_le(&mut out);
        assert(out@ =~= self.spec_bits_le());
        out
    }

    /// The bits of the element, most significant first.
    pub fn to_bits_be(&self) -> (r: Vec<bool>)
        ensures
            r@ == self.spec_bits_be(),
    {
        let mut out: Vec<bool> = Vec::new();
        self.push_bits_be(&mut out);
        assert(out@ =~= self.spec_bits_be());
        out
    }

    /// Reads an element from the 256 little-endian bits at `start`.
    pub fn read_bits_le(bits: &Vec<bool>, start: usize) -> (r: Field)
        requires
            start + FIELD_BITS <= bits@.len(),
        ensures
            r == Field::spec_from_bits_le(bits@.subrange(start as int, start + FIELD_BITS)),
    {
        let ghost window = bits@.subrange(start as int, start + FIELD_BITS);
        proof {
            assert(window.subrange(0, 64) =~= bits@.subrange(start as int, start + 64));
            assert(window.subrange(64, 128) =~= bits@.subrange(start + 64, start + 128));
            assert(window.subrange(128, 192) =~= bits@.subrange(start + 128, start + 192));
            assert(window.subrange(192, 256) =~= bits@.subrange(start + 192, start + 256));
        }
        let len: usize = bits.len();
        assert(start + FIELD_BITS <= len);
        let l0 = read_bits_le(bits, start, 64);
        let l1 = read_bits_le(bits, start + 64, 64);
        let l2 = read_bits_le(bits, start + 128, 64);
        let l3 = read_bits_le(bits, start + 192, 64);
        Field { l0, l1, l2, l3 }
    }

    /// Reads an element from the 256 big-endian bits at `start`.
    pub fn read_bits_be(bits: &Vec<bool>, start: usize) -> (r: Field)
        requires
            start + FIELD_BITS <= bits@.len(),
        ensures
            r == Field::spec_from_bits_be(bits@.subrange(start as int, start + FIELD_BITS)),
    {
        let ghost window = bits@.subrange(start as int, start + FIELD_BITS);
        proof {
            let rev = window.reverse();
            assert(rev.subrange(0, 64) =~= bits@.subrange(start + 192, start + 256).reverse());
            assert(rev.subrange(64, 128) =~= bits@.subrange(start + 128, start + 192).reverse());
            assert(rev.subrange(128, 192) =~= bits@.subrange(start + 64, start + 128).reverse());
            assert(rev.subrange(192, 256) =~= bits@.subrange(start as int, start + 64).reverse());
        }
        let len: usize = bits.len();
        assert(start + FIELD_BITS <= len);
        let l3 = read_bits_be(bits, start, 64);
        let l2 = read_bits_be(bits, start + 64, 64);
        let l1 = read_bits_be(bits, start + 128, 64);
        let l0 = read_bits_be(bits, start + 192, 64);
        Field { l0, l1, l2, l3 }
    }

    /// Appends the bits of the element in the order that `le` selects.
    pub fn push_bits(&self, out: &mut Vec<bool>, le: bool)
        ensures
            final(out)@ == old(out)@ + self.spec_bits(le),
    {
        if le {
            self.push_bits_le(out);
        } else {
            self.push_bits_be(out);
        }
    }

    /// Reads an element from the 256 bits at `start` in the order that `le`
    /// selects.
    pub fn read_bits(bits: &Vec<bool>, start: usize, le: bool) -> (r: Field)
        requires
            start + FIELD_BITS <= bits@.len(),
        ensures
            r == Field::spec_from_bits(bits@.subrange(start as int, start + FIELD_BITS), le),
    {
        if le {
            Field::read_bits_le(bits, start)
        } else {
            Field::read_bits_be(bits, start)
        }
    }

    /// Appends the bytes of the element, least significant first.
    pub fn push_bytes_le(&self, out: &mut Vec<u8>)
        ensures
            final(out)@ == old(out)@ + self.spec_bytes_le(),
    {
        push_bytes_le(out, self.l0, 8);
        push_bytes_le(out, self.l1, 8);
        push_bytes_le(out, self.l2, 8);
        push_bytes_le(out, self.l3, 8);
        assert(out@ =~= old(out)@ + self.spec_bytes_le());
    }

    /// Reads an element from the 32 little-endian bytes at `start`.
    pub fn read_bytes_le(bytes: &Vec<u8>, start: usize) -> (r: Field)
        requires
            start + FIELD_BYTES <= bytes@.len(),
        ensures
            r == Field::spec_from_bytes_le(bytes@.subrange(start as int, start + FIELD_BYTES)),
    {
        let ghost window = bytes@.subrange(start as int, start + FIELD_BYTES);
        proof {
            assert(window.subrange(0, 8) =~= bytes@.subrange(start as int, start + 8));
            assert(window.subrange(8, 16) =~= bytes@.subrange(start + 8, start + 16));
            assert(window.subrange(16, 24) =~= bytes@.subrange(start + 16, start + 24));
            assert(window.subrange(24, 32) =~= bytes@.subrange(start + 24, start + 32));
        }
        let len: usize = bytes.len();
        assert(start + FIELD_BYTES <= len);
        let l0 = read_bytes_le(bytes, start, 8);
        let l1 = read_bytes_le(bytes, start + 8, 8);
        let l2 = read_bytes_le(bytes, start + 16, 8);
        let l3 = read_bytes_le(bytes, start + 24, 8);
        Field { l0, l1, l2, l3 }
    }
}

} // verus!
