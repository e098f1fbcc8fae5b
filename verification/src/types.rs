//! Account addresses and 256-bit hashes, held as big-endian integers.

use vstd::prelude::*;
use crate::bytes::{
    be_bytes, be_value, lemma_be_bytes_len, lemma_be_bytes_of_be_value, lemma_be_value_bound,
    lemma_be_value_concat, lemma_be_value_of_be_bytes, lemma_be_value_order, lemma_pow256_values,
    lex_less, push_be, read_be,
};

verus! {

/// Number of bytes of an address.
pub const ADDRESS_LENGTH: usize = 20;

/// Number of bytes of a hash.
pub const HASH_LENGTH: usize = 32;

/// A 160-bit account address: the big-endian number made of its 20 bytes,
/// split into the upper 4 bytes and the lower 16.
///
/// Addresses are ordered as these numbers are, which is the order of
/// their byte strings.
#[derive(Clone, Copy, Debug, PartialEq, Eq, Structural, Hash)]
pub struct Address {
    pub hi: u32,
    pub lo: u128,
}

/// A 256-bit hash: the big-endian number made of its 32 bytes, split into
/// two halves.
#[derive(Clone, Copy, Debug, PartialEq, Eq, Structural, Hash)]
pub struct H256 {
    pub hi: u128,
    pub lo: u128,
}

/// A 256-bit unsigned number, `hi * 2^128 + lo`.
#[derive(Clone, Copy, Debug, PartialEq, Eq, Structural, Hash)]
pub struct U256 {
    pub hi: u128,
    pub lo: u128,
}

impl U256 {
    /// The number that the two halves denote.
    pub open spec fn value(self) -> nat {
        self.hi as nat * 0x1_0000_0000_0000_0000_0000_0000_0000_0000 + self.lo as nat
    }

    /// The 256-bit number equal to `v`.
    pub fn from_u64(v: u64) -> (n: U256)
        ensures
            n.value() == v,
    {
        U256 { hi: 0, lo: v as u128 }
    }

    /// Whether `self` is strictly greater than `other`.
    pub fn is_greater(&self, other: &U256) -> (b: bool)
        ensures
            b == (self.value() > other.value()),
    {
        self.hi > other.hi || (self.hi == other.hi && self.lo > other.lo)
    }
}

/// Strict order of addresses.
pub open spec fn precedes(a: Address, b: Address) -> bool {
    a.hi < b.hi || (a.hi == b.hi && a.lo < b.lo)
}

/// The first `k` bytes of the concatenation belong to the first part.
proof fn lemma_split_concat(front: Seq<u8>, back: Seq<u8>)
    ensures
        (front + back).subrange(0, front.len() as int) == front,
        (front + back).subrange(front.len() as int, (front + back).len() as int) == back,
{
    assert((front + back).subrange(0, front.len() as int) =~= front);
    assert((front + back).subrange(front.len() as int, (front + back).len() as int) =~= back);
}

impl Address {
    /// The 20 bytes of the address.
    pub open spec fn bytes(self) -> Seq<u8> {
        be_bytes(self.hi as nat, 4) + be_bytes(self.lo as nat, 16)
    }

    /// The address whose bytes are all zero.
    pub fn zero() -> (a: Address)
        ensures
            a == (Address { hi: 0, lo: 0 }),
    {
        Address { hi: 0, lo: 0 }
    }

    pub fn is_zero(&self) -> (b: bool)
        ensures
            b == (*self == Address { hi: 0, lo: 0 }),
    {
        self.hi == 0 && self.lo == 0
    }

    /// Whether `self` comes strictly before `other`.
    pub fn is_before(&self, other: &Address) -> (b: bool)
        ensures
            b == precedes(*self, *other),
    {
        self.hi < other.hi || (self.hi == other.hi && self.lo < other.lo)
    }

    /// The address that 20 bytes denote.
    pub open spec fn from_seq(bytes: Seq<u8>) -> Address {
        Address {
            hi: be_value(bytes.subrange(0, 4)) as u32,
            lo: be_value(bytes.subrange(4, 20)) as u128,
        }
    }

    /// The address made of `bytes[start .. start + 20]`.
    pub fn read(bytes: &[u8], start: usize) -> (a: Address)
        requires
            start + 20 <= bytes@.len(),
        ensures
            a == Address::from_seq(bytes@.subrange(start as int, start + 20)),
            a.bytes() == bytes@.subrange(start as int, start + 20),
    {
        let len: usize = bytes.len();
        let hi = read_be(bytes, start, 4);
        let lo = read_be(bytes, start + 4, 16);
        let ghost all = bytes@.subrange(start as int, start + 20);
        let ghost top = bytes@.subrange(start as int, start + 4);
        let ghost low = bytes@.subrange(start + 4, start + 20);
        proof {
            lemma_pow256_values();
            lemma_be_value_bound(top);
            lemma_be_value_bound(low);
            lemma_be_bytes_of_be_value(top);
            lemma_be_bytes_of_be_value(low);
            assert(top + low =~= all);
            assert(all.subrange(0, 4) =~= top);
            assert(all.subrange(4, 20) =~= low);
        }
        Address { hi: hi as u32, lo }
    }

    /// The address made of the 20 bytes in `bytes`, if there are 20.
    pub fn from_bytes(bytes: &[u8]) -> (r: Option<Address>)
        ensures
            r is Some <==> bytes@.len() == 20,
            r matches Some(a) ==> a == Address::from_seq(bytes@) && a.bytes() == bytes@,
    {
        if bytes.len() == ADDRESS_LENGTH {
            let a = Address::read(bytes, 0);
            assert(bytes@.subrange(0, 20) =~= bytes@);
            Some(a)
        } else {
            None
        }
    }

    /// The 20 bytes of the address.
    pub fn to_vec(&self) -> (out: Vec<u8>)
        ensures
            out@ == self.bytes(),
    {
        let mut out: Vec<u8> = Vec::new();
        push_be(&mut out, self.hi as u128, 4);
        push_be(&mut out, self.lo, 16);
        assert(out@ =~= self.bytes());
        out
    }

    /// An address has 20 bytes, and its bytes determine it.
    pub proof fn lemma_bytes(self)
        ensures
            self.bytes().len() == 20,
            be_value(self.bytes().subrange(0, 4)) == self.hi,
            be_value(self.bytes().subrange(4, 20)) == self.lo,
            Address::from_seq(self.bytes()) == self,
    {
        lemma_pow256_values();
        lemma_be_bytes_len(self.hi as nat, 4);
        lemma_be_bytes_len(self.lo as nat, 16);
        lemma_split_concat(be_bytes(self.hi as nat, 4), be_bytes(self.lo as nat, 16));
        lemma_be_value_of_be_bytes(self.hi as nat, 4);
        lemma_be_value_of_be_bytes(self.lo as nat, 16);
    }

    /// Two addresses with the same bytes are the same address.
    pub proof fn lemma_bytes_injective(a: Address, b: Address)
        requires
            a.bytes() == b.bytes(),
        ensures
            a == b,
    {
        a.lemma_bytes();
        b.lemma_bytes();
    }

    /// The order of addresses is the order of their byte strings.
    pub proof fn lemma_order_is_byte_order(a: Address, b: Address)
        ensures
            precedes(a, b) <==> lex_less(a.bytes(), b.bytes()),
    {
        lemma_pow256_values();
        a.lemma_bytes();
        b.lemma_bytes();
        lemma_be_bytes_len(a.lo as nat, 16);
        lemma_be_bytes_len(b.lo as nat, 16);
        lemma_be_value_of_be_bytes(a.hi as nat, 4);
        lemma_be_value_of_be_bytes(a.lo as nat, 16);
        lemma_be_value_of_be_bytes(b.hi as nat, 4);
        lemma_be_value_of_be_bytes(b.lo as nat, 16);
        lemma_be_value_concat(be_bytes(a.hi as nat, 4), be_bytes(a.lo as nat, 16));
        lemma_be_value_concat(be_bytes(b.hi as nat, 4), be_bytes(b.lo as nat, 16));
        lemma_be_value_order(a.bytes(), b.bytes());
    }
}

impl H256 {
    /// The 32 bytes of the hash.
    pub open spec fn bytes(self) -> Seq<u8> {
        be_bytes(self.hi as nat, 16) + be_bytes(self.lo as nat, 16)
    }

    /// The hash whose bytes are all zero.
    pub fn zero() -> (h: H256)
        ensures
            h == (H256 { hi: 0, lo: 0 }),
    {
        H256 { hi: 0, lo: 0 }
    }

    pub fn is_zero(&self) -> (b: bool)
        ensures
            b == (*self == H256 { hi: 0, lo: 0 }),
    {
        self.hi == 0 && self.lo == 0
    }

    /// The hash that 32 bytes denote.
    pub open spec fn from_seq(bytes: Seq<u8>) -> H256 {
        H256 {
            hi: be_value(bytes.subrange(0, 16)) as u128,
            lo: be_value(bytes.subrange(16, 32)) as u128,
        }
    }

    /// The hash made of `bytes[start .. start + 32]`.
    pub fn read(bytes: &[u8], start: usize) -> (h: H256)
        requires
            start + 32 <= bytes@.len(),
        ensures
            h == H256::from_seq(bytes@.subrange(start as int, start + 32)),
            h.bytes() == bytes@.subrange(start as int, start + 32),
    {
        let len: usize = bytes.len();
        let hi = read_be(bytes, start, 16);
        let lo = read_be(bytes, start + 16, 16);
        let ghost all = bytes@.subrange(start as int, start + 32);
        let ghost top = bytes@.subrange(start as int, start + 16);
        let ghost low = bytes@.subrange(start + 16, start + 32);
        proof {
            lemma_be_bytes_of_be_value(top);
            lemma_be_bytes_of_be_value(low);
            assert(top + low =~= all);
            assert(all.subrange(0, 16) =~= top);
            assert(all.subrange(16, 32) =~= low);
        }
        H256 { hi, lo }
    }

    /// The hash made of the 32 bytes in `bytes`, if there are 32.
    pub fn from_bytes(bytes: &[u8]) -> (r: Option<H256>)
        ensures
            r is Some <==> bytes@.len() == 32,
            r matches Some(h) ==> h == H256::from_seq(bytes@) && h.bytes() == bytes@,
    {
        if bytes.len() == HASH_LENGTH {
            let h = H256::read(bytes, 0);
            assert(bytes@.subrange(0, 32) =~= bytes@);
            Some(h)
        } else {
            None
        }
    }

    /// The 32 bytes of the hash.
    pub fn to_vec(&self) -> (out: Vec<u8>)
        ensures
            out@ == self.bytes(),
    {
        let mut out: Vec<u8> = Vec::new();
        push_be(&mut out, self.hi, 16);
        push_be(&mut out, self.lo, 16);
        assert(out@ =~= self.bytes());
        out
    }

    /// A hash has 32 bytes, and its bytes determine it.
    pub proof fn lemma_bytes(self)
        ensures
            self.bytes().len() == 32,
            be_value(self.bytes().subrange(0, 16)) == self.hi,
            be_value(self.bytes().subrange(16, 32)) == self.lo,
            H256::from_seq(self.bytes()) == self,
    {
        lemma_pow256_values();
        lemma_be_bytes_len(self.hi as nat, 16);
        lemma_be_bytes_len(self.lo as nat, 16);
        lemma_split_concat(be_bytes(self.hi as nat, 16), be_bytes(self.lo as nat, 16));
        lemma_be_value_of_be_bytes(self.hi as nat, 16);
        lemma_be_value_of_be_bytes(self.lo as nat, 16);
    }

    /// Two hashes with the same bytes are the same hash.
    pub proof fn lemma_bytes_injective(a: H256, b: H256)
        requires
            a.bytes() == b.bytes(),
        ensures
            a == b,
    {
        a.lemma_bytes();
        b.lemma_bytes();
    }
}

} // verus!
