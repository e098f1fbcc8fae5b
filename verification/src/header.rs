//! Block headers as the engine reads them, and the layout of their extra
//! data: 32 bytes of vanity, on a checkpoint the signer list at 20 bytes an
//! address, and the 65 bytes of the seal signature.

use vstd::prelude::*;
use crate::bytes::{be_bytes, copy_range, minimal_be, minimal_be_bytes, push_be};
use crate::error::ValidationError;
use crate::outside::byte_strings;
use crate::types::{Address, H256};

verus! {

/// Bytes of extra data reserved for the signer's vanity.
pub const SIGNER_VANITY_LENGTH: usize = 32;

/// Bytes of extra data reserved for the signer's seal.
pub const SIGNER_SIG_LENGTH: usize = 65;

/// Nonce of a vote to remove the beneficiary from the signers.
pub const NONCE_DROP_VOTE: u64 = 0;

/// Nonce of a vote to add the beneficiary to the signers.
pub const NONCE_AUTH_VOTE: u64 = 0xffff_ffff_ffff_ffff;

/// A recoverable ECDSA signature: `r`, `s` and the recovery id.
#[derive(Clone, Copy, Debug, PartialEq, Eq, Structural)]
pub struct Signature {
    pub r: H256,
    pub s: H256,
    pub v: u8,
}

impl Signature {
    /// The 64 bytes of `r` and `s`.
    pub open spec fn compact(self) -> Seq<u8> {
        self.r.bytes() + self.s.bytes()
    }

    /// The 65 bytes of the signature as a header carries them.
    pub open spec fn bytes(self) -> Seq<u8> {
        self.compact().push(self.v)
    }

    /// The signature that 65 bytes denote.
    pub open spec fn from_seq(bytes: Seq<u8>) -> Signature {
        Signature {
            r: H256::from_seq(bytes.subrange(0, 32)),
            s: H256::from_seq(bytes.subrange(32, 64)),
            v: bytes[64],
        }
    }

    /// The signature made of `bytes[start .. start + 65]`.
    pub fn read(bytes: &[u8], start: usize) -> (signature: Signature)
        requires
            start + 65 <= bytes@.len(),
        ensures
            signature == Signature::from_seq(bytes@.subrange(start as int, start + 65)),
            signature.bytes() == bytes@.subrange(start as int, start + 65),
    {
        let len: usize = bytes.len();
        let r = H256::read(bytes, start);
        let s = H256::read(bytes, start + 32);
        let v = bytes[start + 64];
        let signature = Signature { r, s, v };
        proof {
            let all = bytes@.subrange(start as int, start + 65);
            assert(all.subrange(0, 32) =~= bytes@.subrange(start as int, start + 32));
            assert(all.subrange(32, 64) =~= bytes@.subrange(start + 32, start + 64));
            assert(signature.bytes() =~= all);
        }
        signature
    }

    /// The 64 bytes of `r` and `s`.
    pub fn compact_vec(&self) -> (out: Vec<u8>)
        ensures
            out@ == self.compact(),
    {
        let mut out: Vec<u8> = Vec::new();
        push_be(&mut out, self.r.hi, 16);
        push_be(&mut out, self.r.lo, 16);
        push_be(&mut out, self.s.hi, 16);
        push_be(&mut out, self.s.lo, 16);
        assert(out@ =~= self.compact());
        out
    }

    /// The 65 bytes of the signature.
    pub fn to_vec(&self) -> (out: Vec<u8>)
        ensures
            out@ == self.bytes(),
    {
        let mut out = self.compact_vec();
        out.push(self.v);
        out
    }

    /// A signature has 65 bytes, and its bytes determine it.
    pub proof fn lemma_bytes(self)
        ensures
            self.compact().len() == 64,
            self.bytes().len() == 65,
            Signature::from_seq(self.bytes()) == self,
    {
        self.r.lemma_bytes();
        self.s.lemma_bytes();
        assert(self.bytes().subrange(0, 32) =~= self.r.bytes());
        assert(self.bytes().subrange(32, 64) =~= self.s.bytes());
    }
}

/// A block header, with every field that its hash covers.
#[derive(Clone, Debug)]
pub struct Header {
    pub parent_hash: H256,
    pub uncles_hash: H256,
    /// The beneficiary: on a block that is no checkpoint, the address that
    /// the sealer votes on, or zero for no vote.
    pub author: Address,
    pub state_root: H256,
    pub transactions_root: H256,
    pub receipts_root: H256,
    pub log_bloom: Vec<u8>,
    pub difficulty: u64,
    pub number: u64,
    pub gas_limit: u64,
    pub gas_used: u64,
    pub timestamp: u64,
    pub extra_data: Vec<u8>,
    pub mix_hash: H256,
    /// The direction of the vote.
    pub nonce: u64,
}

/// What a header holds, with its byte strings as sequences.
pub ghost struct HeaderView {
    pub parent_hash: H256,
    pub uncles_hash: H256,
    pub author: Address,
    pub state_root: H256,
    pub transactions_root: H256,
    pub receipts_root: H256,
    pub log_bloom: Seq<u8>,
    pub difficulty: u64,
    pub number: u64,
    pub gas_limit: u64,
    pub gas_used: u64,
    pub timestamp: u64,
    pub extra_data: Seq<u8>,
    pub mix_hash: H256,
    pub nonce: u64,
}

impl View for Header {
    type V = HeaderView;

    open spec fn view(&self) -> HeaderView {
        HeaderView {
            parent_hash: self.parent_hash,
            uncles_hash: self.uncles_hash,
            author: self.author,
            state_root: self.state_root,
            transactions_root: self.transactions_root,
            receipts_root: self.receipts_root,
            log_bloom: self.log_bloom@,
            difficulty: self.difficulty,
            number: self.number,
            gas_limit: self.gas_limit,
            gas_used: self.gas_used,
            timestamp: self.timestamp,
            extra_data: self.extra_data@,
            mix_hash: self.mix_hash,
            nonce: self.nonce,
        }
    }
}

impl HeaderView {
    /// The same header with other extra data.
    pub open spec fn with_extra_data(self, extra_data: Seq<u8>) -> HeaderView {
        HeaderView { extra_data, ..self }
    }

    /// The header without the signature at the end of its extra data.
    pub open spec fn unsealed(self) -> HeaderView {
        self.with_extra_data(self.extra_data.take(self.extra_data.len() - 65))
    }

    /// The header with `signature` in the place of the last 65 bytes of
    /// its extra data.
    pub open spec fn sealed_with(self, signature: Signature) -> HeaderView {
        self.with_extra_data(self.unsealed().extra_data + signature.bytes())
    }

    /// The 65 bytes at the end of the extra data.
    pub open spec fn seal(self) -> Seq<u8> {
        self.extra_data.subrange(self.extra_data.len() - 65, self.extra_data.len() as int)
    }

    /// The signer list between vanity and signature: as many addresses as
    /// fit there whole, and none where the extra data is too short for
    /// vanity and signature.
    pub open spec fn signers(self) -> Seq<Address> {
        if self.extra_data.len() < 97 {
            Seq::empty()
        } else {
            Seq::new(
                ((self.extra_data.len() - 97) / 20) as nat,
                |i: int| Address::from_seq(self.extra_data.subrange(32 + 20 * i, 52 + 20 * i)),
            )
        }
    }

    /// The byte strings that the header's encoding lists, in order: hashes
    /// and address in full, numbers in their shortest big-endian form, the
    /// nonce on 8 bytes.
    pub open spec fn fields(self) -> Seq<Seq<u8>> {
        seq![
            self.parent_hash.bytes(),
            self.uncles_hash.bytes(),
            self.author.bytes(),
            self.state_root.bytes(),
            self.transactions_root.bytes(),
            self.receipts_root.bytes(),
            self.log_bloom,
            minimal_be(self.difficulty),
            minimal_be(self.number),
            minimal_be(self.gas_limit),
            minimal_be(self.gas_used),
            minimal_be(self.timestamp),
            self.extra_data,
            self.mix_hash.bytes(),
            be_bytes(self.nonce as nat, 8),
        ]
    }
}

/// Whether `number` is a multiple of `epoch`.
pub open spec fn is_checkpoint(number: u64, epoch: u64) -> bool {
    number % epoch == 0
}

/// The verdict of the checks that need no ancestry, in this order: a
/// checkpoint names no beneficiary and carries the drop nonce; the extra
/// data holds vanity and signature; a checkpoint lists a whole number of
/// signers between them.
pub open spec fn basic_verdict(header: HeaderView, epoch: u64) -> Result<(), ValidationError> {
    if is_checkpoint(header.number, epoch) && (header.author != (Address { hi: 0, lo: 0 })
        || header.nonce != NONCE_DROP_VOTE) {
        Err(ValidationError::CheckpointConstraintViolation)
    } else if header.extra_data.len() < 97 {
        Err(ValidationError::MalformedExtraData)
    } else if is_checkpoint(header.number, epoch) && (header.extra_data.len() - 97) % 20 != 0 {
        Err(ValidationError::CheckpointConstraintViolation)
    } else {
        Ok(())
    }
}

impl Header {
    /// The byte strings of the header's encoding, with the extra data cut
    /// to its first `extra_len` bytes.
    pub(crate) fn fields(&self, extra_len: usize) -> (items: Vec<Vec<u8>>)
        requires
            extra_len <= self.extra_data@.len(),
        ensures
            byte_strings(items@) == self@.with_extra_data(
                self.extra_data@.take(extra_len as int),
            ).fields(),
    {
        let mut nonce: Vec<u8> = Vec::new();
        push_be(&mut nonce, self.nonce as u128, 8);
        let mut items: Vec<Vec<u8>> = Vec::new();
        items.push(self.parent_hash.to_vec());
        items.push(self.uncles_hash.to_vec());
        items.push(self.author.to_vec());
        items.push(self.state_root.to_vec());
        items.push(self.transactions_root.to_vec());
        items.push(self.receipts_root.to_vec());
        items.push(copy_range(self.log_bloom.as_slice(), 0, self.log_bloom.len()));
        items.push(minimal_be_bytes(self.difficulty));
        items.push(minimal_be_bytes(self.number));
        items.push(minimal_be_bytes(self.gas_limit));
        items.push(minimal_be_bytes(self.gas_used));
        items.push(minimal_be_bytes(self.timestamp));
        items.push(copy_range(self.extra_data.as_slice(), 0, extra_len));
        items.push(self.mix_hash.to_vec());
        items.push(nonce);
        proof {
            assert(self.log_bloom@.subrange(0, self.log_bloom@.len() as int) =~= self.log_bloom@);
            assert(nonce@ =~= be_bytes(self.nonce as nat, 8));
            assert(byte_strings(items@) =~= self@.with_extra_data(
                self.extra_data@.take(extra_len as int),
            ).fields());
        }
        items
    }

    /// The signature at the end of the extra data.
    pub fn extract_signature(&self) -> (r: Result<Signature, ValidationError>)
        ensures
            self.extra_data@.len() < 65 ==> r == Err::<Signature, ValidationError>(
                ValidationError::MalformedExtraData,
            ),
            self.extra_data@.len() >= 65 ==> r == Ok::<Signature, ValidationError>(
                Signature::from_seq(self@.seal()),
            ),
            r matches Ok(signature) ==> signature.bytes() == self@.seal(),
    {
        let len = self.extra_data.len();
        if len < SIGNER_SIG_LENGTH {
            Err(ValidationError::MalformedExtraData)
        } else {
            Ok(Signature::read(self.extra_data.as_slice(), len - SIGNER_SIG_LENGTH))
        }
    }

    /// Replaces the last 65 bytes of the extra data by `signature`.
    pub fn embed_signature(&mut self, signature: &Signature) -> (r: Result<(), ValidationError>)
        ensures
            old(self).extra_data@.len() < 65 ==> r == Err::<(), ValidationError>(
                ValidationError::MalformedExtraData,
            ) && *final(self) == *old(self),
            old(self).extra_data@.len() >= 65 ==> r == Ok::<(), ValidationError>(())
                && final(self)@ == old(self)@.with_extra_data(
                old(self)@.unsealed().extra_data + signature.bytes(),
            ),
    {
        let len = self.extra_data.len();
        if len < SIGNER_SIG_LENGTH {
            Err(ValidationError::MalformedExtraData)
        } else {
            let mut extra = copy_range(self.extra_data.as_slice(), 0, len - SIGNER_SIG_LENGTH);
            let mut seal = signature.to_vec();
            extra.append(&mut seal);
            self.extra_data = extra;
            Ok(())
        }
    }

    /// The signers that a checkpoint lists between vanity and signature.
    pub fn checkpoint_signers(&self) -> (signers: Vec<Address>)
        ensures
            signers@ == self@.signers(),
    {
        let len: usize = self.extra_data.len();
        let mut signers: Vec<Address> = Vec::new();
        if len < SIGNER_VANITY_LENGTH + SIGNER_SIG_LENGTH {
            return signers;
        }
        let count: usize = (len - 97) / 20;
        let mut i: usize = 0;
        while i < count
            invariant
                i <= count,
                count == (len - 97) / 20,
                self.extra_data@.len() == len >= 97,
                signers@ == self@.signers().take(i as int),
            decreases count - i,
        {
            assert(20 * (i + 1) <= len - 97);
            let a = Address::read(self.extra_data.as_slice(), 32 + 20 * i);
            signers.push(a);
            assert(signers@ =~= self@.signers().take(i + 1));
            i = i + 1;
        }
        assert(self@.signers().take(count as int) =~= self@.signers());
        signers
    }

    /// Whether the header's number is a multiple of `epoch`.
    pub fn is_checkpoint(&self, epoch: u64) -> (b: bool)
        requires
            epoch > 0,
        ensures
            b == is_checkpoint(self.number, epoch),
    {
        self.number % epoch == 0
    }

    /// The structural checks that need no ancestry. On a checkpoint the
    /// beneficiary and the nonce are tested before any length.
    pub fn verify_basic(&self, epoch: u64) -> (r: Result<(), ValidationError>)
        requires
            epoch > 0,
        ensures
            r == basic_verdict(self@, epoch),
    {
        let checkpoint = self.is_checkpoint(epoch);
        if checkpoint && (!self.author.is_zero() || self.nonce != NONCE_DROP_VOTE) {
            return Err(ValidationError::CheckpointConstraintViolation);
        }
        let len = self.extra_data.len();
        if len < SIGNER_VANITY_LENGTH + SIGNER_SIG_LENGTH {
            return Err(ValidationError::MalformedExtraData);
        }
        if checkpoint && (len - 97) % 20 != 0 {
            return Err(ValidationError::CheckpointConstraintViolation);
        }
        Ok(())
    }
}

} // verus!
