//! Hashing a header, signing it, and recovering who signed it.

use vstd::prelude::*;
use crate::error::{SigningError, ValidationError};
use crate::header::{Header, HeaderView, Signature, SIGNER_SIG_LENGTH};
use crate::outside::{
    ecdsa_public_key, ecdsa_recover, ecdsa_sign, keccak, keccak256, rlp_encode_list, rlp_list,
    secp_public_key, secp_recover, secp_sign,
};
use crate::types::{Address, H256};

verus! {

/// A public key: the two coordinates of a point of the curve.
#[derive(Clone, Copy, Debug, PartialEq, Eq, Structural)]
pub struct Public {
    pub x: H256,
    pub y: H256,
}

impl Public {
    /// The 64 bytes of the key.
    pub open spec fn bytes(self) -> Seq<u8> {
        self.x.bytes() + self.y.bytes()
    }

    /// The key that 64 bytes denote.
    pub open spec fn from_seq(bytes: Seq<u8>) -> Public {
        Public {
            x: H256::from_seq(bytes.subrange(0, 32)),
            y: H256::from_seq(bytes.subrange(32, 64)),
        }
    }

    /// The key made of `bytes[start .. start + 64]`.
    pub fn read(bytes: &[u8], start: usize) -> (key: Public)
        requires
            start + 64 <= bytes@.len(),
        ensures
            key == Public::from_seq(bytes@.subrange(start as int, start + 64)),
            key.bytes() == bytes@.subrange(start as int, start + 64),
    {
        let len: usize = bytes.len();
        let x = H256::read(bytes, start);
        let y = H256::read(bytes, start + 32);
        let key = Public { x, y };
        proof {
            let all = bytes@.subrange(start as int, start + 64);
            assert(all.subrange(0, 32) =~= bytes@.subrange(start as int, start + 32));
            assert(all.subrange(32, 64) =~= bytes@.subrange(start + 32, start + 64));
            assert(key.bytes() =~= all);
        }
        key
    }

    /// The 64 bytes of the key.
    pub fn to_vec(&self) -> (out: Vec<u8>)
        ensures
            out@ == self.bytes(),
    {
        let mut out = self.x.to_vec();
        let mut low = self.y.to_vec();
        out.append(&mut low);
        out
    }
}

/// The hash of the list of byte strings `fields`: Keccak-256 of their RLP
/// encoding.
pub open spec fn hash_of(fields: Seq<Seq<u8>>) -> H256 {
    H256::from_seq(keccak256(rlp_list(fields)))
}

/// The hash of a header.
pub open spec fn header_hash(header: HeaderView) -> H256 {
    hash_of(header.fields())
}

/// The hash that the seal signs: that of the header without the signature
/// at the end of its extra data.
pub open spec fn seal_hash(header: HeaderView) -> H256 {
    hash_of(header.unsealed().fields())
}

/// The address of a public key: the last 20 bytes of its Keccak-256 digest.
pub open spec fn address_of(key: Public) -> Address {
    Address::from_seq(keccak256(key.bytes()).subrange(12, 32))
}

/// The public key of a secret key, where the signature scheme accepts it.
pub open spec fn public_of(secret: H256) -> Option<Public> {
    match ecdsa_public_key(secret.bytes()) {
        Some(key) => Some(Public::from_seq(key.subrange(1, 65))),
        None => None,
    }
}

/// The signature of `digest` under `secret`, where the signature scheme
/// accepts the key.
pub open spec fn signature_of(secret: H256, digest: H256) -> Option<Signature> {
    match ecdsa_sign(secret.bytes(), digest.bytes()) {
        Some((rs, v)) => Some(
            Signature {
                r: H256::from_seq(rs.subrange(0, 32)),
                s: H256::from_seq(rs.subrange(32, 64)),
                v,
            },
        ),
        None => None,
    }
}

/// The public key that `signature` yields for `digest`.
pub open spec fn recovered_from(digest: H256, signature: Signature) -> Result<
    Public,
    ValidationError,
> {
    match ecdsa_recover(digest.bytes(), signature.compact(), signature.v) {
        Some(key) => Ok(Public::from_seq(key.subrange(1, 65))),
        None => Err(ValidationError::InvalidSignature),
    }
}

/// The public key that sealed a header.
pub open spec fn recovered_key(header: HeaderView) -> Result<Public, ValidationError> {
    if header.extra_data.len() < 65 {
        Err(ValidationError::MalformedExtraData)
    } else {
        recovered_from(seal_hash(header), Signature::from_seq(header.seal()))
    }
}

/// The address that sealed a header.
pub open spec fn recovered_signer(header: HeaderView) -> Result<Address, ValidationError> {
    match recovered_key(header) {
        Ok(key) => Ok(address_of(key)),
        Err(e) => Err(e),
    }
}

/// What `sig_hash` returns.
pub open spec fn sig_hash_of(header: HeaderView) -> Result<H256, ValidationError> {
    if header.extra_data.len() < 65 {
        Err(ValidationError::MalformedExtraData)
    } else {
        Ok(seal_hash(header))
    }
}

/// Hash of the header's encoding with the extra data cut to `extra_len`
/// bytes.
fn hash_fields(header: &Header, extra_len: usize) -> (hash: H256)
    requires
        extra_len <= header.extra_data@.len(),
    ensures
        hash == hash_of(header@.with_extra_data(header.extra_data@.take(extra_len as int)).fields()),
{
    let items = header.fields(extra_len);
    let encoded = rlp_encode_list(&items);
    let digest = keccak(encoded.as_slice());
    let hash = H256::read(digest.as_slice(), 0);
    assert(digest@.subrange(0, 32) =~= digest@);
    hash
}

/// The hash of the whole header, signature included.
pub fn hash(header: &Header) -> (hash: H256)
    ensures
        hash == header_hash(header@),
{
    let hash = hash_fields(header, header.extra_data.len());
    assert(header.extra_data@.take(header.extra_data@.len() as int) =~= header.extra_data@);
    hash
}

/// The hash that the seal of `header` signs: the signature at the end of
/// the extra data is left out, so that it does not sign itself. A header
/// whose extra data has no room for a signature is refused.
pub fn sig_hash(header: &Header) -> (r: Result<H256, ValidationError>)
    ensures
        r == sig_hash_of(header@),
{
    let len = header.extra_data.len();
    if len < SIGNER_SIG_LENGTH {
        Err(ValidationError::MalformedExtraData)
    } else {
        Ok(hash_fields(header, len - SIGNER_SIG_LENGTH))
    }
}

/// The address of a public key.
pub fn public_to_address(key: &Public) -> (address: Address)
    ensures
        address == address_of(*key),
{
    let bytes = key.to_vec();
    let digest = keccak(bytes.as_slice());
    Address::read(digest.as_slice(), 12)
}

/// The public key that `signature` yields for `digest`;
/// `InvalidSignature` where none can be recovered.
pub fn recover_key(digest: &H256, signature: &Signature) -> (r: Result<Public, ValidationError>)
    ensures
        r == recovered_from(*digest, *signature),
{
    let message = digest.to_vec();
    let rs = signature.compact_vec();
    match secp_recover(message.as_slice(), rs.as_slice(), signature.v) {
        Ok(key) => Ok(Public::read(key.as_slice(), 1)),
        Err(_) => Err(ValidationError::InvalidSignature),
    }
}

/// The public key that sealed `header`.
pub fn recover(header: &Header) -> (r: Result<Public, ValidationError>)
    ensures
        r == recovered_key(header@),
{
    let signature = match header.extract_signature() {
        Ok(signature) => signature,
        Err(e) => { return Err(e); },
    };
    let digest = match sig_hash(header) {
        Ok(digest) => digest,
        Err(e) => { return Err(e); },
    };
    recover_key(&digest, &signature)
}

/// The address that sealed `header`.
pub fn recover_signer(header: &Header) -> (r: Result<Address, ValidationError>)
    ensures
        r == recovered_signer(header@),
{
    match recover(header) {
        Ok(key) => Ok(public_to_address(&key)),
        Err(e) => Err(e),
    }
}

/// The public key of `secret`; `KeyRefused` where the signature scheme
/// does not accept the key.
pub fn secret_to_public(secret: &H256) -> (r: Result<Public, SigningError>)
    ensures
        r == match public_of(*secret) {
            Some(key) => Ok::<Public, SigningError>(key),
            None => Err::<Public, SigningError>(SigningError::KeyRefused),
        },
{
    let bytes = secret.to_vec();
    match secp_public_key(bytes.as_slice()) {
        Ok(key) => Ok(Public::read(key.as_slice(), 1)),
        Err(_) => Err(SigningError::KeyRefused),
    }
}

/// Signs `digest` with `secret`. The signature is a function of the two:
/// signing again gives the same signature. Signing fails only where the
/// signature scheme refuses the key, and the key recovered from the
/// signature and the digest is the public key of `secret`.
pub fn sign(secret: &H256, digest: &H256) -> (r: Result<Signature, SigningError>)
    ensures
        r == match signature_of(*secret, *digest) {
            Some(signature) => Ok::<Signature, SigningError>(signature),
            None => Err::<Signature, SigningError>(SigningError::KeyRefused),
        },
        r is Ok <==> public_of(*secret) is Some,
        r matches Ok(signature) ==> recovered_from(*digest, signature) == Ok::<
            Public,
            ValidationError,
        >(public_of(*secret)->Some_0),
{
    let key = secret.to_vec();
    let message = digest.to_vec();
    proof {
        digest.lemma_bytes();
    }
    match secp_sign(key.as_slice(), message.as_slice()) {
        Ok((rs, v)) => {
            let r = H256::read(rs.as_slice(), 0);
            let s = H256::read(rs.as_slice(), 32);
            let signature = Signature { r, s, v };
            assert(signature.compact() =~= rs@);
            Ok(signature)
        },
        Err(_) => Err(SigningError::KeyRefused),
    }
}

/// Signs the seal hash of `header` with `secret`. With room for the seal
/// and a key that the signature scheme accepts there is a signature, and
/// the key recovered from it and the seal hash is the public key of
/// `secret`.
pub fn sign_header(secret: &H256, header: &Header) -> (r: Result<Signature, SigningError>)
    ensures
        r == match sig_hash_of(header@) {
            Err(_) => Err::<Signature, SigningError>(SigningError::NoRoomForSeal),
            Ok(digest) => match signature_of(*secret, digest) {
                Some(signature) => Ok::<Signature, SigningError>(signature),
                None => Err::<Signature, SigningError>(SigningError::KeyRefused),
            },
        },
        r is Ok <==> header@.extra_data.len() >= 65 && public_of(*secret) is Some,
        r matches Ok(signature) ==> recovered_from(seal_hash(header@), signature) == Ok::<
            Public,
            ValidationError,
        >(public_of(*secret)->Some_0),
{
    match sig_hash(header) {
        Ok(digest) => sign(secret, &digest),
        Err(_) => Err(SigningError::NoRoomForSeal),
    }
}

} // verus!
