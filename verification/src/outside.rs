//! The calls that leave this crate: Keccak-256, RLP framing and secp256k1
//! ECDSA. Nothing here is proved; each contract says what is taken on trust.

use vstd::prelude::*;

verus! {

/// The error type of the `secp256k1` crate, carried through unopened.
#[verifier::external_type_specification]
#[verifier::external_body]
pub struct ExSecpError(secp256k1::Error);

/// The Keccak-256 digest of `data`: what `keccak_hash::keccak` returns.
pub uninterp spec fn keccak256(data: Seq<u8>) -> Seq<u8>;

/// The RLP encoding of a list whose items are the byte strings `items`: what
/// `rlp::encode_list` returns for a slice of `Vec<u8>`.
pub uninterp spec fn rlp_list(items: Seq<Seq<u8>>) -> Seq<u8>;

/// The byte strings that a vector of byte vectors holds.
pub open spec fn byte_strings(items: Seq<Vec<u8>>) -> Seq<Seq<u8>> {
    Seq::new(items.len(), |i: int| items[i]@)
}

/// The uncompressed public key (65 bytes) that
/// `secp256k1::ecdsa::RecoverableSignature::recover_ecdsa` finds for the
/// digest, the compact signature `rs` and the recovery id `v`; `None` where
/// the crate reports an error.
pub uninterp spec fn ecdsa_recover(digest: Seq<u8>, rs: Seq<u8>, v: u8) -> Option<Seq<u8>>;

/// The compact signature and recovery id that
/// `secp256k1::ecdsa::RecoverableSignature::sign_ecdsa_recoverable` makes for
/// the digest under the secret key; `None` where the crate reports an error.
pub uninterp spec fn ecdsa_sign(secret: Seq<u8>, digest: Seq<u8>) -> Option<(Seq<u8>, u8)>;

/// The uncompressed public key (65 bytes) that `secp256k1::Keypair::public_key`
/// gives for the secret key; `None` where the crate rejects the key.
pub uninterp spec fn ecdsa_public_key(secret: Seq<u8>) -> Option<Seq<u8>>;

/// Calls `keccak_hash::keccak`. Trusted: the digest is a function of the
/// input alone and has 32 bytes.
#[verifier::external_body]
pub(crate) fn keccak(data: &[u8]) -> (digest: Vec<u8>)
    ensures
        digest@ == keccak256(data@),
        digest@.len() == 32,
{
    keccak_hash::keccak(data).0.to_vec()
}

/// Calls `rlp::encode_list` on byte strings. Trusted: the encoding is a
/// function of the items alone.
#[verifier::external_body]
pub(crate) fn rlp_encode_list(items: &Vec<Vec<u8>>) -> (out: Vec<u8>)
    ensures
        out@ == rlp_list(byte_strings(items@)),
{
    rlp::encode_list::<Vec<u8>, Vec<u8>>(items).to_vec()
}

/// Calls `RecoverableSignature::recover_ecdsa` of `secp256k1`, after parsing
/// the digest, the recovery id and the compact signature with that crate.
/// Trusted: the outcome is a function of the three inputs alone, and a
/// recovered key is serialised on 65 bytes.
#[allow(deprecated)]
#[verifier::external_body]
pub(crate) fn secp_recover(digest: &[u8], rs: &[u8], v: u8) -> (key: Result<
    Vec<u8>,
    secp256k1::Error,
>)
    ensures
        key matches Ok(k) ==> ecdsa_recover(digest@, rs@, v) == Some(k@) && k@.len() == 65,
        key is Err ==> ecdsa_recover(digest@, rs@, v) is None,
{
    let message = secp256k1::Message::from_digest_slice(digest)?;
    let id = secp256k1::ecdsa::RecoveryId::try_from(i32::from(v))?;
    let signature = secp256k1::ecdsa::RecoverableSignature::from_compact(rs, id)?;
    let key = signature.recover_ecdsa(message)?;
    Ok(key.serialize_uncompressed().to_vec())
}

/// Calls `RecoverableSignature::sign_ecdsa_recoverable` of `secp256k1`, after
/// parsing the digest and the secret key with that crate. Trusted: the
/// nonce is derived from key and digest, so the signature is a function of
/// the two inputs alone; it is 64 bytes and a recovery id of at most 3; as
/// the crate documents of its recoverable signatures, recovering from the
/// signature and the same digest gives the public key of the secret key;
/// and only the two parses can fail, so that a digest of 32 bytes and a
/// key that the crate accepts always give a signature.
#[allow(deprecated)]
#[verifier::external_body]
pub(crate) fn secp_sign(secret: &[u8], digest: &[u8]) -> (signature: Result<
    (Vec<u8>, u8),
    secp256k1::Error,
>)
    ensures
        signature matches Ok(s) ==> {
            &&& ecdsa_sign(secret@, digest@) == Some((s.0@, s.1))
            &&& s.0@.len() == 64
            &&& s.1 <= 3
            &&& ecdsa_public_key(secret@) is Some
            &&& ecdsa_recover(digest@, s.0@, s.1) == ecdsa_public_key(secret@)
        },
        signature is Err ==> ecdsa_sign(secret@, digest@) is None,
        digest@.len() == 32 && ecdsa_public_key(secret@) is Some ==> signature is Ok,
{
    let message = secp256k1::Message::from_digest_slice(digest)?;
    let pair = secp256k1::Keypair::from_seckey_slice(secret)?;
    let key = pair.secret_key();
    let signed = secp256k1::ecdsa::RecoverableSignature::sign_ecdsa_recoverable(message, &key);
    let (id, rs) = signed.serialize_compact();
    Ok((rs.to_vec(), id.to_u8()))
}

/// Calls `Keypair::public_key` of `secp256k1`, after parsing the secret key
/// with that crate. Trusted: the key is a function of the secret alone and
/// is serialised on 65 bytes.
#[allow(deprecated)]
#[verifier::external_body]
pub(crate) fn secp_public_key(secret: &[u8]) -> (key: Result<Vec<u8>, secp256k1::Error>)
    ensures
        key matches Ok(k) ==> ecdsa_public_key(secret@) == Some(k@) && k@.len() == 65,
        key is Err ==> ecdsa_public_key(secret@) is None,
{
    let pair = secp256k1::Keypair::from_seckey_slice(secret)?;
    Ok(pair.public_key().serialize_uncompressed().to_vec())
}

} // verus!
