//! The engine as the surrounding client calls it: the configuration, the
//! local signing identity, and the answers on sealing and verification.

use vstd::prelude::*;
use crate::bytes::{be_bytes, push_be};
use crate::error::{SigningError, ValidationError};
use crate::header::{basic_verdict, Header, HeaderView, Signature};
use crate::laws::lemma_embed_signature;
use crate::outside::byte_strings;
use crate::params::CliqueParams;
use crate::records::contains_address;
use crate::scheduler::{generate_seal, validate_seal, SealDecision};
use crate::seal::{
    address_of, hash, header_hash, public_of, public_to_address, recovered_from, recovered_signer,
    secret_to_public, sig_hash, sig_hash_of, sign, signature_of,
};
use crate::snapshot::{built, header_views, outcome, Snapshot, SnapshotView};
use crate::types::{Address, H256, U256};

verus! {

/// The local signing identity: a secret key and the address that belongs
/// to it.
pub struct EngineSigner {
    address: Address,
    secret: H256,
}

/// What a signing identity holds.
pub ghost struct SignerView {
    pub address: Address,
    pub secret: H256,
}

impl SignerView {
    /// The address is the one of the secret key's public key.
    pub open spec fn well_formed(self) -> bool {
        public_of(self.secret) matches Some(key) && self.address == address_of(key)
    }
}

impl View for EngineSigner {
    type V = SignerView;

    closed spec fn view(&self) -> SignerView {
        SignerView { address: self.address, secret: self.secret }
    }
}

impl EngineSigner {
    #[verifier::type_invariant]
    spec fn always_well_formed(self) -> bool {
        self@.well_formed()
    }

    /// The identity of `secret`; `KeyRefused` where the signature scheme
    /// does not accept the key.
    pub fn new(secret: H256) -> (r: Result<EngineSigner, SigningError>)
        ensures
            public_of(secret) is None ==> r is Err && r->Err_0 == SigningError::KeyRefused,
            public_of(secret) is Some ==> r is Ok && r->Ok_0@.secret == secret
                && r->Ok_0@.well_formed(),
    {
        match secret_to_public(&secret) {
            Ok(key) => Ok(EngineSigner { address: public_to_address(&key), secret }),
            Err(e) => Err(e),
        }
    }

    /// The address that signs.
    pub fn address(&self) -> (address: Address)
        ensures
            address == self@.address,
            self@.well_formed(),
    {
        proof {
            use_type_invariant(self);
        }
        self.address
    }

    /// Whether `address` is the one that signs.
    pub fn is_address(&self, address: &Address) -> (b: bool)
        ensures
            b == (self@.address == *address),
    {
        self.address == *address
    }

    /// Signs `digest`. An identity can always sign, and the address
    /// recovered from the signature and the digest is its own.
    pub fn sign(&self, digest: &H256) -> (r: Result<Signature, SigningError>)
        ensures
            signature_of(self@.secret, *digest) is Some,
            r == Ok::<Signature, SigningError>(signature_of(self@.secret, *digest)->Some_0),
            recovered_from(*digest, r->Ok_0) is Ok,
            address_of(recovered_from(*digest, r->Ok_0)->Ok_0) == self@.address,
    {
        proof {
            use_type_invariant(self);
        }
        sign(&self.secret, digest)
    }

    /// Signs the seal hash of `header` and puts the signature in the place
    /// reserved at the end of the extra data. Recovering the signer of the
    /// sealed header then gives the address of this identity.
    pub fn seal_header(&self, header: &mut Header) -> (r: Result<Signature, SigningError>)
        ensures
            r == match sig_hash_of(old(header)@) {
                Err(_) => Err::<Signature, SigningError>(SigningError::NoRoomForSeal),
                Ok(digest) => match signature_of(self@.secret, digest) {
                    Some(signature) => Ok::<Signature, SigningError>(signature),
                    None => Err::<Signature, SigningError>(SigningError::KeyRefused),
                },
            },
            r is Ok <==> old(header)@.extra_data.len() >= 65,
            r is Err ==> *final(header) == *old(header),
            r matches Ok(signature) ==> {
                &&& final(header)@ == old(header)@.with_extra_data(
                    old(header)@.unsealed().extra_data + signature.bytes(),
                )
                &&& recovered_signer(final(header)@) == Ok::<Address, ValidationError>(
                    self@.address,
                )
            },
    {
        proof {
            use_type_invariant(self);
        }
        let digest = match sig_hash(header) {
            Ok(digest) => digest,
            Err(_) => { return Err(SigningError::NoRoomForSeal); },
        };
        let signature = match sign(&self.secret, &digest) {
            Ok(signature) => signature,
            Err(e) => { return Err(e); },
        };
        let embedded = header.embed_signature(&signature);
        proof {
            assert(embedded is Ok);
            lemma_embed_signature(old(header)@, signature);
        }
        Ok(signature)
    }
}

/// What the engine hands to the client when asked for a seal.
#[derive(Debug)]
pub enum Seal {
    /// No seal: this node does not produce the block.
    NoSeal,
    /// The seal fields: the nonce on 8 bytes, and the signature.
    Regular(Vec<Vec<u8>>),
}

/// What a seal holds.
pub ghost enum SealView {
    NoSeal,
    Regular(Seq<Seq<u8>>),
}

impl SealView {
    /// The signature that a seal of two fields carries in its second, if
    /// that has 65 bytes.
    pub open spec fn signature(self) -> Option<Signature> {
        match self {
            SealView::Regular(fields) if fields.len() == 2 && fields[1].len() == 65 => Some(
                Signature::from_seq(fields[1]),
            ),
            _ => None,
        }
    }
}

impl View for Seal {
    type V = SealView;

    open spec fn view(&self) -> SealView {
        match self {
            Seal::NoSeal => SealView::NoSeal,
            Seal::Regular(fields) => SealView::Regular(byte_strings(fields@)),
        }
    }
}

impl Seal {
    /// The signature that the seal carries.
    pub fn signature(&self) -> (r: Option<Signature>)
        ensures
            r == self@.signature(),
    {
        match self {
            Seal::Regular(fields) => {
                if fields.len() == 2 && fields[1].len() == 65 {
                    let signature = Signature::read(fields[1].as_slice(), 0);
                    assert(fields[1]@.subrange(0, 65) =~= fields[1]@);
                    Some(signature)
                } else {
                    None
                }
            },
            Seal::NoSeal => None,
        }
    }
}

/// Which of two chain heads to follow.
#[derive(Clone, Copy, Debug, PartialEq, Eq, Structural)]
pub enum ForkChoice {
    New,
    Old,
}

/// What the client is to do with an ancestor of a new block.
#[derive(Clone, Copy, Debug, PartialEq, Eq, Structural)]
pub enum AncestryAction {
    /// The block with this hash is final.
    MarkFinalized(H256),
}

/// The engine: checkpoint interval, block period, and the local signer if
/// one is set.
pub struct Clique {
    signer: Option<EngineSigner>,
    epoch_length: u64,
    period: u64,
}

/// What the engine holds.
pub ghost struct CliqueView {
    pub signer: Option<SignerView>,
    pub epoch_length: u64,
    pub period: u64,
}

impl CliqueView {
    /// The checkpoint interval is not zero, and the signer, if one is
    /// set, has the address of its key.
    pub open spec fn well_formed(self) -> bool {
        &&& self.epoch_length > 0
        &&& self.signer matches Some(signer) ==> signer.well_formed()
    }

    /// Whether the engine should seal block `number` on top of `parent`,
    /// the state of the block's parent: never block 0, and never without
    /// a signer.
    pub open spec fn decision(self, number: u64, parent: SnapshotView) -> SealDecision {
        match self.signer {
            Some(signer) if number != 0 => parent.decision(number, signer.address),
            _ => SealDecision::NotAuthorized,
        }
    }

    /// The seal that the engine gives for `header` on top of `parent`:
    /// none where it should not seal; else the nonce and the signature of
    /// the seal hash.
    pub open spec fn seal_for(self, header: HeaderView, parent: SnapshotView) -> Result<
        SealView,
        SigningError,
    > {
        match self.decision(header.number, parent) {
            SealDecision::NotAuthorized => Ok(SealView::NoSeal),
            SealDecision::Authorized { in_turn } => match sig_hash_of(header) {
                Err(_) => Err(SigningError::NoRoomForSeal),
                Ok(digest) => match signature_of(self.signer->Some_0.secret, digest) {
                    None => Err(SigningError::KeyRefused),
                    Some(signature) => Ok(
                        SealView::Regular(seq![be_bytes(header.nonce as nat, 8), signature.bytes()]),
                    ),
                },
            },
        }
    }
}

impl View for Clique {
    type V = CliqueView;

    closed spec fn view(&self) -> CliqueView {
        CliqueView {
            signer: match self.signer {
                Some(signer) => Some(signer@),
                None => None,
            },
            epoch_length: self.epoch_length,
            period: self.period,
        }
    }
}

impl Clique {
    #[verifier::type_invariant]
    spec fn has_epoch(self) -> bool {
        self.epoch_length > 0
    }

    /// The engine with the given parameters and no signer. The
    /// checkpoint interval must not be zero; `checked` tests it.
    pub fn new(our_params: CliqueParams) -> (engine: Clique)
        requires
            our_params.epoch > 0,
        ensures
            engine@ == (CliqueView {
                signer: None,
                epoch_length: our_params.epoch,
                period: our_params.period,
            }),
    {
        Clique { signer: None, epoch_length: our_params.epoch, period: our_params.period }
    }

    /// The engine with the given parameters and no signer, or nothing
    /// where the checkpoint interval is zero: no block number could be
    /// tested against it.
    pub fn checked(our_params: CliqueParams) -> (r: Option<Clique>)
        ensures
            r is Some <==> our_params.epoch > 0,
            r matches Some(engine) ==> engine@ == (CliqueView {
                signer: None,
                epoch_length: our_params.epoch,
                period: our_params.period,
            }),
    {
        if our_params.epoch > 0 {
            Some(Clique::new(our_params))
        } else {
            None
        }
    }

    /// The name of the engine.
    pub fn name(&self) -> (name: &'static str)
        ensures
            name@ == "Clique"@,
    {
        "Clique"
    }

    /// Number of blocks between two checkpoints. It is never zero.
    pub fn epoch_length(&self) -> (epoch: u64)
        ensures
            epoch == self@.epoch_length,
            epoch > 0,
    {
        proof {
            use_type_invariant(self);
        }
        self.epoch_length
    }

    /// Seconds between two blocks.
    pub fn period(&self) -> (period: u64)
        ensures
            period == self@.period,
    {
        self.period
    }

    /// Number of seal fields of a block: nonce and signature.
    pub fn seal_fields(&self) -> (count: usize)
        ensures
            count == 2,
    {
        2
    }

    /// Blocks have no uncles.
    pub fn maximum_uncle_count(&self) -> (count: usize)
        ensures
            count == 0,
    {
        0
    }

    /// The engine seals by itself.
    pub fn seals_internally(&self) -> (r: Option<bool>)
        ensures
            r == Some(true),
    {
        Some(true)
    }

    /// Sets the local signing identity.
    pub fn set_signer(&mut self, signer: EngineSigner)
        ensures
            final(self)@ == (CliqueView { signer: Some(signer@), ..old(self)@ }),
    {
        proof {
            use_type_invariant(&*self);
        }
        self.signer = Some(signer);
    }

    /// The address of the local signer, if one is set. Every engine is
    /// well formed: the address is the one of the signer's key.
    pub fn signer_address(&self) -> (address: Option<Address>)
        ensures
            address == match self@.signer {
                Some(signer) => Some(signer.address),
                None => None,
            },
            self@.well_formed(),
    {
        proof {
            use_type_invariant(self);
        }
        match &self.signer {
            Some(signer) => Some(signer.address()),
            None => None,
        }
    }

    /// Whether the local signer is one of the signers of `snapshot`.
    pub fn is_signer_proposer(&self, snapshot: &Snapshot) -> (b: bool)
        ensures
            b == (self@.signer matches Some(signer) && snapshot@.signers.contains(signer.address)),
    {
        match &self.signer {
            Some(signer) => contains_address(snapshot.signers(), &signer.address()),
            None => false,
        }
    }

    /// Signs the seal hash of `header` with the local signer. With a
    /// signer and room for the seal there is a signature, and the header
    /// sealed with it recovers to the signer's address.
    pub fn sign_header(&self, header: &Header) -> (r: Result<Signature, SigningError>)
        ensures
            r == match self@.signer {
                None => Err::<Signature, SigningError>(SigningError::NoSigner),
                Some(signer) => match sig_hash_of(header@) {
                    Err(_) => Err::<Signature, SigningError>(SigningError::NoRoomForSeal),
                    Ok(digest) => match signature_of(signer.secret, digest) {
                        Some(signature) => Ok::<Signature, SigningError>(signature),
                        None => Err::<Signature, SigningError>(SigningError::KeyRefused),
                    },
                },
            },
            r is Ok <==> self@.signer is Some && header@.extra_data.len() >= 65,
            r is Ok ==> recovered_signer(header@.sealed_with(r->Ok_0)) == Ok::<
                Address,
                ValidationError,
            >(self@.signer->Some_0.address),
    {
        match &self.signer {
            None => Err(SigningError::NoSigner),
            Some(signer) => match sig_hash(header) {
                Err(_) => Err(SigningError::NoRoomForSeal),
                Ok(digest) => {
                    let r = signer.sign(&digest);
                    proof {
                        lemma_embed_signature(header@, r->Ok_0);
                    }
                    r
                },
            },
        }
    }

    /// Signs `hash` with the local signer. With a signer there is a
    /// signature, and the address recovered from it and the hash is the
    /// signer's.
    pub fn sign(&self, hash: &H256) -> (r: Result<Signature, SigningError>)
        ensures
            r == match self@.signer {
                None => Err::<Signature, SigningError>(SigningError::NoSigner),
                Some(signer) => match signature_of(signer.secret, *hash) {
                    Some(signature) => Ok::<Signature, SigningError>(signature),
                    None => Err::<Signature, SigningError>(SigningError::KeyRefused),
                },
            },
            r is Ok <==> self@.signer is Some,
            r is Ok ==> recovered_from(*hash, r->Ok_0) is Ok && address_of(
                recovered_from(*hash, r->Ok_0)->Ok_0,
            ) == self@.signer->Some_0.address,
    {
        match &self.signer {
            None => Err(SigningError::NoSigner),
            Some(signer) => signer.sign(hash),
        }
    }

    /// Whether the engine should seal block `number` on top of `parent`,
    /// and whether it would do so in turn.
    pub fn seal_decision(&self, number: u64, parent: &Snapshot) -> (decision: SealDecision)
        ensures
            decision == self@.decision(number, parent@),
    {
        if number == 0 {
            return SealDecision::NotAuthorized;
        }
        match &self.signer {
            None => SealDecision::NotAuthorized,
            Some(signer) => generate_seal(parent, number, &signer.address()),
        }
    }

    /// The seal for the block with `header`, on top of `parent`, the state
    /// of the header's parent. That the node does not seal is no error. A
    /// signer that should seal gets a regular seal whenever the header has
    /// room for it, and the header closed with that seal recovers to the
    /// signer's address.
    pub fn generate_seal(&self, header: &Header, parent: &Snapshot) -> (r: Result<
        Seal,
        SigningError,
    >)
        ensures
            match r {
                Ok(seal) => Ok::<SealView, SigningError>(seal@),
                Err(e) => Err::<SealView, SigningError>(e),
            } == self@.seal_for(header@, parent@),
            self@.decision(header.number, parent@) is NotAuthorized ==> r is Ok && r->Ok_0@
                == SealView::NoSeal,
            self@.decision(header.number, parent@) is Authorized && header@.extra_data.len() < 65
                ==> r == Err::<Seal, SigningError>(SigningError::NoRoomForSeal),
            self@.decision(header.number, parent@) is Authorized && header@.extra_data.len() >= 65
                ==> {
                &&& r is Ok
                &&& r->Ok_0@ is Regular
                &&& r->Ok_0@.signature() is Some
                &&& recovered_signer(header@.sealed_with(r->Ok_0@.signature()->Some_0)) == Ok::<
                    Address,
                    ValidationError,
                >(self@.signer->Some_0.address)
            },
    {
        match self.seal_decision(header.number, parent) {
            SealDecision::NotAuthorized => Ok(Seal::NoSeal),
            SealDecision::Authorized { in_turn } => {
                match self.sign_header(header) {
                    Err(e) => Err(e),
                    Ok(signature) => {
                        let mut nonce: Vec<u8> = Vec::new();
                        push_be(&mut nonce, header.nonce as u128, 8);
                        let mut fields: Vec<Vec<u8>> = Vec::new();
                        fields.push(nonce);
                        fields.push(signature.to_vec());
                        proof {
                            signature.lemma_bytes();
                            assert(byte_strings(fields@) =~= seq![
                                be_bytes(header.nonce as nat, 8),
                                signature.bytes(),
                            ]);
                        }
                        Ok(Seal::Regular(fields))
                    },
                }
            },
        }
    }

    /// Puts the signature of `seal` in the place reserved at the end of the
    /// header's extra data. A block that was not sealed is left alone.
    pub fn on_close_block(&self, header: &mut Header, seal: &Seal) -> (r: Result<
        (),
        ValidationError,
    >)
        ensures
            seal@.signature() is None ==> r == Ok::<(), ValidationError>(()) && *final(header)
                == *old(header),
            seal@.signature() is Some && old(header).extra_data@.len() < 65 ==> r == Err::<
                (),
                ValidationError,
            >(ValidationError::MalformedExtraData) && *final(header) == *old(header),
            seal@.signature() is Some && old(header).extra_data@.len() >= 65 ==> r == Ok::<
                (),
                ValidationError,
            >(()) && final(header)@ == old(header)@.with_extra_data(
                old(header)@.unsealed().extra_data + seal@.signature()->Some_0.bytes(),
            ),
    {
        match seal.signature() {
            None => Ok(()),
            Some(signature) => header.embed_signature(&signature),
        }
    }

    /// The checks on `header` that need no ancestry.
    pub fn verify_block_basic(&self, header: &Header) -> (r: Result<(), ValidationError>)
        ensures
            r == basic_verdict(header@, self@.epoch_length),
    {
        header.verify_basic(self.epoch_length())
    }

    /// The checks on `header` that need `parent`, the state of its parent.
    pub fn verify_block_unordered(&self, header: &Header, parent: &Snapshot) -> (r: Result<
        (),
        ValidationError,
    >)
        ensures
            r == parent@.header_verdict(header@, self@.epoch_length),
    {
        validate_seal(parent, header, self.epoch_length())
    }

    /// The snapshot after `header` on top of `parent`.
    pub fn snapshot_after(&self, parent: &Snapshot, header: &Header) -> (r: Result<
        Snapshot,
        ValidationError,
    >)
        ensures
            outcome(r) == parent@.applied_header(header@, self@.epoch_length),
    {
        parent.apply(header, self.epoch_length())
    }

    /// The snapshot at the last of `headers`, rebuilt from `checkpoint`.
    pub fn snapshot(&self, checkpoint: &Header, headers: &Vec<Header>) -> (r: Result<
        Snapshot,
        ValidationError,
    >)
        ensures
            outcome(r) == built(
                checkpoint@,
                header_views(headers@),
                self@.epoch_length,
            ),
    {
        Snapshot::build(checkpoint, headers, self.epoch_length())
    }

    /// Every ancestor handed in is final.
    pub fn ancestry_actions(&self, ancestry: &Vec<Header>) -> (actions: Vec<AncestryAction>)
        ensures
            actions@.len() == ancestry@.len(),
            forall|i: int|
                0 <= i < ancestry@.len() ==> actions@[i] == AncestryAction::MarkFinalized(
                    header_hash(ancestry@[i]@),
                ),
    {
        let mut actions: Vec<AncestryAction> = Vec::new();
        let mut i: usize = 0;
        while i < ancestry.len()
            invariant
                i <= ancestry@.len(),
                actions@.len() == i,
                forall|k: int|
                    0 <= k < i ==> actions@[k] == AncestryAction::MarkFinalized(
                        header_hash(ancestry@[k]@),
                    ),
            decreases ancestry@.len() - i,
        {
            actions.push(AncestryAction::MarkFinalized(hash(&ancestry[i])));
            i = i + 1;
        }
        actions
    }

    /// The head with the higher total difficulty wins; the current one on
    /// a tie.
    pub fn fork_choice(&self, new: &U256, current: &U256) -> (choice: ForkChoice)
        ensures
            choice == if new.value() > current.value() {
                ForkChoice::New
            } else {
                ForkChoice::Old
            },
    {
        if new.is_greater(current) {
            ForkChoice::New
        } else {
            ForkChoice::Old
        }
    }
}

} // verus!
