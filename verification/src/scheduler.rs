//! Whose turn it is: which signer is expected at a block, what difficulty
//! a seal must carry, and whether the local node should seal.

use vstd::prelude::*;
use crate::error::ValidationError;
use crate::header::{basic_verdict, Header, HeaderView};
use crate::records::{among_recents, contains_address, has_signed_recently, is_among_recents};
use crate::seal::{recover_signer, recovered_signer};
use crate::snapshot::{Snapshot, SnapshotView};
use crate::types::Address;

verus! {

/// Difficulty of a block sealed by the signer whose turn it is.
pub const DIFFICULTY_IN_TURN: u64 = 2;

/// Difficulty of a block sealed by any other signer.
pub const DIFFICULTY_OUT_OF_TURN: u64 = 1;

/// Whether the local node should seal a block.
#[derive(Clone, Copy, Debug, PartialEq, Eq, Structural)]
pub enum SealDecision {
    /// It may seal. Out of turn, the caller delays the block so that the
    /// signer in turn wins.
    Authorized { in_turn: bool },
    /// It is no signer, or it sealed too recently.
    NotAuthorized,
}

/// The difficulty that a seal must carry.
pub open spec fn difficulty_for(in_turn: bool) -> u64 {
    if in_turn {
        DIFFICULTY_IN_TURN
    } else {
        DIFFICULTY_OUT_OF_TURN
    }
}

impl SnapshotView {
    /// Position, among the signers, of the one expected at block `number`.
    pub open spec fn turn_index(self, number: u64) -> int {
        number as int % self.signers.len() as int
    }

    /// Whether `address` is the signer expected at block `number`.
    pub open spec fn in_turn(self, number: u64, address: Address) -> bool {
        self.signers.len() > 0 && self.signers[self.turn_index(number)] == address
    }

    /// Whether `address` is a signer that sealed none of the remembered
    /// blocks.
    pub open spec fn may_propose(self, address: Address) -> bool {
        self.signers.contains(address) && !among_recents(self.recents, address)
    }

    /// The verdict on a seal by `signer` at block `number` with the given
    /// difficulty.
    pub open spec fn seal_verdict(self, number: u64, difficulty: u64, signer: Address) -> Result<
        (),
        ValidationError,
    > {
        match self.authorization(signer, number) {
            Err(e) => Err(e),
            Ok(()) => if difficulty != difficulty_for(self.in_turn(number, signer)) {
                Err(ValidationError::DifficultyMismatch)
            } else {
                Ok(())
            },
        }
    }

    /// The verdict on `header` on top of this state: the basic checks
    /// first, then the recovery of the signer, then the seal.
    pub open spec fn header_verdict(self, header: HeaderView, epoch: u64) -> Result<
        (),
        ValidationError,
    > {
        match basic_verdict(header, epoch) {
            Err(e) => Err(e),
            Ok(()) => match recovered_signer(header) {
                Err(e) => Err(e),
                Ok(signer) => self.seal_verdict(header.number, header.difficulty, signer),
            },
        }
    }

    /// Whether the node with address `local` should seal block `number`.
    pub open spec fn decision(self, number: u64, local: Address) -> SealDecision {
        if self.may_propose(local) {
            SealDecision::Authorized { in_turn: self.in_turn(number, local) }
        } else {
            SealDecision::NotAuthorized
        }
    }
}

/// Position, among the signers, of the one expected at block `number`.
pub fn turn_index(snapshot: &Snapshot, number: u64) -> (index: usize)
    requires
        snapshot@.signers.len() > 0,
    ensures
        index == snapshot@.turn_index(number),
        index < snapshot@.signers.len(),
{
    let count = snapshot.signers().len();
    (number % (count as u64)) as usize
}

/// Whether `address` is the signer expected at block `number`.
pub fn is_in_turn(snapshot: &Snapshot, number: u64, address: &Address) -> (in_turn: bool)
    ensures
        in_turn == snapshot@.in_turn(number, *address),
{
    let signers = snapshot.signers();
    if signers.len() == 0 {
        false
    } else {
        signers[turn_index(snapshot, number)] == *address
    }
}

/// The difficulty that a seal must carry: 2 in turn, 1 out of turn.
pub fn required_difficulty(in_turn: bool) -> (difficulty: u64)
    ensures
        difficulty == difficulty_for(in_turn),
{
    if in_turn {
        DIFFICULTY_IN_TURN
    } else {
        DIFFICULTY_OUT_OF_TURN
    }
}

/// Whether `address` is a signer that sealed none of the remembered blocks.
pub fn may_propose(snapshot: &Snapshot, address: &Address) -> (may: bool)
    ensures
        may == snapshot@.may_propose(*address),
{
    contains_address(snapshot.signers(), address) && !is_among_recents(snapshot.recents(), address)
}

/// The verdict on the seal of `header`, given the address that sealed it:
/// the signer must be authorized, must not have sealed within the window,
/// and the difficulty must match its turn.
pub fn validate_recovered(snapshot: &Snapshot, header: &Header, signer: &Address) -> (r: Result<
    (),
    ValidationError,
>)
    ensures
        r == snapshot@.seal_verdict(header.number, header.difficulty, *signer),
{
    if !contains_address(snapshot.signers(), signer) {
        return Err(ValidationError::UnauthorizedSigner);
    }
    let limit = snapshot.signers().len() / 2 + 1;
    if has_signed_recently(snapshot.recents(), signer, header.number, limit) {
        return Err(ValidationError::RecentlySigned);
    }
    if header.difficulty != required_difficulty(is_in_turn(snapshot, header.number, signer)) {
        return Err(ValidationError::DifficultyMismatch);
    }
    Ok(())
}

/// The verdict on `header` on top of `snapshot`, the state of its parent.
/// The checks that need no snapshot come first.
pub fn validate_seal(snapshot: &Snapshot, header: &Header, epoch: u64) -> (r: Result<
    (),
    ValidationError,
>)
    requires
        epoch > 0,
    ensures
        r == snapshot@.header_verdict(header@, epoch),
{
    match header.verify_basic(epoch) {
        Err(e) => Err(e),
        Ok(()) => match recover_signer(header) {
            Err(e) => Err(e),
            Ok(signer) => validate_recovered(snapshot, header, &signer),
        },
    }
}

/// Whether the node with address `local` should seal block `number` on
/// top of `snapshot`.
pub fn generate_seal(snapshot: &Snapshot, number: u64, local: &Address) -> (decision: SealDecision)
    ensures
        decision == snapshot@.decision(number, *local),
{
    if may_propose(snapshot, local) {
        SealDecision::Authorized { in_turn: is_in_turn(snapshot, number, local) }
    } else {
        SealDecision::NotAuthorized
    }
}

} // verus!
