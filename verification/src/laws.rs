//! What holds of the engine's rules whatever the chain.

use vstd::prelude::*;
use crate::error::ValidationError;
use crate::header::{
    basic_verdict, is_checkpoint, HeaderView, Signature, NONCE_AUTH_VOTE, NONCE_DROP_VOTE,
};
use crate::records::{
    among_recents, cast, discarded, inserted, last_entries, lemma_cast_tally,
    lemma_discarded_contains,
    lemma_discarded_other_tally, lemma_discarded_target_tally, lemma_inserted,
    lemma_inserted_contains, lemma_sorted_set, lemma_sorted_set_contains, lemma_without,
    lemma_without_contains, signed_recently, sorted_set, strictly_ascending, tally_of, window,
    without, Recent, Vote,
};
use crate::scheduler::{difficulty_for, SealDecision};
use crate::seal::{header_hash, recovered_from, recovered_key, recovered_signer, seal_hash};
use crate::snapshot::{
    built, lemma_applied_well_formed, lemma_sealed_well_formed, outcome, seeded, Snapshot,
    SnapshotView,
};
use crate::types::{Address, H256};

verus! {

/// Embedding a signature changes neither the hash that the seal signs nor
/// anything but the last 65 bytes of the extra data, and extracting gives
/// the signature back: so the key recovered from the sealed header is the
/// one that the signature yields for the seal hash.
pub proof fn lemma_embed_signature(header: HeaderView, signature: Signature)
    requires
        header.extra_data.len() >= 65,
    ensures
        ({
            let sealed = header.with_extra_data(header.unsealed().extra_data + signature.bytes());
            &&& sealed.extra_data.len() == header.extra_data.len()
            &&& sealed.unsealed() == header.unsealed()
            &&& seal_hash(sealed) == seal_hash(header)
            &&& Signature::from_seq(sealed.seal()) == signature
            &&& recovered_key(sealed) == recovered_from(seal_hash(header), signature)
        }),
{
    let sealed = header.with_extra_data(header.unsealed().extra_data + signature.bytes());
    signature.lemma_bytes();
    assert(sealed.unsealed().extra_data =~= header.unsealed().extra_data);
    assert(sealed.seal() =~= signature.bytes());
}

/// A checkpoint header that passes the basic checks gives, with no header
/// after it, a snapshot without recent sealers and without votes, whose
/// signers are the addresses of the list that the checkpoint carries: the
/// list itself where it is ascending, else the same addresses in ascending
/// order.
pub proof fn lemma_checkpoint_alone(checkpoint: HeaderView, epoch: u64)
    requires
        basic_verdict(checkpoint, epoch) is Ok,
        is_checkpoint(checkpoint.number, epoch),
    ensures
        built(checkpoint, Seq::empty(), epoch) == seeded(checkpoint, epoch),
        built(checkpoint, Seq::empty(), epoch) matches Ok(state) && {
            &&& state.well_formed()
            &&& state.number == checkpoint.number
            &&& state.recents.len() == 0
            &&& state.votes.len() == 0
            &&& forall|a: Address| #[trigger]
                state.signers.contains(a) <==> checkpoint.signers().contains(a)
            &&& strictly_ascending(checkpoint.signers()) ==> state.signers == checkpoint.signers()
        },
{
    let list = checkpoint.signers();
    lemma_sorted_set(list);
    assert forall|a: Address| #[trigger] sorted_set(list).contains(a) <==> list.contains(a) by {
        lemma_sorted_set_contains(list, a);
    }
}

/// Replaying the same headers on the same checkpoint twice gives the same
/// outcome: the same error, or snapshots with the same content.
pub proof fn lemma_replay_deterministic(
    first: Result<Snapshot, ValidationError>,
    second: Result<Snapshot, ValidationError>,
    checkpoint: HeaderView,
    headers: Seq<HeaderView>,
    epoch: u64,
)
    requires
        outcome(first) == built(checkpoint, headers, epoch),
        outcome(second) == built(checkpoint, headers, epoch),
    ensures
        outcome(first) == outcome(second),
{
}

/// The snapshot of a header is the snapshot of its parent with the header
/// applied: rebuilding from the checkpoint and going on from a kept
/// snapshot agree.
pub proof fn lemma_build_extends(
    checkpoint: HeaderView,
    headers: Seq<HeaderView>,
    header: HeaderView,
    epoch: u64,
)
    ensures
        built(checkpoint, headers.push(header), epoch) == match built(checkpoint, headers, epoch) {
            Err(e) => Err(e),
            Ok(parent) => parent.applied_header(header, epoch),
        },
{
    assert(headers.push(header).drop_last() =~= headers);
}

/// Every snapshot that a replay gives is well formed.
pub proof fn lemma_built_well_formed(checkpoint: HeaderView, headers: Seq<HeaderView>, epoch: u64)
    ensures
        built(checkpoint, headers, epoch) matches Ok(state) ==> state.well_formed(),
    decreases headers.len(),
{
    if headers.len() == 0 {
        lemma_sorted_set(checkpoint.signers());
    } else {
        let front = headers.drop_last();
        let last = headers.last();
        lemma_built_well_formed(checkpoint, front, epoch);
        assert(front.push(last) =~= headers);
        lemma_build_extends(checkpoint, front, last, epoch);
        if let Ok(parent) = built(checkpoint, front, epoch) {
            if let Ok(signer) = recovered_signer(last) {
                lemma_applied_well_formed(
                    parent,
                    last.number,
                    header_hash(last),
                    signer,
                    last.author,
                    last.nonce,
                    epoch,
                );
            }
        }
    }
}

/// A signer that sealed within the trailing window of a block is refused
/// at that block, and as long as it is remembered the node does not
/// propose with it.
pub proof fn lemma_recent_signer_is_refused(
    state: SnapshotView,
    signer: Address,
    number: u64,
    difficulty: u64,
)
    requires
        signed_recently(state.recents, signer, number, window(state.signers.len())),
    ensures
        !state.may_propose(signer),
        state.decision(number, signer) == SealDecision::NotAuthorized,
        state.authorization(signer, number) is Err,
        state.seal_verdict(number, difficulty, signer) is Err,
        state.signers.contains(signer) ==> state.seal_verdict(number, difficulty, signer) == Err::<
            (),
            ValidationError,
        >(ValidationError::RecentlySigned),
{
    let i = choose|i: int|
        0 <= i < state.recents.len() && (#[trigger] state.recents[i]).signer == signer
            && state.recents[i].number + window(state.signers.len()) > number;
    assert(among_recents(state.recents, signer));
}

/// After a signer sealed block `number` it may not propose, and it is
/// refused at every block `later` of the window that starts there. Once
/// the window has passed, it is authorized again if it is still a signer.
pub proof fn lemma_sealer_waits(
    state: SnapshotView,
    number: u64,
    hash: H256,
    signer: Address,
    beneficiary: Address,
    nonce: u64,
    epoch: u64,
    later: u64,
)
    requires
        state.well_formed(),
        state.applied(number, hash, signer, beneficiary, nonce, epoch) is Ok,
    ensures
        ({
            let next = state.applied(number, hash, signer, beneficiary, nonce, epoch)->Ok_0;
            let limit = window(next.signers.len());
            &&& next.recents.len() > 0
            &&& next.recents.last() == Recent { number, signer }
            &&& !next.may_propose(signer)
            &&& later < number + limit ==> next.authorization(signer, later) is Err
            &&& later >= number + limit && next.signers.contains(signer) ==> next.authorization(
                signer,
                later,
            ) is Ok
        }),
{
    let next = state.applied(number, hash, signer, beneficiary, nonce, epoch)->Ok_0;
    let limit = window(next.signers.len());
    let entry = Recent { number, signer };
    let pushed = state.recents.push(entry);
    let kept = last_entries(pushed, window(state.signers.len()));
    assert(kept.len() > 0 && kept.last() == entry) by {
        assert(pushed.last() == entry);
    }
    lemma_inserted(state.signers, beneficiary);
    lemma_without(state.signers, beneficiary);
    assert(next.recents == kept || next.recents == last_entries(kept, limit));
    assert(next.recents.len() > 0 && next.recents.last() == entry);
    assert(next.recents[next.recents.len() - 1].signer == signer);
    assert(among_recents(next.recents, signer));
    if later < number + limit {
        assert(signed_recently(next.recents, signer, later, limit));
    }
    if later >= number + limit && next.signers.contains(signer) {
        assert(limit <= window(state.signers.len()) + 1);
        assert forall|i: int| 0 <= i < next.recents.len() implies !((#[trigger] next.recents[i]).signer
            == signer && next.recents[i].number + limit > later) by {
            let from_kept = i + (kept.len() - next.recents.len());
            assert(next.recents[i] == kept[from_kept]);
            let from_pushed = from_kept + (pushed.len() - kept.len());
            assert(kept[from_kept] == pushed[from_pushed]);
            if from_pushed < state.recents.len() {
                assert(pushed[from_pushed] == state.recents[from_pushed]);
            }
        }
    }
}

/// At most one address is in turn at a block, and where there are signers
/// it is the signer at the block's position, which is one of them.
pub proof fn lemma_one_in_turn(state: SnapshotView, number: u64, a: Address, b: Address)
    ensures
        state.in_turn(number, a) && state.in_turn(number, b) ==> a == b,
        state.in_turn(number, a) ==> state.signers.contains(a),
        state.signers.len() > 0 ==> 0 <= state.turn_index(number) < state.signers.len()
            && state.in_turn(number, state.signers[state.turn_index(number)]),
{
}

/// One header changes the signers by one address at most: only its
/// beneficiary can join or leave, and two or more signers are never left
/// without any.
pub proof fn lemma_one_change_per_header(
    state: SnapshotView,
    number: u64,
    hash: H256,
    signer: Address,
    beneficiary: Address,
    nonce: u64,
    epoch: u64,
)
    requires
        state.well_formed(),
        state.applied(number, hash, signer, beneficiary, nonce, epoch) is Ok,
    ensures
        ({
            let next = state.applied(number, hash, signer, beneficiary, nonce, epoch)->Ok_0;
            &&& state.signers.len() - 1 <= next.signers.len() <= state.signers.len() + 1
            &&& state.signers.len() >= 2 ==> next.signers.len() >= 1
            &&& forall|a: Address|
                a != beneficiary ==> (#[trigger] next.signers.contains(a)
                    <==> state.signers.contains(a))
        }),
{
    let next = state.applied(number, hash, signer, beneficiary, nonce, epoch)->Ok_0;
    lemma_inserted(state.signers, beneficiary);
    lemma_without(state.signers, beneficiary);
    assert forall|a: Address| a != beneficiary implies (#[trigger] next.signers.contains(a)
        <==> state.signers.contains(a)) by {
        lemma_inserted_contains(state.signers, beneficiary, a);
        lemma_without_contains(state.signers, beneficiary, a);
    }
}

/// A node that may propose is authorized at every block: what it seals is
/// not refused for its signer.
pub proof fn lemma_proposer_is_authorized(state: SnapshotView, local: Address, number: u64)
    requires
        state.may_propose(local),
    ensures
        state.authorization(local, number) is Ok,
        state.seal_verdict(
            number,
            difficulty_for(state.in_turn(number, local)),
            local,
        ) is Ok,
{
    assert forall|i: int| 0 <= i < state.recents.len() implies !((#[trigger] state.recents[i]).signer
        == local && state.recents[i].number + window(state.signers.len()) > number) by {
        if state.recents[i].signer == local {
            assert(among_recents(state.recents, local));
        }
    }
}

/// A header that passes validation on top of a state can be applied to it.
pub proof fn lemma_valid_header_applies(state: SnapshotView, header: HeaderView, epoch: u64)
    requires
        state.header_verdict(header, epoch) is Ok,
    ensures
        state.applied_header(header, epoch) is Ok,
{
}

/// A vote never makes a header fail: applying fails exactly where the
/// signer is not authorized or sealed too recently.
pub proof fn lemma_votes_never_fail(
    state: SnapshotView,
    number: u64,
    hash: H256,
    signer: Address,
    beneficiary: Address,
    nonce: u64,
    epoch: u64,
)
    ensures
        state.applied(number, hash, signer, beneficiary, nonce, epoch) is Ok
            <==> state.authorization(signer, number) is Ok,
{
}

/// A target that is no signer joins at the block whose vote brings the
/// votes to add it above half the number of signers: it is a signer from
/// then on, the other signers stay, no vote on it is left, and the votes
/// on other targets are as they were.
pub proof fn lemma_majority_admits(
    state: SnapshotView,
    number: u64,
    hash: H256,
    signer: Address,
    target: Address,
    epoch: u64,
)
    requires
        state.well_formed(),
        state.authorization(signer, number) is Ok,
        !is_checkpoint(number, epoch),
        target != (Address { hi: 0, lo: 0 }),
        !state.signers.contains(target),
        tally_of(cast(state.votes, Vote { signer, target, authorize: true }), target, true)
            >= state.signers.len() / 2 + 1,
    ensures
        state.applied(number, hash, signer, target, NONCE_AUTH_VOTE, epoch) matches Ok(next) && {
            &&& next.well_formed()
            &&& next.signers == inserted(state.signers, target)
            &&& next.signers.len() == state.signers.len() + 1
            &&& forall|a: Address| #[trigger]
                next.signers.contains(a) <==> (a == target || state.signers.contains(a))
            &&& forall|i: int| 0 <= i < next.votes.len() ==> (#[trigger] next.votes[i]).target != target
            &&& next.tally(target) == (0nat, 0nat)
            &&& forall|other: Address| other != target ==> #[trigger] next.tally(other) == state.tally(other)
        },
{
    let vote = Vote { signer, target, authorize: true };
    let sealed = state.sealed(number, hash, signer);
    let next = sealed.with_vote(vote);
    let votes = cast(state.votes, vote);
    lemma_applied_well_formed(state, number, hash, signer, target, NONCE_AUTH_VOTE, epoch);
    lemma_inserted(state.signers, target);
    assert forall|a: Address| #[trigger] next.signers.contains(a) <==> (a == target
        || state.signers.contains(a)) by {
        lemma_inserted_contains(state.signers, target, a);
    }
    assert forall|i: int| 0 <= i < next.votes.len() implies (#[trigger] next.votes[i]).target
        != target by {
        assert(next.votes.contains(next.votes[i]));
        lemma_discarded_contains(votes, None, Some(target), next.votes[i]);
    }
    lemma_discarded_target_tally(votes, target, true);
    lemma_discarded_target_tally(votes, target, false);
    assert forall|other: Address| other != target implies #[trigger] next.tally(other)
        == state.tally(other) by {
        lemma_cast_other_tally(state.votes, vote, other, true);
        lemma_cast_other_tally(state.votes, vote, other, false);
        lemma_discarded_other_tally(votes, None, target, other, true);
        lemma_discarded_other_tally(votes, None, target, other, false);
    }
}

/// Casting a vote on one target leaves the tally of another alone.
pub proof fn lemma_cast_other_tally(votes: Seq<Vote>, vote: Vote, other: Address, authorize: bool)
    requires
        other != vote.target,
    ensures
        tally_of(cast(votes, vote), other, authorize) == tally_of(votes, other, authorize),
{
    let kept = discarded(votes, Some(vote.signer), Some(vote.target));
    lemma_discarded_other_tally(votes, Some(vote.signer), vote.target, other, authorize);
    assert(cast(votes, vote).drop_last() =~= kept);
}

/// A signer leaves at the block whose vote brings the votes to remove it
/// above half the number of signers: it is no signer from then on, the
/// other signers stay, neither a vote on it nor a vote of its own is left,
/// and no more sealers are remembered than the smaller window holds.
pub proof fn lemma_majority_expels(
    state: SnapshotView,
    number: u64,
    hash: H256,
    signer: Address,
    target: Address,
    nonce: u64,
    epoch: u64,
)
    requires
        state.well_formed(),
        state.authorization(signer, number) is Ok,
        !is_checkpoint(number, epoch),
        target != (Address { hi: 0, lo: 0 }),
        nonce != NONCE_AUTH_VOTE,
        state.signers.contains(target),
        tally_of(cast(state.votes, Vote { signer, target, authorize: false }), target, false)
            >= state.signers.len() / 2 + 1,
    ensures
        state.applied(number, hash, signer, target, nonce, epoch) matches Ok(next) && {
            &&& next.well_formed()
            &&& next.signers == without(state.signers, target)
            &&& next.signers.len() == state.signers.len() - 1
            &&& forall|a: Address| #[trigger]
                next.signers.contains(a) <==> (a != target && state.signers.contains(a))
            &&& forall|i: int|
                0 <= i < next.votes.len() ==> (#[trigger] next.votes[i]).target != target
                    && next.votes[i].signer != target
            &&& next.recents.len() <= window(next.signers.len())
        },
{
    let vote = Vote { signer, target, authorize: false };
    let sealed = state.sealed(number, hash, signer);
    let next = sealed.with_vote(vote);
    let votes = cast(state.votes, vote);
    let others = discarded(votes, Some(target), None);
    lemma_applied_well_formed(state, number, hash, signer, target, nonce, epoch);
    lemma_without(state.signers, target);
    assert forall|a: Address| #[trigger] next.signers.contains(a) <==> (a != target
        && state.signers.contains(a)) by {
        lemma_without_contains(state.signers, target, a);
    }
    assert forall|i: int| 0 <= i < next.votes.len() implies (#[trigger] next.votes[i]).target
        != target && next.votes[i].signer != target by {
        assert(next.votes.contains(next.votes[i]));
        lemma_discarded_contains(others, None, Some(target), next.votes[i]);
        lemma_discarded_contains(votes, Some(target), None, next.votes[i]);
    }
}

/// The votes to add an address that is no signer exceed half the number of
/// signers once the header's vote is cast: the block where the address
/// joins.
pub open spec fn admits(state: SnapshotView, signer: Address, target: Address, nonce: u64) -> bool {
    &&& !state.signers.contains(target)
    &&& tally_of(
        cast(state.votes, Vote { signer, target, authorize: nonce == NONCE_AUTH_VOTE }),
        target,
        true,
    ) > state.signers.len() / 2
}

/// An address that joins at a block is a signer that no window holds
/// back: it may propose, and it is authorized at every later block. Had
/// the block named no beneficiary, the address would be no signer after
/// it.
pub proof fn lemma_admitted_member_may_seal(
    state: SnapshotView,
    number: u64,
    hash: H256,
    signer: Address,
    target: Address,
    nonce: u64,
    epoch: u64,
    later: u64,
)
    requires
        state.well_formed(),
        state.authorization(signer, number) is Ok,
        !is_checkpoint(number, epoch),
        target != (Address { hi: 0, lo: 0 }),
        admits(state, signer, target, nonce),
    ensures
        state.applied(number, hash, signer, target, nonce, epoch) matches Ok(next) && {
            &&& next.signers.contains(target)
            &&& !among_recents(next.recents, target)
            &&& next.may_propose(target)
            &&& next.authorization(target, later) is Ok
        },
        state.applied(number, hash, signer, Address { hi: 0, lo: 0 }, nonce, epoch) matches Ok(
            same,
        ) && same.authorization(target, later) == Err::<(), ValidationError>(
            ValidationError::UnauthorizedSigner,
        ),
{
    let vote = Vote { signer, target, authorize: nonce == NONCE_AUTH_VOTE };
    let sealed = state.sealed(number, hash, signer);
    let next = sealed.with_vote(vote);
    let votes = cast(state.votes, vote);
    lemma_sealed_well_formed(state, number, hash, signer);
    lemma_inserted_contains(state.signers, target, target);
    assert(next.recents == sealed.recents);
    assert forall|j: int| 0 <= j < next.recents.len() implies (#[trigger] next.recents[j]).signer
        != target by {
        if sealed.recents[j].signer == target {
            lemma_cast_tally(state.votes, vote, target, true);
            assert(tally_of(sealed.votes, sealed.recents[j].signer, true) + j + 1
                < sealed.recents.len());
        }
    }
    assert forall|j: int| 0 <= j < next.recents.len() implies !((#[trigger] next.recents[j]).signer
        == target && next.recents[j].number + window(next.signers.len()) > later) by {}
}

/// The header that an address seals after the block where it joined is
/// accepted, if it passes the basic checks and carries the difficulty of
/// its turn. Had the block named no beneficiary, the same header would be
/// refused for its signer.
pub proof fn lemma_admitted_member_is_accepted(
    state: SnapshotView,
    number: u64,
    hash: H256,
    signer: Address,
    target: Address,
    nonce: u64,
    epoch: u64,
    header: HeaderView,
)
    requires
        state.well_formed(),
        state.authorization(signer, number) is Ok,
        !is_checkpoint(number, epoch),
        target != (Address { hi: 0, lo: 0 }),
        admits(state, signer, target, nonce),
        basic_verdict(header, epoch) is Ok,
        recovered_signer(header) == Ok::<Address, ValidationError>(target),
        header.difficulty == difficulty_for(
            state.applied(number, hash, signer, target, nonce, epoch)->Ok_0.in_turn(
                header.number,
                target,
            ),
        ),
    ensures
        state.applied(number, hash, signer, target, nonce, epoch) matches Ok(next)
            && next.header_verdict(header, epoch) is Ok,
        state.applied(number, hash, signer, Address { hi: 0, lo: 0 }, nonce, epoch) matches Ok(
            same,
        ) && same.header_verdict(header, epoch) == Err::<(), ValidationError>(
            ValidationError::UnauthorizedSigner,
        ),
{
    lemma_admitted_member_may_seal(state, number, hash, signer, target, nonce, epoch, header.number);
}

/// On a checkpoint a beneficiary, or a nonce other than the drop nonce, is
/// a violation of the checkpoint's rules whatever the extra data holds:
/// the header fails the basic checks with it, gives no snapshot, and is
/// refused on top of every state before any signer is recovered.
pub proof fn lemma_checkpoint_rules_come_first(state: SnapshotView, header: HeaderView, epoch: u64)
    requires
        is_checkpoint(header.number, epoch),
        header.author != (Address { hi: 0, lo: 0 }) || header.nonce != NONCE_DROP_VOTE,
    ensures
        basic_verdict(header, epoch) == Err::<(), ValidationError>(
            ValidationError::CheckpointConstraintViolation,
        ),
        state.header_verdict(header, epoch) == Err::<(), ValidationError>(
            ValidationError::CheckpointConstraintViolation,
        ),
        seeded(header, epoch) == Err::<SnapshotView, ValidationError>(
            ValidationError::CheckpointConstraintViolation,
        ),
{
}

/// A vote to remove an address that is no signer changes no membership,
/// and the header that carries it is applied like any other. This is
/// stated for the states in which the votes of the other signers to add
/// the address do not exceed half the number of signers: in the others,
/// which arise when the signers have become fewer since those votes, the
/// address joins at the next header that names it, whatever its vote.
pub proof fn lemma_drop_of_stranger(
    state: SnapshotView,
    number: u64,
    hash: H256,
    signer: Address,
    target: Address,
    nonce: u64,
    epoch: u64,
)
    requires
        state.authorization(signer, number) is Ok,
        !state.signers.contains(target),
        nonce != NONCE_AUTH_VOTE,
        tally_of(discarded(state.votes, Some(signer), Some(target)), target, true)
            <= state.signers.len() / 2,
    ensures
        state.applied(number, hash, signer, target, nonce, epoch) matches Ok(next)
            && next.signers == state.signers,
{
    let vote = Vote { signer, target, authorize: false };
    let kept = discarded(state.votes, Some(signer), Some(target));
    assert(cast(state.votes, vote).drop_last() =~= kept);
}

} // verus!
