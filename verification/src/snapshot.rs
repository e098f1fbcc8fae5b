//! The authorization state at a block: who may seal, who sealed lately,
//! and which votes are pending. A snapshot is never changed: applying a
//! header gives the snapshot of that header.

use vstd::prelude::*;
use crate::error::ValidationError;
use crate::header::{basic_verdict, is_checkpoint, Header, HeaderView, NONCE_AUTH_VOTE};
use crate::records::{
    cast, cast_vote, contains_address, count_votes, discard_votes, discarded, has_signed_recently,
    insert_address, inserted, keep_last, last_entries, lemma_cast, lemma_cast_tally,
    lemma_discarded, lemma_discarded_tally, lemma_discarded_target_tally, lemma_inserted,
    lemma_inserted_contains, lemma_sorted_set, lemma_without, lemma_without_contains,
    one_vote_each, remove_address, signed_recently, sort_addresses, sorted_set,
    strictly_ascending, tally_of, votes_follow_seals, window, without, Recent, Tally, Vote,
};
use crate::seal::{hash, header_hash, recover_signer, recovered_signer};
use crate::types::{Address, H256};

verus! {

/// The authorization state at one block.
#[derive(Debug)]
pub struct Snapshot {
    number: u64,
    hash: H256,
    signers: Vec<Address>,
    recents: Vec<Recent>,
    votes: Vec<Vote>,
}

/// What a snapshot holds.
pub ghost struct SnapshotView {
    /// Number of the block that the snapshot describes.
    pub number: u64,
    /// Hash of that block.
    pub hash: H256,
    /// The authorized signers, ascending.
    pub signers: Seq<Address>,
    /// The last sealers, oldest first.
    pub recents: Seq<Recent>,
    /// The live votes since the last checkpoint, in the order they were
    /// cast.
    pub votes: Seq<Vote>,
}

impl SnapshotView {
    /// The signers are ascending, no more sealers are remembered than the
    /// window holds, no signer has two votes on one target, and votes
    /// follow seals.
    pub open spec fn well_formed(self) -> bool {
        &&& strictly_ascending(self.signers)
        &&& self.recents.len() <= window(self.signers.len())
        &&& one_vote_each(self.votes)
        &&& votes_follow_seals(self.signers, self.recents, self.votes, 0)
    }

    /// Well formed, with room for one more vote: the state between the
    /// seal of a header and its vote.
    pub open spec fn awaits_vote(self) -> bool {
        &&& self.well_formed()
        &&& votes_follow_seals(self.signers, self.recents, self.votes, 1)
    }

    /// The live votes on `target`: those to add it, and those to remove
    /// it.
    pub open spec fn tally(self, target: Address) -> (nat, nat) {
        (tally_of(self.votes, target, true), tally_of(self.votes, target, false))
    }

    /// Whether `signer` may seal the block `number` on top of this state:
    /// it is a signer, and it sealed none of the blocks of the trailing
    /// window.
    pub open spec fn authorization(self, signer: Address, number: u64) -> Result<
        (),
        ValidationError,
    > {
        if !self.signers.contains(signer) {
            Err(ValidationError::UnauthorizedSigner)
        } else if signed_recently(self.recents, signer, number, window(self.signers.len())) {
            Err(ValidationError::RecentlySigned)
        } else {
            Ok(())
        }
    }

    /// The state after `signer` sealed the block `number`: the sealer is
    /// remembered, and the oldest is forgotten once the window is full.
    pub open spec fn sealed(self, number: u64, hash: H256, signer: Address) -> SnapshotView {
        SnapshotView {
            number,
            hash,
            recents: last_entries(
                self.recents.push(Recent { number, signer }),
                window(self.signers.len()),
            ),
            ..self
        }
    }

    /// The state after `vote` is cast. Where more than half of the signers
    /// then ask for the change that the target's membership allows, the
    /// target joins or leaves, and every vote on it is dropped; where it
    /// leaves, its own votes are dropped too and the window shrinks.
    pub open spec fn with_vote(self, vote: Vote) -> SnapshotView {
        let votes = cast(self.votes, vote);
        let half = self.signers.len() / 2;
        let member = self.signers.contains(vote.target);
        if !member && tally_of(votes, vote.target, true) > half {
            SnapshotView {
                signers: inserted(self.signers, vote.target),
                votes: discarded(votes, None, Some(vote.target)),
                ..self
            }
        } else if member && tally_of(votes, vote.target, false) > half {
            let signers = without(self.signers, vote.target);
            SnapshotView {
                signers,
                recents: last_entries(self.recents, window(signers.len())),
                votes: discarded(
                    discarded(votes, Some(vote.target), None),
                    None,
                    Some(vote.target),
                ),
                ..self
            }
        } else {
            SnapshotView { votes, ..self }
        }
    }

    /// The state after a header with these fields, sealed by `signer`: an
    /// error where the signer may not seal; else the sealer is remembered,
    /// a checkpoint drops all votes, and any other block with a
    /// beneficiary casts the signer's vote on it.
    pub open spec fn applied(
        self,
        number: u64,
        hash: H256,
        signer: Address,
        beneficiary: Address,
        nonce: u64,
        epoch: u64,
    ) -> Result<SnapshotView, ValidationError> {
        match self.authorization(signer, number) {
            Err(e) => Err(e),
            Ok(()) => {
                let next = self.sealed(number, hash, signer);
                if is_checkpoint(number, epoch) {
                    Ok(SnapshotView { votes: Seq::empty(), ..next })
                } else if beneficiary == (Address { hi: 0, lo: 0 }) {
                    Ok(next)
                } else {
                    Ok(
                        next.with_vote(
                            Vote { signer, target: beneficiary, authorize: nonce == NONCE_AUTH_VOTE },
                        ),
                    )
                }
            },
        }
    }

    /// The state after `header`, whose signer is recovered from its seal.
    pub open spec fn applied_header(self, header: HeaderView, epoch: u64) -> Result<
        SnapshotView,
        ValidationError,
    > {
        match recovered_signer(header) {
            Err(e) => Err(e),
            Ok(signer) => self.applied(
                header.number,
                header_hash(header),
                signer,
                header.author,
                header.nonce,
                epoch,
            ),
        }
    }

    /// The state after `headers`, applied in order; the first error ends
    /// the replay.
    pub open spec fn replayed(self, headers: Seq<HeaderView>, epoch: u64) -> Result<
        SnapshotView,
        ValidationError,
    >
        decreases headers.len(),
    {
        if headers.len() == 0 {
            Ok(self)
        } else {
            match self.replayed(headers.drop_last(), epoch) {
                Err(e) => Err(e),
                Ok(state) => state.applied_header(headers.last(), epoch),
            }
        }
    }
}

/// The state that a checkpoint header alone gives: its signer list as an
/// ascending set, and nothing else. A header that fails the basic checks,
/// or whose number is no multiple of the epoch, gives none.
pub open spec fn seeded(checkpoint: HeaderView, epoch: u64) -> Result<
    SnapshotView,
    ValidationError,
> {
    match basic_verdict(checkpoint, epoch) {
        Err(e) => Err(e),
        Ok(()) => if !is_checkpoint(checkpoint.number, epoch) {
            Err(ValidationError::CheckpointConstraintViolation)
        } else {
            Ok(
                SnapshotView {
                    number: checkpoint.number,
                    hash: header_hash(checkpoint),
                    signers: sorted_set(checkpoint.signers()),
                    recents: Seq::empty(),
                    votes: Seq::empty(),
                },
            )
        },
    }
}

/// The state that a checkpoint and the headers since give.
pub open spec fn built(checkpoint: HeaderView, headers: Seq<HeaderView>, epoch: u64) -> Result<
    SnapshotView,
    ValidationError,
> {
    match seeded(checkpoint, epoch) {
        Err(e) => Err(e),
        Ok(state) => state.replayed(headers, epoch),
    }
}

/// The views of a list of headers.
pub open spec fn header_views(headers: Seq<Header>) -> Seq<HeaderView> {
    Seq::new(headers.len(), |i: int| headers[i]@)
}

/// A result with the snapshot replaced by its view.
pub open spec fn outcome(r: Result<Snapshot, ValidationError>) -> Result<
    SnapshotView,
    ValidationError,
> {
    match r {
        Ok(snapshot) => Ok(snapshot@),
        Err(e) => Err(e),
    }
}

/// Sealing keeps a state well formed, and leaves room for the vote of the
/// header, or for none.
pub proof fn lemma_sealed_well_formed(state: SnapshotView, number: u64, hash: H256, signer: Address)
    requires
        state.well_formed(),
        state.signers.contains(signer),
    ensures
        state.sealed(number, hash, signer).awaits_vote(),
        (SnapshotView { votes: Seq::empty(), ..state.sealed(number, hash, signer) }).well_formed(),
{
    let next = state.sealed(number, hash, signer);
    let pushed = state.recents.push(Recent { number, signer });
    let shift = pushed.len() - next.recents.len();
    assert forall|j: int|
        0 <= j < next.recents.len() && !next.signers.contains(
            (#[trigger] next.recents[j]).signer,
        ) implies tally_of(next.votes, next.recents[j].signer, true) + j + 1
        < next.recents.len() by {
        assert(next.recents[j] == pushed[j + shift]);
        assert(pushed[j + shift] == state.recents[j + shift]);
    }
    let cleared = SnapshotView { votes: Seq::empty(), ..next };
    assert forall|j: int|
        0 <= j < cleared.recents.len() && !cleared.signers.contains(
            (#[trigger] cleared.recents[j]).signer,
        ) implies tally_of(cleared.votes, cleared.recents[j].signer, true) + j
        < cleared.recents.len() by {}
}

/// Voting keeps a state well formed.
pub proof fn lemma_with_vote_well_formed(state: SnapshotView, vote: Vote)
    requires
        state.awaits_vote(),
    ensures
        state.with_vote(vote).well_formed(),
{
    let votes = cast(state.votes, vote);
    let next = state.with_vote(vote);
    let target = vote.target;
    lemma_cast(state.votes, vote);
    lemma_inserted(state.signers, target);
    lemma_without(state.signers, target);
    lemma_discarded(votes, None, Some(target));
    lemma_discarded(votes, Some(target), None);
    lemma_discarded(discarded(votes, Some(target), None), None, Some(target));
    let shift = state.recents.len() - next.recents.len();
    assert forall|j: int|
        0 <= j < next.recents.len() && !next.signers.contains(
            (#[trigger] next.recents[j]).signer,
        ) implies tally_of(next.votes, next.recents[j].signer, true) + j < next.recents.len() by {
        let sealer = next.recents[j].signer;
        assert(next.recents[j] == state.recents[j + shift]);
        lemma_cast_tally(state.votes, vote, sealer, true);
        lemma_inserted_contains(state.signers, target, sealer);
        lemma_without_contains(state.signers, target, sealer);
        lemma_discarded_tally(votes, None, Some(target), sealer, true);
        lemma_discarded_tally(votes, Some(target), None, sealer, true);
        lemma_discarded_tally(
            discarded(votes, Some(target), None),
            None,
            Some(target),
            sealer,
            true,
        );
        lemma_discarded_target_tally(discarded(votes, Some(target), None), target, true);
    }
}

/// Applying a header keeps a state well formed.
pub proof fn lemma_applied_well_formed(
    state: SnapshotView,
    number: u64,
    hash: H256,
    signer: Address,
    beneficiary: Address,
    nonce: u64,
    epoch: u64,
)
    requires
        state.well_formed(),
    ensures
        state.applied(number, hash, signer, beneficiary, nonce, epoch) matches Ok(next)
            ==> next.well_formed(),
{
    if state.signers.contains(signer) {
        let next = state.sealed(number, hash, signer);
        lemma_sealed_well_formed(state, number, hash, signer);
        lemma_with_vote_well_formed(
            next,
            Vote { signer, target: beneficiary, authorize: nonce == NONCE_AUTH_VOTE },
        );
    }
}

/// A replay that fails on the first `i` headers fails in the same way on
/// all of them.
proof fn lemma_replay_stops(state: SnapshotView, headers: Seq<HeaderView>, i: int, epoch: u64)
    requires
        0 <= i <= headers.len(),
        state.replayed(headers.take(i), epoch) is Err,
    ensures
        state.replayed(headers, epoch) == state.replayed(headers.take(i), epoch),
    decreases headers.len() - i,
{
    if i < headers.len() {
        assert(headers.take(i + 1).drop_last() =~= headers.take(i));
        lemma_replay_stops(state, headers, i + 1, epoch);
    } else {
        assert(headers.take(i) =~= headers);
    }
}

impl View for Snapshot {
    type V = SnapshotView;

    closed spec fn view(&self) -> SnapshotView {
        SnapshotView {
            number: self.number,
            hash: self.hash,
            signers: self.signers@,
            recents: self.recents@,
            votes: self.votes@,
        }
    }
}

impl Snapshot {
    #[verifier::type_invariant]
    spec fn always_well_formed(self) -> bool {
        self@.well_formed()
    }

    /// The state at the block `number` with the given signers, no recent
    /// sealers and no votes.
    pub fn new(number: u64, hash: H256, signers: &Vec<Address>) -> (snapshot: Snapshot)
        ensures
            snapshot@ == (SnapshotView {
                number,
                hash,
                signers: sorted_set(signers@),
                recents: Seq::empty(),
                votes: Seq::empty(),
            }),
    {
        proof {
            lemma_sorted_set(signers@);
        }
        Snapshot {
            number,
            hash,
            signers: sort_addresses(signers),
            recents: Vec::new(),
            votes: Vec::new(),
        }
    }

    /// Number of the block that the snapshot describes.
    pub fn number(&self) -> (number: u64)
        ensures
            number == self@.number,
    {
        self.number
    }

    /// Hash of the block that the snapshot describes.
    pub fn hash(&self) -> (hash: H256)
        ensures
            hash == self@.hash,
    {
        self.hash
    }

    /// The authorized signers, ascending. Every snapshot is well formed.
    pub fn signers(&self) -> (signers: &Vec<Address>)
        ensures
            signers@ == self@.signers,
            self@.well_formed(),
    {
        proof {
            use_type_invariant(self);
        }
        &self.signers
    }

    /// The last sealers, oldest first.
    pub fn recents(&self) -> (recents: &Vec<Recent>)
        ensures
            recents@ == self@.recents,
    {
        &self.recents
    }

    /// The live votes, in the order they were cast.
    pub fn votes(&self) -> (votes: &Vec<Vote>)
        ensures
            votes@ == self@.votes,
    {
        &self.votes
    }

    /// The live votes on `target`, counted by direction.
    pub fn tally(&self, target: &Address) -> (tally: Tally)
        ensures
            (tally.authorize as nat, tally.drop as nat) == self@.tally(*target),
    {
        Tally {
            authorize: count_votes(&self.votes, target, true),
            drop: count_votes(&self.votes, target, false),
        }
    }

    /// A snapshot with the same content.
    pub fn duplicate(&self) -> (copy: Snapshot)
        ensures
            copy@ == self@,
    {
        proof {
            use_type_invariant(self);
        }
        Snapshot {
            number: self.number,
            hash: self.hash,
            signers: self.signers.clone(),
            recents: self.recents.clone(),
            votes: self.votes.clone(),
        }
    }

    /// The snapshot after `vote` is cast on this one, which is the state
    /// after the seal of the header that carries the vote.
    fn vote(self, vote: Vote) -> (next: Snapshot)
        requires
            self@.awaits_vote(),
        ensures
            next@ == self@.with_vote(vote),
    {
        proof {
            lemma_with_vote_well_formed(self@, vote);
        }
        let votes = cast_vote(&self.votes, vote);
        let half = self.signers.len() / 2;
        let member = contains_address(&self.signers, &vote.target);
        if !member && count_votes(&votes, &vote.target, true) > half {
            Snapshot {
                number: self.number,
                hash: self.hash,
                signers: insert_address(&self.signers, &vote.target),
                recents: self.recents,
                votes: discard_votes(&votes, None, Some(vote.target)),
            }
        } else if member && count_votes(&votes, &vote.target, false) > half {
            let signers = remove_address(&self.signers, &vote.target);
            let recents = keep_last(&self.recents, signers.len() / 2 + 1);
            let others = discard_votes(&votes, Some(vote.target), None);
            Snapshot {
                number: self.number,
                hash: self.hash,
                signers,
                recents,
                votes: discard_votes(&others, None, Some(vote.target)),
            }
        } else {
            Snapshot {
                number: self.number,
                hash: self.hash,
                signers: self.signers,
                recents: self.recents,
                votes,
            }
        }
    }

    /// The snapshot after `header`, given its hash and the address that
    /// sealed it.
    pub fn apply_recovered(&self, header: &Header, hash: H256, signer: Address, epoch: u64) -> (r:
        Result<Snapshot, ValidationError>)
        requires
            epoch > 0,
        ensures
            outcome(r) == self@.applied(
                header.number,
                hash,
                signer,
                header.author,
                header.nonce,
                epoch,
            ),
    {
        proof {
            use_type_invariant(self);
        }
        if !contains_address(&self.signers, &signer) {
            return Err(ValidationError::UnauthorizedSigner);
        }
        let limit = self.signers.len() / 2 + 1;
        if has_signed_recently(&self.recents, &signer, header.number, limit) {
            return Err(ValidationError::RecentlySigned);
        }
        let mut recents = self.recents.clone();
        recents.push(Recent { number: header.number, signer });
        let checkpoint = header.number % epoch == 0;
        proof {
            lemma_sealed_well_formed(self@, header.number, hash, signer);
        }
        let next = Snapshot {
            number: header.number,
            hash,
            signers: self.signers.clone(),
            recents: keep_last(&recents, limit),
            votes: if checkpoint {
                Vec::new()
            } else {
                self.votes.clone()
            },
        };
        if checkpoint || header.author.is_zero() {
            Ok(next)
        } else {
            Ok(
                next.vote(
                    Vote {
                        signer,
                        target: header.author,
                        authorize: header.nonce == NONCE_AUTH_VOTE,
                    },
                ),
            )
        }
    }

    /// The snapshot after `header`: its signer is recovered from its seal.
    pub fn apply(&self, header: &Header, epoch: u64) -> (r: Result<Snapshot, ValidationError>)
        requires
            epoch > 0,
        ensures
            outcome(r) == self@.applied_header(header@, epoch),
    {
        match recover_signer(header) {
            Err(e) => Err(e),
            Ok(signer) => self.apply_recovered(header, hash(header), signer, epoch),
        }
    }

    /// The snapshot that a checkpoint header alone gives.
    pub fn from_checkpoint(checkpoint: &Header, epoch: u64) -> (r: Result<
        Snapshot,
        ValidationError,
    >)
        requires
            epoch > 0,
        ensures
            outcome(r) == seeded(checkpoint@, epoch),
    {
        match checkpoint.verify_basic(epoch) {
            Err(e) => Err(e),
            Ok(()) => if checkpoint.number % epoch != 0 {
                Err(ValidationError::CheckpointConstraintViolation)
            } else {
                let signers = checkpoint.checkpoint_signers();
                Ok(Snapshot::new(checkpoint.number, hash(checkpoint), &signers))
            },
        }
    }

    /// The snapshot at the last of `headers`, which follow the block of
    /// this one. The first header that cannot be applied ends the replay
    /// with its error.
    pub fn replay(&self, headers: &Vec<Header>, epoch: u64) -> (r: Result<
        Snapshot,
        ValidationError,
    >)
        requires
            epoch > 0,
        ensures
            outcome(r) == self@.replayed(header_views(headers@), epoch),
    {
        let mut state = self.duplicate();
        let ghost all = header_views(headers@);
        let mut i: usize = 0;
        while i < headers.len()
            invariant
                epoch > 0,
                i <= headers@.len(),
                all == header_views(headers@),
                self@.replayed(all.take(i as int), epoch) == Ok::<SnapshotView, ValidationError>(
                    state@,
                ),
            decreases headers@.len() - i,
        {
            proof {
                assert(all.take(i + 1).drop_last() =~= all.take(i as int));
                assert(all.take(i + 1).last() == headers@[i as int]@);
            }
            match state.apply(&headers[i], epoch) {
                Err(e) => {
                    proof {
                        lemma_replay_stops(self@, all, i + 1, epoch);
                    }
                    return Err(e);
                },
                Ok(next) => {
                    state = next;
                },
            }
            i = i + 1;
        }
        proof {
            assert(all.take(headers@.len() as int) =~= all);
        }
        Ok(state)
    }

    /// The snapshot at the first of `newest_first`, the headers between
    /// the block of this snapshot and that one as a walk back along the
    /// chain finds them: the oldest, which comes last, is applied first.
    pub fn replay_back(&self, newest_first: &Vec<Header>, epoch: u64) -> (r: Result<
        Snapshot,
        ValidationError,
    >)
        requires
            epoch > 0,
        ensures
            outcome(r) == self@.replayed(header_views(newest_first@).reverse(), epoch),
    {
        let count = newest_first.len();
        let mut state = self.duplicate();
        let ghost all = header_views(newest_first@).reverse();
        let mut left: usize = count;
        while left > 0
            invariant
                epoch > 0,
                left <= count == newest_first@.len(),
                all == header_views(newest_first@).reverse(),
                all.len() == count,
                self@.replayed(all.take(count - left), epoch) == Ok::<SnapshotView, ValidationError>(
                    state@,
                ),
            decreases left,
        {
            left = left - 1;
            proof {
                assert(all.take(count - left).drop_last() =~= all.take(count - left - 1));
                assert(all.take(count - left).last() == newest_first@[left as int]@);
            }
            match state.apply(&newest_first[left], epoch) {
                Err(e) => {
                    proof {
                        lemma_replay_stops(self@, all, count - left, epoch);
                    }
                    return Err(e);
                },
                Ok(next) => {
                    state = next;
                },
            }
        }
        proof {
            assert(all.take(count as int) =~= all);
        }
        Ok(state)
    }

    /// The snapshot at the last of `headers`, rebuilt from the checkpoint
    /// that they follow.
    pub fn build(checkpoint: &Header, headers: &Vec<Header>, epoch: u64) -> (r: Result<
        Snapshot,
        ValidationError,
    >)
        requires
            epoch > 0,
        ensures
            outcome(r) == built(checkpoint@, header_views(headers@), epoch),
    {
        match Snapshot::from_checkpoint(checkpoint, epoch) {
            Err(e) => Err(e),
            Ok(state) => state.replay(headers, epoch),
        }
    }
}

} // verus!
