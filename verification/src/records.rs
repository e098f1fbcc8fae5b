//! The records that a snapshot keeps (signers in ascending order, recent
//! sealers, pending votes) and the operations on them.

use vstd::prelude::*;
use crate::types::{precedes, Address};

verus! {

/// One signer's proposal to add `target` to the signers (`authorize`) or to
/// remove it.
#[derive(Clone, Copy, Debug, PartialEq, Eq, Structural)]
pub struct Vote {
    pub signer: Address,
    pub target: Address,
    pub authorize: bool,
}

/// Who sealed the block `number`.
#[derive(Clone, Copy, Debug, PartialEq, Eq, Structural)]
pub struct Recent {
    pub number: u64,
    pub signer: Address,
}

/// The live votes on one target, by direction.
#[derive(Clone, Copy, Debug, PartialEq, Eq, Structural)]
pub struct Tally {
    pub authorize: usize,
    pub drop: usize,
}

/// Number of trailing blocks within which a signer may seal only once.
pub open spec fn window(signer_count: nat) -> nat {
    signer_count / 2 + 1
}

/// Each address comes before those behind it: sorted, and nothing twice.
pub open spec fn strictly_ascending(signers: Seq<Address>) -> bool {
    forall|i: int, j: int| 0 <= i < j < signers.len() ==> precedes(signers[i], signers[j])
}

/// Number of addresses at the front of `signers` that come before `a`.
pub open spec fn rank(signers: Seq<Address>, a: Address) -> nat
    decreases signers.len(),
{
    if signers.len() == 0 || !precedes(signers[0], a) {
        0
    } else {
        1 + rank(signers.drop_first(), a)
    }
}

/// `signers` with `a` put in at its place, if it is not there yet.
pub open spec fn inserted(signers: Seq<Address>, a: Address) -> Seq<Address> {
    if signers.contains(a) {
        signers
    } else {
        let k = rank(signers, a) as int;
        signers.take(k).push(a) + signers.skip(k)
    }
}

/// `signers` without any occurrence of `a`.
pub open spec fn without(signers: Seq<Address>, a: Address) -> Seq<Address>
    decreases signers.len(),
{
    if signers.len() == 0 {
        signers
    } else if signers.last() == a {
        without(signers.drop_last(), a)
    } else {
        without(signers.drop_last(), a).push(signers.last())
    }
}

/// The ascending list of the addresses that occur in `list`.
pub open spec fn sorted_set(list: Seq<Address>) -> Seq<Address>
    decreases list.len(),
{
    if list.len() == 0 {
        list
    } else {
        inserted(sorted_set(list.drop_last()), list.last())
    }
}

/// The last `n` entries of `entries`, or all of them if there are fewer.
pub open spec fn last_entries(entries: Seq<Recent>, n: nat) -> Seq<Recent> {
    if entries.len() <= n {
        entries
    } else {
        entries.subrange(entries.len() - n, entries.len() as int)
    }
}

/// Whether `signer` sealed one of the entries.
pub open spec fn among_recents(recents: Seq<Recent>, signer: Address) -> bool {
    exists|i: int| 0 <= i < recents.len() && (#[trigger] recents[i]).signer == signer
}

/// Whether `signer` sealed one of the `limit` blocks that end with
/// `number`: a block `n` with `number - limit < n`.
pub open spec fn signed_recently(
    recents: Seq<Recent>,
    signer: Address,
    number: u64,
    limit: nat,
) -> bool {
    exists|i: int|
        0 <= i < recents.len() && (#[trigger] recents[i]).signer == signer && recents[i].number
            + limit > number
}

/// Whether `vote` is one of `voter` (if given) on `target` (if given).
pub open spec fn concerns(vote: Vote, voter: Option<Address>, target: Option<Address>) -> bool {
    &&& voter matches Some(a) ==> vote.signer == a
    &&& target matches Some(t) ==> vote.target == t
}

/// `votes` without those that `concerns` selects, the others in order.
pub open spec fn discarded(
    votes: Seq<Vote>,
    voter: Option<Address>,
    target: Option<Address>,
) -> Seq<Vote>
    decreases votes.len(),
{
    if votes.len() == 0 {
        votes
    } else if concerns(votes.last(), voter, target) {
        discarded(votes.drop_last(), voter, target)
    } else {
        discarded(votes.drop_last(), voter, target).push(votes.last())
    }
}

/// Number of votes on `target` in the direction `authorize`.
pub open spec fn tally_of(votes: Seq<Vote>, target: Address, authorize: bool) -> nat
    decreases votes.len(),
{
    if votes.len() == 0 {
        0
    } else {
        tally_of(votes.drop_last(), target, authorize) + if votes.last().target == target
            && votes.last().authorize == authorize {
            1nat
        } else {
            0nat
        }
    }
}

/// `votes` after `vote` is cast: an earlier vote of the same signer on the
/// same target is withdrawn, and the new one comes last.
pub open spec fn cast(votes: Seq<Vote>, vote: Vote) -> Seq<Vote> {
    discarded(votes, Some(vote.signer), Some(vote.target)).push(vote)
}

/// No signer has two votes on one target.
pub open spec fn one_vote_each(votes: Seq<Vote>) -> bool {
    forall|i: int, j: int|
        0 <= i < j < votes.len() ==> !(votes[i].signer == votes[j].signer && votes[i].target
            == votes[j].target)
}

/// Votes follow seals: each address that is remembered as a sealer and is
/// no signer has fewer votes to add it than sealers are remembered from
/// its own entry on, with `slack` to spare. So an address needs as many
/// sealed blocks as votes to come back, and by then its entry is gone.
pub open spec fn votes_follow_seals(
    signers: Seq<Address>,
    recents: Seq<Recent>,
    votes: Seq<Vote>,
    slack: nat,
) -> bool {
    forall|i: int|
        0 <= i < recents.len() && !signers.contains((#[trigger] recents[i]).signer) ==> tally_of(
            votes,
            recents[i].signer,
            true,
        ) + i + slack < recents.len()
}

/// An element of `s.push(x)` is `x` or an element of `s`.
pub proof fn lemma_push_contains<T>(s: Seq<T>, x: T, b: T)
    ensures
        s.push(x).contains(b) <==> (s.contains(b) || x == b),
{
    let t = s.push(x);
    if t.contains(b) {
        let i = choose|i: int| 0 <= i < t.len() && t[i] == b;
        if i < s.len() {
            assert(s[i] == b);
        }
    }
    if s.contains(b) {
        let i = choose|i: int| 0 <= i < s.len() && s[i] == b;
        assert(t[i] == b);
    }
    if x == b {
        assert(t[s.len() as int] == b);
    }
}

/// An element of a sequence is its last one or an element of the rest.
pub proof fn lemma_last_contains<T>(s: Seq<T>, b: T)
    requires
        s.len() > 0,
    ensures
        s.contains(b) <==> (s.drop_last().contains(b) || s.last() == b),
{
    assert(s =~= s.drop_last().push(s.last()));
    lemma_push_contains(s.drop_last(), s.last(), b);
}

/// The front of an ascending list is ascending, and comes before the last.
pub proof fn lemma_ascending_front(signers: Seq<Address>)
    requires
        strictly_ascending(signers),
        signers.len() > 0,
    ensures
        strictly_ascending(signers.drop_last()),
        forall|b: Address| #[trigger]
            signers.drop_last().contains(b) ==> precedes(b, signers.last()),
{
    let front = signers.drop_last();
    assert forall|i: int, j: int| 0 <= i < j < front.len() implies precedes(front[i], front[j]) by {
        assert(front[i] == signers[i] && front[j] == signers[j]);
    }
    assert forall|b: Address| #[trigger] front.contains(b) implies precedes(b, signers.last()) by {
        let k = choose|k: int| 0 <= k < front.len() && front[k] == b;
        assert(precedes(signers[k], signers[signers.len() - 1]));
    }
}

/// A list stays ascending when an address behind all of its own is added.
pub proof fn lemma_ascending_push(signers: Seq<Address>, a: Address)
    requires
        strictly_ascending(signers),
        forall|i: int| 0 <= i < signers.len() ==> precedes(#[trigger] signers[i], a),
    ensures
        strictly_ascending(signers.push(a)),
{
}

/// The first `rank` addresses come before `a`, and the next one does not.
pub proof fn lemma_rank(signers: Seq<Address>, a: Address)
    ensures
        rank(signers, a) <= signers.len(),
        forall|i: int| 0 <= i < rank(signers, a) ==> precedes(#[trigger] signers[i], a),
        rank(signers, a) < signers.len() ==> !precedes(signers[rank(signers, a) as int], a),
    decreases signers.len(),
{
    if signers.len() == 0 || !precedes(signers[0], a) {
    } else {
        let rest = signers.drop_first();
        lemma_rank(rest, a);
        assert forall|i: int| 0 <= i < rank(signers, a) implies precedes(
            #[trigger] signers[i],
            a,
        ) by {
            if i > 0 {
                assert(signers[i] == rest[i - 1]);
            }
        }
        if rank(signers, a) < signers.len() {
            assert(signers[rank(signers, a) as int] == rest[rank(rest, a) as int]);
        }
    }
}

/// What `inserted` holds: `a` and the addresses that were there.
pub proof fn lemma_inserted_contains(signers: Seq<Address>, a: Address, b: Address)
    ensures
        inserted(signers, a).contains(b) <==> (b == a || signers.contains(b)),
{
    let out = inserted(signers, a);
    if !signers.contains(a) {
        lemma_rank(signers, a);
        let k = rank(signers, a) as int;
        assert(out[k] == a);
        if out.contains(b) {
            let i = choose|i: int| 0 <= i < out.len() && out[i] == b;
            if i < k {
                assert(signers[i] == b);
            } else if i > k {
                assert(signers[i - 1] == b);
            }
        }
        if signers.contains(b) {
            let i = choose|i: int| 0 <= i < signers.len() && signers[i] == b;
            if i < k {
                assert(out[i] == b);
            } else {
                assert(out[i + 1] == b);
            }
        }
    }
}

/// Inserting keeps the list ascending, and lengthens it by one where the
/// address is new.
pub proof fn lemma_inserted(signers: Seq<Address>, a: Address)
    requires
        strictly_ascending(signers),
    ensures
        strictly_ascending(inserted(signers, a)),
        inserted(signers, a).len() == if signers.contains(a) {
            signers.len()
        } else {
            signers.len() + 1
        },
{
    let out = inserted(signers, a);
    if !signers.contains(a) {
        lemma_rank(signers, a);
        let k = rank(signers, a) as int;
        assert(out.len() == signers.len() + 1);
        assert forall|i: int| k <= i < signers.len() implies precedes(a, #[trigger] signers[i]) by {
            assert(signers.contains(signers[i]));
            if i > k {
                assert(precedes(signers[k], signers[i]));
            }
        }
        assert forall|i: int, j: int| 0 <= i < j < out.len() implies precedes(out[i], out[j]) by {
            if i < k {
                assert(out[i] == signers[i]);
            } else if i > k {
                assert(out[i] == signers[i - 1]);
            }
            if j < k {
                assert(out[j] == signers[j]);
            } else if j > k {
                assert(out[j] == signers[j - 1]);
            }
        }
    }
}

/// What `without` holds: the addresses that were there, but `a`.
pub proof fn lemma_without_contains(signers: Seq<Address>, a: Address, b: Address)
    ensures
        without(signers, a).contains(b) <==> (b != a && signers.contains(b)),
    decreases signers.len(),
{
    if signers.len() > 0 {
        let front = signers.drop_last();
        lemma_without_contains(front, a, b);
        lemma_last_contains(signers, b);
        if signers.last() != a {
            lemma_push_contains(without(front, a), signers.last(), b);
        }
    }
}

/// Removing keeps the list ascending; it shortens an ascending list by one
/// where the address was there, and changes nothing where it was not.
pub proof fn lemma_without(signers: Seq<Address>, a: Address)
    ensures
        strictly_ascending(signers) ==> strictly_ascending(without(signers, a)),
        without(signers, a).len() <= signers.len(),
        strictly_ascending(signers) && signers.contains(a) ==> without(signers, a).len()
            == signers.len() - 1,
        !signers.contains(a) ==> without(signers, a) == signers,
    decreases signers.len(),
{
    let out = without(signers, a);
    if signers.len() > 0 {
        let front = signers.drop_last();
        let last = signers.last();
        let inner = without(front, a);
        lemma_without(front, a);
        lemma_last_contains(signers, a);
        if strictly_ascending(signers) {
            lemma_ascending_front(signers);
            if last != a {
                assert forall|i: int| 0 <= i < inner.len() implies precedes(
                    #[trigger] inner[i],
                    last,
                ) by {
                    assert(inner.contains(inner[i]));
                    lemma_without_contains(front, a, inner[i]);
                }
                lemma_ascending_push(inner, last);
            } else {
                assert(!front.contains(a)) by {
                    if front.contains(a) {
                        assert(precedes(a, last));
                    }
                }
            }
        }
        if !signers.contains(a) {
            assert(out =~= signers);
        }
    }
}

/// What the sorted set of a list holds: the list's addresses.
pub proof fn lemma_sorted_set_contains(list: Seq<Address>, b: Address)
    ensures
        sorted_set(list).contains(b) <==> list.contains(b),
    decreases list.len(),
{
    if list.len() > 0 {
        let front = list.drop_last();
        lemma_sorted_set_contains(front, b);
        lemma_inserted_contains(sorted_set(front), list.last(), b);
        lemma_last_contains(list, b);
    }
}

/// The sorted set of a list is ascending, and is the list itself where
/// that is ascending.
pub proof fn lemma_sorted_set(list: Seq<Address>)
    ensures
        strictly_ascending(sorted_set(list)),
        sorted_set(list).len() <= list.len(),
        strictly_ascending(list) ==> sorted_set(list) == list,
    decreases list.len(),
{
    if list.len() > 0 {
        let front = list.drop_last();
        let a = list.last();
        lemma_sorted_set(front);
        lemma_inserted(sorted_set(front), a);
        if strictly_ascending(list) {
            lemma_ascending_front(list);
            assert(!front.contains(a)) by {
                if front.contains(a) {
                    assert(precedes(a, a));
                }
            }
            lemma_rank(front, a);
            assert(rank(front, a) == front.len()) by {
                if rank(front, a) < front.len() {
                    let k = rank(front, a) as int;
                    assert(front.contains(front[k]));
                }
            }
            assert(sorted_set(list) =~= list);
        }
    }
}

/// What is left after discarding: the votes that were not selected.
pub proof fn lemma_discarded_contains(
    votes: Seq<Vote>,
    voter: Option<Address>,
    target: Option<Address>,
    v: Vote,
)
    ensures
        discarded(votes, voter, target).contains(v) <==> (votes.contains(v) && !concerns(
            v,
            voter,
            target,
        )),
    decreases votes.len(),
{
    if votes.len() > 0 {
        let front = votes.drop_last();
        lemma_discarded_contains(front, voter, target, v);
        lemma_last_contains(votes, v);
        if !concerns(votes.last(), voter, target) {
            lemma_push_contains(discarded(front, voter, target), votes.last(), v);
        }
    }
}

/// The front of a list with one vote each has one vote each, and none of
/// its votes is by the signer and on the target of the last.
pub proof fn lemma_one_vote_front(votes: Seq<Vote>)
    requires
        one_vote_each(votes),
        votes.len() > 0,
    ensures
        one_vote_each(votes.drop_last()),
        forall|v: Vote| #[trigger]
            votes.drop_last().contains(v) ==> !(v.signer == votes.last().signer && v.target
                == votes.last().target),
{
    let front = votes.drop_last();
    assert forall|i: int, j: int| 0 <= i < j < front.len() implies !(front[i].signer
        == front[j].signer && front[i].target == front[j].target) by {
        assert(front[i] == votes[i] && front[j] == votes[j]);
    }
    assert forall|v: Vote| #[trigger] front.contains(v) implies !(v.signer == votes.last().signer
        && v.target == votes.last().target) by {
        let k = choose|k: int| 0 <= k < front.len() && front[k] == v;
        assert(votes[k] == v && votes[votes.len() - 1] == votes.last());
    }
}

/// A list keeps one vote each when a vote is added whose signer has none
/// on its target yet.
pub proof fn lemma_one_vote_push(votes: Seq<Vote>, vote: Vote)
    requires
        one_vote_each(votes),
        forall|i: int|
            0 <= i < votes.len() ==> !((#[trigger] votes[i]).signer == vote.signer
                && votes[i].target == vote.target),
    ensures
        one_vote_each(votes.push(vote)),
{
}

/// Discarding shortens the list and keeps one vote each.
pub proof fn lemma_discarded(votes: Seq<Vote>, voter: Option<Address>, target: Option<Address>)
    ensures
        discarded(votes, voter, target).len() <= votes.len(),
        one_vote_each(votes) ==> one_vote_each(discarded(votes, voter, target)),
    decreases votes.len(),
{
    if votes.len() > 0 {
        let front = votes.drop_last();
        let last = votes.last();
        let inner = discarded(front, voter, target);
        lemma_discarded(front, voter, target);
        if one_vote_each(votes) {
            lemma_one_vote_front(votes);
            if !concerns(last, voter, target) {
                assert forall|i: int| 0 <= i < inner.len() implies !((#[trigger] inner[i]).signer
                    == last.signer && inner[i].target == last.target) by {
                    assert(inner.contains(inner[i]));
                    lemma_discarded_contains(front, voter, target, inner[i]);
                }
                lemma_one_vote_push(inner, last);
            }
        }
    }
}

/// Discarding never raises a tally.
pub proof fn lemma_discarded_tally(
    votes: Seq<Vote>,
    voter: Option<Address>,
    target: Option<Address>,
    on: Address,
    authorize: bool,
)
    ensures
        tally_of(discarded(votes, voter, target), on, authorize) <= tally_of(votes, on, authorize),
    decreases votes.len(),
{
    if votes.len() > 0 {
        let front = votes.drop_last();
        lemma_discarded_tally(front, voter, target, on, authorize);
        if !concerns(votes.last(), voter, target) {
            assert(discarded(votes, voter, target).drop_last() =~= discarded(front, voter, target));
        }
    }
}

/// Casting one vote raises a tally by one at most.
pub proof fn lemma_cast_tally(votes: Seq<Vote>, vote: Vote, on: Address, authorize: bool)
    ensures
        tally_of(cast(votes, vote), on, authorize) <= tally_of(votes, on, authorize) + 1,
{
    let kept = discarded(votes, Some(vote.signer), Some(vote.target));
    lemma_discarded_tally(votes, Some(vote.signer), Some(vote.target), on, authorize);
    assert(cast(votes, vote).drop_last() =~= kept);
}

/// Discarding votes on one target leaves the tally of another alone.
pub proof fn lemma_discarded_other_tally(
    votes: Seq<Vote>,
    voter: Option<Address>,
    target: Address,
    on: Address,
    authorize: bool,
)
    requires
        target != on,
    ensures
        tally_of(discarded(votes, voter, Some(target)), on, authorize) == tally_of(
            votes,
            on,
            authorize,
        ),
    decreases votes.len(),
{
    if votes.len() > 0 {
        let front = votes.drop_last();
        lemma_discarded_other_tally(front, voter, target, on, authorize);
        if !concerns(votes.last(), voter, Some(target)) {
            assert(discarded(votes, voter, Some(target)).drop_last() =~= discarded(
                front,
                voter,
                Some(target),
            ));
        }
    }
}

/// After all votes on `target` are discarded its tally is zero.
pub proof fn lemma_discarded_target_tally(votes: Seq<Vote>, target: Address, authorize: bool)
    ensures
        tally_of(discarded(votes, None, Some(target)), target, authorize) == 0,
    decreases votes.len(),
{
    if votes.len() > 0 {
        let front = votes.drop_last();
        lemma_discarded_target_tally(front, target, authorize);
        if !concerns(votes.last(), None, Some(target)) {
            assert(discarded(votes, None, Some(target)).drop_last() =~= discarded(
                front,
                None,
                Some(target),
            ));
        }
    }
}

/// Casting keeps one vote per signer and target, and puts the vote last.
pub proof fn lemma_cast(votes: Seq<Vote>, vote: Vote)
    requires
        one_vote_each(votes),
    ensures
        one_vote_each(cast(votes, vote)),
        cast(votes, vote).last() == vote,
        cast(votes, vote).len() <= votes.len() + 1,
{
    let kept = discarded(votes, Some(vote.signer), Some(vote.target));
    lemma_discarded(votes, Some(vote.signer), Some(vote.target));
    assert forall|i: int| 0 <= i < kept.len() implies !((#[trigger] kept[i]).signer == vote.signer
        && kept[i].target == vote.target) by {
        assert(kept.contains(kept[i]));
        lemma_discarded_contains(votes, Some(vote.signer), Some(vote.target), kept[i]);
    }
    lemma_one_vote_push(kept, vote);
}

/// Whether `a` is one of `signers`.
pub fn contains_address(signers: &Vec<Address>, a: &Address) -> (found: bool)
    ensures
        found == signers@.contains(*a),
{
    let mut i: usize = 0;
    while i < signers.len()
        invariant
            i <= signers@.len(),
            forall|k: int| 0 <= k < i ==> signers@[k] != *a,
        decreases signers@.len() - i,
    {
        if signers[i] == *a {
            return true;
        }
        i = i + 1;
    }
    false
}

/// `signers` with `a` put in at its place.
pub fn insert_address(signers: &Vec<Address>, a: &Address) -> (out: Vec<Address>)
    ensures
        out@ == inserted(signers@, *a),
{
    let present = contains_address(signers, a);
    let mut k: usize = 0;
    if !present {
        assert(signers@.skip(0) =~= signers@);
        while k < signers.len() && signers[k].is_before(a)
            invariant
                k <= signers@.len(),
                rank(signers@, *a) == k + rank(signers@.skip(k as int), *a),
            decreases signers@.len() - k,
        {
            assert(signers@.skip(k as int).drop_first() =~= signers@.skip(k + 1));
            k = k + 1;
        }
    }
    let mut out: Vec<Address> = Vec::new();
    let mut i: usize = 0;
    while i < signers.len()
        invariant
            i <= signers@.len(),
            k <= signers@.len(),
            present || i <= k ==> out@ == signers@.take(i as int),
            !present && i > k ==> out@ == signers@.take(k as int).push(*a) + signers@.subrange(
                k as int,
                i as int,
            ),
        decreases signers@.len() - i,
    {
        if !present && i == k {
            out.push(*a);
            assert(out@ =~= signers@.take(k as int).push(*a) + signers@.subrange(k as int, i as int));
        }
        out.push(signers[i]);
        proof {
            if present || i < k {
                assert(out@ =~= signers@.take(i + 1));
            } else {
                assert(out@ =~= signers@.take(k as int).push(*a) + signers@.subrange(
                    k as int,
                    i + 1,
                ));
            }
        }
        i = i + 1;
    }
    if !present && k == signers.len() {
        out.push(*a);
    }
    proof {
        if present {
            assert(signers@.take(signers@.len() as int) =~= signers@);
        } else {
            assert(rank(signers@.skip(k as int), *a) == 0);
            assert(out@ =~= signers@.take(k as int).push(*a) + signers@.skip(k as int));
        }
    }
    out
}

/// `signers` without `a`.
pub fn remove_address(signers: &Vec<Address>, a: &Address) -> (out: Vec<Address>)
    ensures
        out@ == without(signers@, *a),
{
    let mut out: Vec<Address> = Vec::new();
    let mut i: usize = 0;
    while i < signers.len()
        invariant
            i <= signers@.len(),
            out@ == without(signers@.take(i as int), *a),
        decreases signers@.len() - i,
    {
        assert(signers@.take(i + 1).drop_last() =~= signers@.take(i as int));
        if signers[i] != *a {
            out.push(signers[i]);
        }
        i = i + 1;
    }
    assert(signers@.take(signers@.len() as int) =~= signers@);
    out
}

/// The ascending list of the addresses in `list`.
pub fn sort_addresses(list: &Vec<Address>) -> (out: Vec<Address>)
    ensures
        out@ == sorted_set(list@),
{
    let mut out: Vec<Address> = Vec::new();
    let mut i: usize = 0;
    while i < list.len()
        invariant
            i <= list@.len(),
            out@ == sorted_set(list@.take(i as int)),
        decreases list@.len() - i,
    {
        assert(list@.take(i + 1).drop_last() =~= list@.take(i as int));
        out = insert_address(&out, &list[i]);
        i = i + 1;
    }
    assert(list@.take(list@.len() as int) =~= list@);
    out
}

/// The last `n` of `entries`.
pub fn keep_last(entries: &Vec<Recent>, n: usize) -> (out: Vec<Recent>)
    ensures
        out@ == last_entries(entries@, n as nat),
{
    let len = entries.len();
    let start: usize = if len <= n {
        0
    } else {
        len - n
    };
    let mut out: Vec<Recent> = Vec::new();
    let mut i: usize = start;
    while i < len
        invariant
            start <= i <= len == entries@.len(),
            out@ == entries@.subrange(start as int, i as int),
        decreases len - i,
    {
        out.push(entries[i]);
        assert(out@ =~= entries@.subrange(start as int, i + 1));
        i = i + 1;
    }
    assert(entries@.subrange(0, len as int) =~= entries@);
    out
}

/// Whether `signer` sealed one of the entries.
pub fn is_among_recents(recents: &Vec<Recent>, signer: &Address) -> (found: bool)
    ensures
        found == among_recents(recents@, *signer),
{
    let mut i: usize = 0;
    while i < recents.len()
        invariant
            i <= recents@.len(),
            forall|k: int| 0 <= k < i ==> (#[trigger] recents@[k]).signer != *signer,
        decreases recents@.len() - i,
    {
        if recents[i].signer == *signer {
            return true;
        }
        i = i + 1;
    }
    false
}

/// Whether `signer` sealed one of the `limit` blocks that end with `number`.
pub fn has_signed_recently(
    recents: &Vec<Recent>,
    signer: &Address,
    number: u64,
    limit: usize,
) -> (found: bool)
    ensures
        found == signed_recently(recents@, *signer, number, limit as nat),
{
    let mut i: usize = 0;
    while i < recents.len()
        invariant
            i <= recents@.len(),
            forall|k: int|
                0 <= k < i ==> !((#[trigger] recents@[k]).signer == *signer && recents@[k].number
                    + limit > number),
        decreases recents@.len() - i,
    {
        let entry = recents[i];
        if entry.signer == *signer && (entry.number > number || number - entry.number
            < limit as u64) {
            return true;
        }
        i = i + 1;
    }
    false
}

/// `votes` without those of `voter` (if given) on `target` (if given).
pub fn discard_votes(
    votes: &Vec<Vote>,
    voter: Option<Address>,
    target: Option<Address>,
) -> (out: Vec<Vote>)
    ensures
        out@ == discarded(votes@, voter, target),
{
    let mut out: Vec<Vote> = Vec::new();
    let mut i: usize = 0;
    while i < votes.len()
        invariant
            i <= votes@.len(),
            out@ == discarded(votes@.take(i as int), voter, target),
        decreases votes@.len() - i,
    {
        assert(votes@.take(i + 1).drop_last() =~= votes@.take(i as int));
        let vote = votes[i];
        let by_voter = match voter {
            Some(a) => vote.signer == a,
            None => true,
        };
        let on_target = match target {
            Some(t) => vote.target == t,
            None => true,
        };
        if !(by_voter && on_target) {
            out.push(vote);
        }
        i = i + 1;
    }
    assert(votes@.take(votes@.len() as int) =~= votes@);
    out
}

/// Number of votes on `target` in the direction `authorize`.
pub fn count_votes(votes: &Vec<Vote>, target: &Address, authorize: bool) -> (count: usize)
    ensures
        count == tally_of(votes@, *target, authorize),
{
    let mut count: usize = 0;
    let mut i: usize = 0;
    while i < votes.len()
        invariant
            i <= votes@.len(),
            count == tally_of(votes@.take(i as int), *target, authorize),
            count <= i,
        decreases votes@.len() - i,
    {
        assert(votes@.take(i + 1).drop_last() =~= votes@.take(i as int));
        if votes[i].target == *target && votes[i].authorize == authorize {
            count = count + 1;
        }
        i = i + 1;
    }
    assert(votes@.take(votes@.len() as int) =~= votes@);
    count
}

/// `votes` after `vote` is cast.
pub fn cast_vote(votes: &Vec<Vote>, vote: Vote) -> (out: Vec<Vote>)
    ensures
        out@ == cast(votes@, vote),
{
    let mut out = discard_votes(votes, Some(vote.signer), Some(vote.target));
    out.push(vote);
    out
}

} // verus!
