//! Snapshots kept by the hash of their block, so that the descendants of
//! a block are validated without replaying its ancestry again.

use vstd::prelude::*;
use crate::error::ValidationError;
use crate::header::{is_checkpoint, Header};
use crate::snapshot::{outcome, seeded, Snapshot, SnapshotView};
use crate::types::H256;

verus! {

/// Whether one of `entries` describes the block `hash`.
pub open spec fn holds(entries: Seq<SnapshotView>, hash: H256) -> bool {
    exists|i: int| 0 <= i < entries.len() && (#[trigger] entries[i]).hash == hash
}

/// No two entries describe the same block.
pub open spec fn distinct_blocks(entries: Seq<SnapshotView>) -> bool {
    forall|i: int, j: int| 0 <= i < j < entries.len() ==> entries[i].hash != entries[j].hash
}

/// The last `n` of `entries`, or all of them if there are fewer.
pub open spec fn newest(entries: Seq<SnapshotView>, n: nat) -> Seq<SnapshotView> {
    if entries.len() <= n {
        entries
    } else {
        entries.subrange(entries.len() - n, entries.len() as int)
    }
}

/// The views of a list of snapshots.
pub open spec fn snapshot_views(entries: Seq<Snapshot>) -> Seq<SnapshotView> {
    Seq::new(entries.len(), |i: int| entries[i]@)
}

/// What a walk back along the chain is to do at a block, on the way to a
/// snapshot to start the replay from.
#[derive(Debug)]
pub enum Walk {
    /// Fetch the header of the block, and ask again with it.
    Fetch,
    /// Keep the header for the replay and go on at the parent, whose hash
    /// this is.
    Parent(H256),
    /// Stop: the replay starts from this snapshot, or there is none
    /// because the checkpoint breaks the rules.
    Base(Result<Snapshot, ValidationError>),
}

/// A bounded store of snapshots, oldest first.
pub struct SnapshotCache {
    entries: Vec<Snapshot>,
    capacity: usize,
}

/// What a cache holds.
pub ghost struct CacheView {
    pub entries: Seq<SnapshotView>,
    pub capacity: nat,
}

impl CacheView {
    /// No block is described twice, and no more snapshots are kept than
    /// the capacity allows.
    pub open spec fn well_formed(self) -> bool {
        distinct_blocks(self.entries) && self.entries.len() <= self.capacity
    }

    /// The cache after `snapshot` is handed in: unchanged where its block
    /// is described already; else the snapshot is last, and the oldest
    /// entries leave as the capacity demands.
    pub open spec fn with(self, snapshot: SnapshotView) -> CacheView {
        if holds(self.entries, snapshot.hash) {
            self
        } else {
            CacheView { entries: newest(self.entries.push(snapshot), self.capacity), ..self }
        }
    }
}

impl View for SnapshotCache {
    type V = CacheView;

    closed spec fn view(&self) -> CacheView {
        CacheView { entries: snapshot_views(self.entries@), capacity: self.capacity as nat }
    }
}

impl SnapshotCache {
    #[verifier::type_invariant]
    spec fn always_well_formed(self) -> bool {
        self@.well_formed()
    }

    /// An empty cache that keeps at most `capacity` snapshots.
    pub fn new(capacity: usize) -> (cache: SnapshotCache)
        ensures
            cache@ == (CacheView { entries: Seq::empty(), capacity: capacity as nat }),
    {
        let cache = SnapshotCache { entries: Vec::new(), capacity };
        assert(cache@.entries =~= Seq::empty());
        cache
    }

    /// Number of snapshots kept.
    pub fn len(&self) -> (len: usize)
        ensures
            len == self@.entries.len(),
            self@.well_formed(),
    {
        proof {
            use_type_invariant(self);
        }
        self.entries.len()
    }

    /// The snapshot of the block `hash`, if it is kept.
    pub fn get(&self, hash: &H256) -> (found: Option<&Snapshot>)
        ensures
            found is Some <==> holds(self@.entries, *hash),
            found matches Some(snapshot) ==> snapshot@.hash == *hash && self@.entries.contains(
                snapshot@,
            ),
    {
        let mut i: usize = 0;
        while i < self.entries.len()
            invariant
                i <= self.entries@.len(),
                forall|k: int| 0 <= k < i ==> (#[trigger] self@.entries[k]).hash != *hash,
            decreases self.entries@.len() - i,
        {
            if self.entries[i].hash() == *hash {
                assert(self@.entries[i as int] == self.entries@[i as int]@);
                return Some(&self.entries[i]);
            }
            i = i + 1;
        }
        None
    }

    /// The next step of a walk back that has reached the block `cursor`,
    /// whose header is `fetched` if it was fetched already. A snapshot
    /// that is kept ends the walk before any header is fetched; else a
    /// checkpoint ends it, with the snapshot that it alone gives; any
    /// other block sends the walk on to its parent.
    pub fn walk(&self, cursor: &H256, fetched: Option<&Header>, epoch: u64) -> (step: Walk)
        requires
            epoch > 0,
        ensures
            match step {
                Walk::Fetch => !holds(self@.entries, *cursor) && fetched is None,
                Walk::Parent(parent) => {
                    &&& !holds(self@.entries, *cursor)
                    &&& fetched is Some
                    &&& !is_checkpoint(fetched->Some_0.number, epoch)
                    &&& parent == fetched->Some_0.parent_hash
                },
                Walk::Base(base) => if holds(self@.entries, *cursor) {
                    &&& base is Ok
                    &&& base->Ok_0@.hash == *cursor
                    &&& self@.entries.contains(base->Ok_0@)
                } else {
                    &&& fetched is Some
                    &&& is_checkpoint(fetched->Some_0.number, epoch)
                    &&& outcome(base) == seeded(fetched->Some_0@, epoch)
                },
            },
    {
        match self.get(cursor) {
            Some(kept) => Walk::Base(Ok(kept.duplicate())),
            None => match fetched {
                None => Walk::Fetch,
                Some(header) => if header.is_checkpoint(epoch) {
                    Walk::Base(Snapshot::from_checkpoint(header, epoch))
                } else {
                    Walk::Parent(header.parent_hash)
                },
            },
        }
    }

    /// The cache with `snapshot` handed in. Where its block is described
    /// already the snapshot kept stays: both were made from the same
    /// ancestry.
    pub fn insert(self, snapshot: Snapshot) -> (cache: SnapshotCache)
        ensures
            cache@ == self@.with(snapshot@),
    {
        proof {
            use_type_invariant(&self);
        }
        let hash = snapshot.hash();
        if self.get(&hash).is_some() {
            return self;
        }
        let ghost before = self@.entries;
        let capacity = self.capacity;
        let mut entries = self.entries;
        if capacity == 0 {
            assert(snapshot_views(entries@) =~= newest(before.push(snapshot@), 0));
            return SnapshotCache { entries, capacity };
        }
        if entries.len() == capacity {
            entries.remove(0);
        }
        entries.push(snapshot);
        proof {
            let pushed = before.push(snapshot@);
            let kept = snapshot_views(entries@);
            assert(kept =~= newest(pushed, capacity as nat));
            assert forall|i: int, j: int| 0 <= i < j < kept.len() implies kept[i].hash
                != kept[j].hash by {
                let shift = pushed.len() - kept.len();
                assert(kept[i] == pushed[i + shift]);
                assert(kept[j] == pushed[j + shift]);
                assert(pushed[i + shift] == before[i + shift]);
                if j + shift < before.len() {
                    assert(pushed[j + shift] == before[j + shift]);
                }
            }
        }
        SnapshotCache { entries, capacity }
    }
}

} // verus!
