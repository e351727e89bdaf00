use vstd::prelude::*;

use crate::address::Address;
use crate::errors::CronosError;
use crate::registry::RegistryPage;

verus! {

/// Lifecycle of a snapshot: it starts `InProgress` while pages are captured,
/// becomes `Current` when rotation promotes it, and is permanently
/// `Archived` (with the rotation timestamp) when the next snapshot takes
/// over. Transitions only ever move forward through these states.
#[derive(Clone, Copy, Debug, PartialEq, Eq, Structural)]
pub enum SnapshotStatus {
    Archived { ts: u64 },
    Current,
    InProgress,
}

/// A point-in-time capture of the registry's node set.
///
/// A snapshot accumulates pages one call at a time (to bound per-call cost)
/// until its `page_count` and `node_count` match the registry's; only then
/// may rotation promote it to `Current`.
#[derive(Clone, Debug)]
pub struct Snapshot {
    pub bump: u8,
    pub id: u64,
    pub node_count: u64,
    pub page_count: u64,
    pub nodes: Vec<Address>,
    pub status: SnapshotStatus,
}

impl Snapshot {
    /// A freshly initialized snapshot: empty, `InProgress`, numbered `id`.
    pub open spec fn is_init(self, bump: u8, id: u64) -> bool {
        &&& self.bump == bump
        &&& self.id == id
        &&& self.node_count == 0
        &&& self.page_count == 0
        &&& self.nodes@.len() == 0
        &&& self.status is InProgress
    }

    /// Initialize this snapshot record in place.
    ///
    /// Fails with `AccountAlreadyInitialized` when the record already
    /// carries a bump; otherwise resets it to an empty in-progress capture.
    pub fn new(&mut self, bump: u8, id: u64) -> (r: Result<(), CronosError>)
        ensures
            old(self).bump != 0 ==> r == Err::<(), CronosError>(
                CronosError::AccountAlreadyInitialized,
            ) && *final(self) == *old(self),
            old(self).bump == 0 ==> r is Ok && final(self).is_init(bump, id),
    {
        if self.bump != 0 {
            return Err(CronosError::AccountAlreadyInitialized);
        }
        self.bump = bump;
        self.id = id;
        self.node_count = 0;
        self.page_count = 0;
        self.nodes = Vec::new();
        self.status = SnapshotStatus::InProgress;
        assert(self.nodes@ =~= Seq::<Address>::empty());
        Ok(())
    }

    /// The result `capture_page` reports for this snapshot and `page`.
    pub open spec fn capture_result(self, page: RegistryPage) -> Result<(), CronosError> {
        if !(self.status is InProgress) {
            Err(CronosError::SnapshotNotInProgress)
        } else if page.id != self.page_count {
            Err(CronosError::PageRangeInvalid)
        } else {
            Ok(())
        }
    }

    /// Capture one registry page into this snapshot.
    ///
    /// Pages must be captured strictly in order, one call per page, while
    /// the snapshot is still `InProgress`; the snapshot's counters
    /// accumulate until they match the registry's.
    pub fn capture_page(&mut self, page: &RegistryPage) -> (r: Result<(), CronosError>)
        requires
            old(self).node_count + page.nodes@.len() <= u64::MAX,
            old(self).page_count < u64::MAX,
        ensures
            r == old(self).capture_result(*page),
            r is Err ==> *final(self) == *old(self),
            r is Ok ==> {
                &&& final(self).bump == old(self).bump
                &&& final(self).id == old(self).id
                &&& final(self).status == old(self).status
                &&& final(self).node_count == old(self).node_count + page.nodes@.len()
                &&& final(self).page_count == old(self).page_count + 1
                &&& final(self).nodes@ == old(self).nodes@ + page.nodes@
            },
    {
        if !matches!(self.status, SnapshotStatus::InProgress) {
            return Err(CronosError::SnapshotNotInProgress);
        }
        if page.id != self.page_count {
            return Err(CronosError::PageRangeInvalid);
        }
        let ghost nodes0 = self.nodes@;
        let mut i: usize = 0;
        while i < page.nodes.len()
            invariant
                i <= page.nodes@.len(),
                self.nodes@ =~= nodes0 + page.nodes@.subrange(0, i as int),
                self.node_count == old(self).node_count,
                self.page_count == old(self).page_count,
                self.bump == old(self).bump,
                self.id == old(self).id,
                self.status == old(self).status,
                old(self).node_count + page.nodes@.len() <= u64::MAX,
                old(self).page_count < u64::MAX,
            decreases page.nodes@.len() - i,
        {
            self.nodes.push(page.nodes[i]);
            i = i + 1;
            assert(self.nodes@ =~= nodes0 + page.nodes@.subrange(0, i as int));
        }
        assert(self.nodes@ =~= nodes0 + page.nodes@);
        self.node_count = self.node_count + page.nodes.len() as u64;
        self.page_count = self.page_count + 1;
        Ok(())
    }
}

} // verus!
