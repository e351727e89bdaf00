use vstd::prelude::*;
use vstd::string::StringSliceAdditionalSpecFns;

use crate::address::{derive_address, pda_of, Address};
use crate::errors::CronosError;
use crate::snapshot::{Snapshot, SnapshotStatus};

verus! {

/// The seed components that locate the registry record.
pub open spec fn registry_seeds() -> Seq<Seq<u8>> {
    seq!["registry".spec_bytes()]
}

/// Number of node records one registry page can hold. Paging bounds the
/// write cost of a single registration to one page instead of the whole
/// node set.
pub const PAGE_LIMIT: usize = 10;

/// A registered executor identity.
#[derive(Clone, Copy, Debug, PartialEq, Eq, Structural)]
pub struct Node {
    pub authority: Address,
    pub bump: u8,
}

/// One fixed-capacity shard of the registry: page `id` holds the addresses
/// of nodes `id * PAGE_LIMIT ..` in registration order. Pages are
/// append-only and never deleted.
#[derive(Clone, Debug)]
pub struct RegistryPage {
    pub bump: u8,
    pub id: u64,
    pub nodes: Vec<Address>,
}

/// Root of the node set: counters over nodes, pages and snapshots, plus the
/// lock that a snapshot capture holds until rotation completes.
#[derive(Clone, Copy, Debug, PartialEq, Eq, Structural)]
pub struct Registry {
    pub bump: u8,
    pub is_locked: bool,
    pub mint: Address,
    pub node_count: u64,
    pub page_count: u64,
    pub snapshot_count: u64,
}

impl RegistryPage {
    /// A freshly opened page: empty, numbered `id`.
    pub open spec fn is_init(self, bump: u8, id: u64) -> bool {
        &&& self.bump == bump
        &&& self.id == id
        &&& self.nodes@.len() == 0
    }
}

impl Registry {
    /// The canonical storage address of the registry record under
    /// `program`, with its bump, re-derivable by any party from the fixed
    /// seed alone.
    pub fn pda(program: &Address) -> (r: Result<(Address, u8), CronosError>)
        ensures
            r matches Ok(p) ==> pda_of(registry_seeds(), *program) == Some(p),
            r matches Err(e) ==> pda_of(registry_seeds(), *program) is None && e
                == CronosError::AddressSpaceExhausted,
    {
        let mut seeds: Vec<Vec<u8>> = Vec::new();
        seeds.push(vstd::slice::slice_to_vec("registry".as_bytes()));
        proof {
            assert(seeds.deep_view() =~~= registry_seeds());
        }
        derive_address(seeds, program)
    }

    /// Initialize the registry record.
    ///
    /// Fails with `AccountAlreadyInitialized` when a bump is already set;
    /// otherwise all counters start at zero and the registry is unlocked.
    pub fn new(&mut self, bump: u8, mint: Address) -> (r: Result<(), CronosError>)
        ensures
            old(self).bump != 0 ==> r == Err::<(), CronosError>(
                CronosError::AccountAlreadyInitialized,
            ) && *final(self) == *old(self),
            old(self).bump == 0 ==> r is Ok && *final(self) == (Registry {
                bump,
                is_locked: false,
                mint,
                node_count: 0,
                page_count: 0,
                snapshot_count: 0,
            }),
    {
        if self.bump != 0 {
            return Err(CronosError::AccountAlreadyInitialized);
        }
        self.bump = bump;
        self.is_locked = false;
        self.mint = mint;
        self.node_count = 0;
        self.page_count = 0;
        self.snapshot_count = 0;
        Ok(())
    }

    /// The result `new_node` reports for this registry, node record and page.
    pub open spec fn new_node_result(self, node: Node, page: RegistryPage) -> Result<
        (),
        CronosError,
    > {
        if self.is_locked {
            Err(CronosError::RegistryLocked)
        } else if node.bump != 0 {
            Err(CronosError::AccountAlreadyInitialized)
        } else if page.nodes@.len() >= PAGE_LIMIT {
            Err(CronosError::PageFull)
        } else {
            Ok(())
        }
    }

    /// Register a node: initialize its record and append its address to the
    /// target page.
    ///
    /// No registration succeeds while the registry is locked; a full page
    /// reports `PageFull`. On success the node's address is appended to the
    /// page and `node_count` grows by one; on any error nothing changes.
    pub fn new_node(
        &mut self,
        authority: Address,
        node: &mut Node,
        node_bump: u8,
        node_address: Address,
        page: &mut RegistryPage,
    ) -> (r: Result<(), CronosError>)
        requires
            old(self).node_count < u64::MAX,
        ensures
            r == old(self).new_node_result(*old(node), *old(page)),
            r is Err ==> *final(self) == *old(self) && *final(node) == *old(node) && *final(page)
                == *old(page),
            r is Ok ==> {
                &&& *final(node) == (Node { authority, bump: node_bump })
                &&& final(page).bump == old(page).bump
                &&& final(page).id == old(page).id
                &&& final(page).nodes@ == old(page).nodes@.push(node_address)
                &&& *final(self) == (Registry {
                    node_count: (old(self).node_count + 1) as u64,
                    ..*old(self)
                })
            },
    {
        if self.is_locked {
            return Err(CronosError::RegistryLocked);
        }
        if node.bump != 0 {
            return Err(CronosError::AccountAlreadyInitialized);
        }
        if page.nodes.len() >= PAGE_LIMIT {
            return Err(CronosError::PageFull);
        }
        node.authority = authority;
        node.bump = node_bump;
        page.nodes.push(node_address);
        self.node_count = self.node_count + 1;
        Ok(())
    }

    /// The result `new_page` reports for this registry and page record.
    /// A page opens exactly when every earlier page is full: `node_count`
    /// must equal `page_count * PAGE_LIMIT`.
    pub open spec fn new_page_result(self, page: RegistryPage) -> Result<(), CronosError> {
        if self.is_locked {
            Err(CronosError::RegistryLocked)
        } else if self.node_count != self.page_count * (PAGE_LIMIT as u64) {
            Err(CronosError::PageRangeInvalid)
        } else if page.bump != 0 {
            Err(CronosError::AccountAlreadyInitialized)
        } else {
            Ok(())
        }
    }

    /// Open the next registry page.
    ///
    /// Succeeds if and only if the registry is unlocked, the page record is
    /// fresh, and `node_count` is exactly `page_count * PAGE_LIMIT` — pages
    /// open strictly in order, each only once the previous one is full.
    pub fn new_page(&mut self, page: &mut RegistryPage, page_bump: u8) -> (r: Result<
        (),
        CronosError,
    >)
        requires
            old(self).page_count < u64::MAX,
        ensures
            r == old(self).new_page_result(*old(page)),
            r is Err ==> *final(self) == *old(self) && *final(page) == *old(page),
            r is Ok ==> final(page).is_init(page_bump, old(self).page_count) && *final(self)
                == (Registry { page_count: (old(self).page_count + 1) as u64, ..*old(self) }),
    {
        if self.is_locked {
            return Err(CronosError::RegistryLocked);
        }
        let limit = PAGE_LIMIT as u64;
        let ok = self.node_count % limit == 0 && self.node_count / limit == self.page_count;
        proof {
            vstd::arithmetic::div_mod::lemma_fundamental_div_mod(
                self.node_count as int,
                limit as int,
            );
        }
        if !ok {
            return Err(CronosError::PageRangeInvalid);
        }
        if page.bump != 0 {
            return Err(CronosError::AccountAlreadyInitialized);
        }
        page.bump = page_bump;
        page.id = self.page_count;
        page.nodes = Vec::new();
        self.page_count = self.page_count + 1;
        Ok(())
    }

    /// The result `new_snapshot` reports.
    pub open spec fn new_snapshot_result(self, snapshot: Snapshot) -> Result<(), CronosError> {
        if self.is_locked {
            Err(CronosError::RegistryLocked)
        } else if snapshot.bump != 0 {
            Err(CronosError::AccountAlreadyInitialized)
        } else {
            Ok(())
        }
    }

    /// Begin a snapshot: lock the registry and initialize the capture.
    ///
    /// The lock stays held until a successful `rotate_snapshot` releases
    /// it, so the node set cannot change while the capture walks the pages.
    pub fn new_snapshot(&mut self, snapshot: &mut Snapshot, snapshot_bump: u8) -> (r: Result<
        (),
        CronosError,
    >)
        ensures
            r == old(self).new_snapshot_result(*old(snapshot)),
            r is Err ==> *final(self) == *old(self) && *final(snapshot) == *old(snapshot),
            r is Ok ==> final(snapshot).is_init(snapshot_bump, old(self).snapshot_count)
                && *final(self) == (Registry { is_locked: true, ..*old(self) }),
    {
        if self.is_locked {
            return Err(CronosError::RegistryLocked);
        }
        if snapshot.bump != 0 {
            return Err(CronosError::AccountAlreadyInitialized);
        }
        self.is_locked = true;
        match snapshot.new(snapshot_bump, self.snapshot_count) {
            Ok(()) => Ok(()),
            Err(e) => Err(e),  // unreachable: the bump was checked above
        }
    }

    /// Whether `snapshot` has captured this registry exhaustively.
    pub open spec fn capture_complete(self, snapshot: Snapshot) -> bool {
        snapshot.page_count == self.page_count && snapshot.node_count == self.node_count
    }

    /// The result `rotate_snapshot` reports, with the original's error
    /// precedence: lock, progress, completeness, then current-snapshot
    /// checks.
    pub open spec fn rotate_result(self, current: Option<Snapshot>, next: Snapshot) -> Result<
        (),
        CronosError,
    > {
        if !self.is_locked {
            Err(CronosError::RegistryMustBeLocked)
        } else if !(next.status is InProgress) {
            Err(CronosError::SnapshotNotInProgress)
        } else if !self.capture_complete(next) {
            Err(CronosError::SnapshotIncomplete)
        } else if self.snapshot_count > 0 && current is None {
            Err(CronosError::SnapshotNotCurrent)
        } else if current matches Some(c) && !(c.status is Current) {
            Err(CronosError::SnapshotNotCurrent)
        } else {
            Ok(())
        }
    }

    /// Promote `next` to the current snapshot.
    ///
    /// Requires the registry to be locked (by `new_snapshot`), `next` to be
    /// a complete in-progress capture, and — whenever a current snapshot
    /// should exist (`snapshot_count > 0`) — the actual current snapshot to
    /// be supplied. On success the previous current snapshot (if any) is
    /// archived with timestamp `now`, `next` becomes `Current`,
    /// `snapshot_count` grows by one and the registry unlocks. On any error
    /// nothing changes.
    pub fn rotate_snapshot(
        &mut self,
        now: u64,
        current: &mut Option<Snapshot>,
        next: &mut Snapshot,
    ) -> (r: Result<(), CronosError>)
        requires
            old(self).snapshot_count < u64::MAX,
        ensures
            r == old(self).rotate_result(*old(current), *old(next)),
            r is Err ==> *final(self) == *old(self) && *final(current) == *old(current)
                && *final(next) == *old(next),
            r is Ok ==> {
                &&& *final(self) == (Registry {
                    is_locked: false,
                    snapshot_count: (old(self).snapshot_count + 1) as u64,
                    ..*old(self)
                })
                &&& *final(next) == (Snapshot {
                    status: SnapshotStatus::Current,
                    ..*old(next)
                })
                &&& (*old(current) matches Some(c) ==> *final(current) == Some(
                    Snapshot { status: SnapshotStatus::Archived { ts: now }, ..c },
                ))
                &&& (*old(current) is None ==> *final(current) is None)
            },
    {
        if !self.is_locked {
            return Err(CronosError::RegistryMustBeLocked);
        }
        if !matches!(next.status, SnapshotStatus::InProgress) {
            return Err(CronosError::SnapshotNotInProgress);
        }
        if !(next.page_count == self.page_count && next.node_count == self.node_count) {
            return Err(CronosError::SnapshotIncomplete);
        }
        if self.snapshot_count > 0 && current.is_none() {
            return Err(CronosError::SnapshotNotCurrent);
        }
        match current.take() {
            Some(mut c) => {
                if !matches!(c.status, SnapshotStatus::Current) {
                    *current = Some(c);
                    return Err(CronosError::SnapshotNotCurrent);
                }
                c.status = SnapshotStatus::Archived { ts: now };
                *current = Some(c);
            },
            None => {},
        }
        next.status = SnapshotStatus::Current;
        self.snapshot_count = self.snapshot_count + 1;
        self.is_locked = false;
        Ok(())
    }

    /// Set the lock that blocks registrations and page openings.
    pub fn lock(&mut self) -> (r: Result<(), CronosError>)
        ensures
            r is Ok,
            *final(self) == (Registry { is_locked: true, ..*old(self) }),
    {
        self.is_locked = true;
        Ok(())
    }

    /// Release the lock.
    pub fn unlock(&mut self) -> (r: Result<(), CronosError>)
        ensures
            r is Ok,
            *final(self) == (Registry { is_locked: false, ..*old(self) }),
    {
        self.is_locked = false;
        Ok(())
    }
}

/// Law (page ordering): with the registry unlocked and a fresh page record,
/// `new_page` succeeds if and only if `node_count == page_count * PAGE_LIMIT`,
/// and reports `PageRangeInvalid` on every other count.
pub proof fn lemma_page_ordering(reg: Registry, page: RegistryPage)
    requires
        !reg.is_locked,
        page.bump == 0,
    ensures
        reg.new_page_result(page) is Ok <==> reg.node_count == reg.page_count * (
        PAGE_LIMIT as u64),
        reg.node_count != reg.page_count * (PAGE_LIMIT as u64) ==> reg.new_page_result(page)
            == Err::<(), CronosError>(CronosError::PageRangeInvalid),
{
}

/// Law (lock exclusivity): no node registration succeeds while the registry
/// is locked, and rotation succeeds only while it is locked.
pub proof fn lemma_lock_exclusivity(
    reg: Registry,
    node: Node,
    page: RegistryPage,
    current: Option<Snapshot>,
    next: Snapshot,
)
    ensures
        reg.is_locked ==> reg.new_node_result(node, page) == Err::<(), CronosError>(
            CronosError::RegistryLocked,
        ),
        reg.rotate_result(current, next) is Ok ==> reg.is_locked,
{
}

/// Law (snapshot completeness): a locked registry rejects rotation with
/// `SnapshotIncomplete` whenever the in-progress capture's counts differ
/// from the registry's, for every mismatched pair of counts.
pub proof fn lemma_snapshot_completeness(reg: Registry, current: Option<Snapshot>, next: Snapshot)
    requires
        reg.is_locked,
        next.status is InProgress,
        next.node_count != reg.node_count || next.page_count != reg.page_count,
    ensures
        reg.rotate_result(current, next) == Err::<(), CronosError>(CronosError::SnapshotIncomplete),
{
}

/// Law (snapshot sequencing): once any snapshot has been rotated in
/// (`snapshot_count > 0`), rotation without a supplied current snapshot
/// fails, and supplying one that is not actually `Current` fails too.
pub proof fn lemma_snapshot_sequencing(reg: Registry, current: Option<Snapshot>, next: Snapshot)
    requires
        reg.snapshot_count > 0,
    ensures
        current is None ==> reg.rotate_result(current, next) is Err,
        (current matches Some(c) && !(c.status is Current)) ==> reg.rotate_result(current, next)
            is Err,
        reg.rotate_result(current, next) is Ok ==> (current matches Some(c) && c.status
            is Current),
{
}

} // verus!
