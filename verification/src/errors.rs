use vstd::prelude::*;

verus! {

/// Every failure the state machine operations can report.
///
/// Authorization failures (`NotAuthorizedAdmin`, `NotAuthorizedOwner`) are
/// fatal to the requested operation; invariant failures (`RegistryLocked`,
/// `PageRangeInvalid`, the snapshot errors) indicate caller sequencing bugs
/// and are safe to retry after re-reading state; `PageFull` and
/// `AddressSpaceExhausted` are resource exhaustion.
#[derive(Clone, Copy, Debug, PartialEq, Eq, Structural)]
pub enum CronosError {
    AccountAlreadyInitialized,
    AddressSpaceExhausted,
    InsufficientFee,
    NotAuthorizedAdmin,
    NotAuthorizedOwner,
    PageFull,
    PageRangeInvalid,
    PayloadTooLarge,
    RegistryLocked,
    RegistryMustBeLocked,
    ScheduleInvalid,
    SnapshotIncomplete,
    SnapshotNotCurrent,
    SnapshotNotInProgress,
    TaskNotDue,
}

} // verus!
