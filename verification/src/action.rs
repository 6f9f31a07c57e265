//! Actions, input events, error kinds, and external-call outcomes.

use vstd::prelude::*;

verus! {

use crate::volume::Volume;

/// A unit of user- or system-originated intent flowing through the
/// dispatch protocol. Actions are pure data: behaviour lives in the
/// handlers that consume them.
#[derive(Debug, Clone, PartialEq, Eq)]
pub enum Action {
    /// Toggle the display orientation.
    FlipDisplay,
    /// A store operation already produced this volume; instantiate its
    /// virtual drive and wire it into the live collection.
    CreateDrive(Volume),
    /// Produce a copy-on-write snapshot of the named volume, then proceed
    /// as for `CreateDrive`.
    SnapshotDrive(String),
    /// Drive the named drive to `Unmounted`, remove it from the live
    /// collection and delete its backing volume.
    DeleteDrive(String),
    /// Add a network share for the named partition.
    SmbSharePartition(String),
    /// Remove the network share for the named partition.
    SmbRemoveShare(String),
}

impl Action {
    /// True of the network-share actions, the only follow-up actions the
    /// core handlers emit.
    pub open spec fn is_share(self) -> bool {
        match self {
            Action::SmbSharePartition(_) => true,
            Action::SmbRemoveShare(_) => true,
            _ => false,
        }
    }

    /// Dispatch rank: actions whose handling can emit follow-up actions
    /// have rank 1, actions whose handling emits nothing have rank 0.
    /// The trampoline's termination measure rests on this.
    pub open spec fn rank(self) -> nat {
        match self {
            Action::CreateDrive(_) => 1,
            Action::SnapshotDrive(_) => 1,
            Action::DeleteDrive(_) => 1,
            _ => 0,
        }
    }
}

/// A raw input event from the physical controls, as decoded by the input
/// collaborator and fed to the focused widget.
#[derive(Debug, Clone, Copy, PartialEq, Eq)]
pub enum Event {
    Up,
    Down,
    Select,
    Back,
}

/// Outcomes of the blocking external calls a handler may make. The
/// collaborators (mount/unmount, the volume-manager commands, the kernel's
/// gadget reconfiguration) report success or failure; the verified logic
/// takes those reports as inputs and is proved correct for every value.
#[derive(Debug, Clone, Copy, PartialEq, Eq)]
pub struct Outcomes {
    /// Mounting the partitions of a volume succeeded.
    pub mount_ok: bool,
    /// Unmounting the partitions of a volume succeeded.
    pub unmount_ok: bool,
    /// The kernel accepted the reconfigured LUN set.
    pub lun_ok: bool,
    /// The volume-manager command (snapshot, delete) succeeded.
    pub store_ok: bool,
}

impl Outcomes {
    /// Every external call succeeds.
    pub fn all_ok() -> (r: Outcomes)
        ensures
            r.mount_ok && r.unmount_ok && r.lun_ok && r.store_ok,
    {
        Outcomes { mount_ok: true, unmount_ok: true, lun_ok: true, store_ok: true }
    }
}

/// The error kinds surfaced by transitions and action handlers.
#[derive(Debug, Clone, Copy, PartialEq, Eq)]
pub enum PisoError {
    /// No volume of the given name exists in the store.
    VolumeNotFound,
    /// A volume (or drive) of the given name already exists.
    VolumeExists,
    /// The volume is still in use (mounted or exposed).
    VolumeBusy,
    /// The volume-manager command itself failed.
    StoreFailed,
    /// Mounting a partition failed (unrecognized filesystem, device busy).
    MountFailed,
    /// Unmounting a partition failed (a file is still open).
    UnmountFailed,
    /// The kernel rejected the reconfigured LUN set.
    GadgetRejected,
    /// The requested transition is not valid from the drive's current state.
    InvalidState,
    /// A drive that is not mounted locally cannot be shared.
    NotMountedInternal,
}

} // verus!
