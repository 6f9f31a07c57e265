//! The virtual drive: one volume coupled to its mount/exposure state
//! machine.
//!
//! A drive is `Unmounted` (dormant), `Internal` (partitions mounted on
//! the local filesystem) or `External` (raw block device registered as a
//! LUN with the shared USB gadget) — exactly one of the three at any
//! time, and a transition between `Internal` and `External` always
//! passes through the unmounted step: local filesystem access and raw
//! host-side access never overlap. The mount, unmount and peripheral
//! reconfiguration calls are blocking external collaborators; their
//! outcomes enter each transition as plain booleans, and every failure
//! is proved to leave the drive in its pre-transition state with no
//! orphaned LUN and no partial mount.

use vstd::prelude::*;
use vstd::string::*;

verus! {

use crate::action::PisoError;
use crate::gadget::Gadget;
use crate::gadget::Lun;
use crate::strutil::derive_mount_paths;
use crate::strutil::mount_paths_spec;
use crate::volume::Volume;

/// Payload of the `Internal` state: the ordered local mount paths, one
/// per partition.
#[derive(Debug, Clone, PartialEq, Eq)]
pub struct InternalInfo {
    pub part_mount_paths: Vec<String>,
}

/// Payload of the `External` state: the LUN slot the drive occupies.
#[derive(Debug, Clone, PartialEq, Eq)]
pub struct ExternalInfo {
    pub lun_id: u64,
}

/// The drive's mount state: a closed variant type, so holding two of
/// these states at once is structurally unrepresentable.
#[derive(Debug, Clone, PartialEq, Eq)]
pub enum MountState {
    /// No filesystem access of any kind; the volume is dormant.
    Unmounted,
    /// The volume's partitions are mounted on the local filesystem.
    Internal(InternalInfo),
    /// The volume's raw block device is registered as a LUN.
    External(ExternalInfo),
}

/// A storage volume coupled to its mount state.
#[derive(Debug, Clone, PartialEq, Eq)]
pub struct VirtualDrive {
    pub volume: Volume,
    pub state: MountState,
}

impl VirtualDrive {
    /// The drive's name: derived from its volume's name (the display
    /// layer may additionally transliterate it, which does not affect
    /// the underlying identity).
    pub open spec fn name_s(self) -> Seq<char> {
        self.volume.name@
    }

    pub open spec fn is_unmounted(self) -> bool {
        self.state is Unmounted
    }

    pub open spec fn is_internal(self) -> bool {
        self.state is Internal
    }

    pub open spec fn is_external(self) -> bool {
        self.state is External
    }

    /// The views of the local mount paths; empty unless `Internal`.
    pub open spec fn mount_paths_of(self) -> Seq<Seq<char>> {
        match self.state {
            MountState::Internal(info) => info.part_mount_paths@.map_values(|p: String| p@),
            _ => Seq::empty(),
        }
    }

    /// The LUN slot id; meaningful only when `External`.
    pub open spec fn lun_id_of(self) -> u64 {
        match self.state {
            MountState::External(info) => info.lun_id,
            _ => 0,
        }
    }

    /// Well-formedness: when `Internal`, the mount paths are exactly the
    /// deterministic per-partition paths derived from the volume's name.
    pub open spec fn wf(self) -> bool {
        self.is_internal() ==> self.mount_paths_of() == mount_paths_spec(
            self.name_s(),
            self.volume.n_parts as nat,
        )
    }

    /// A fresh drive over the volume, initially unmounted.
    pub fn new(volume: Volume) -> (d: VirtualDrive)
        ensures
            d.volume == volume,
            d.is_unmounted(),
            d.wf(),
    {
        VirtualDrive { volume, state: MountState::Unmounted }
    }

    /// The drive's externally visible name.
    pub fn name(&self) -> (r: &String)
        ensures
            r@ == self.name_s(),
    {
        &self.volume.name
    }

    /// Mounts every partition of the volume's block device at its
    /// deterministic local path. Valid from `Unmounted` only. `mount_ok`
    /// is the outcome of the external mount calls: on failure the drive
    /// remains `Unmounted` — no partial mount.
    pub fn mount_internal(&mut self, mount_ok: bool) -> (r: Result<(), PisoError>)
        requires
            old(self).wf(),
        ensures
            final(self).wf(),
            final(self).volume == old(self).volume,
            !old(self).is_unmounted() ==> r == Err::<(), PisoError>(PisoError::InvalidState) && *final(self)
                == *old(self),
            old(self).is_unmounted() && !mount_ok ==> r == Err::<(), PisoError>(
                PisoError::MountFailed,
            ) && *final(self) == *old(self),
            old(self).is_unmounted() && mount_ok ==> {
                &&& r == Ok::<(), PisoError>(())
                &&& final(self).is_internal()
                &&& final(self).mount_paths_of() == mount_paths_spec(
                    old(self).name_s(),
                    old(self).volume.n_parts as nat,
                )
            },
    {
        match self.state {
            MountState::Unmounted => {},
            _ => { return Err(PisoError::InvalidState) },
        }
        if !mount_ok {
            return Err(PisoError::MountFailed);
        }
        let paths = derive_mount_paths(self.volume.name.as_str(), self.volume.n_parts);
        self.state = MountState::Internal(InternalInfo { part_mount_paths: paths });
        Ok(())
    }

    /// Unmounts every partition, returning to `Unmounted`. Valid from
    /// `Internal` only. `unmount_ok` is the outcome of the external
    /// unmount calls: on failure (a file is still open) the drive
    /// remains `Internal`, untouched.
    pub fn unmount_partitions(&mut self, unmount_ok: bool) -> (r: Result<(), PisoError>)
        requires
            old(self).wf(),
        ensures
            final(self).wf(),
            final(self).volume == old(self).volume,
            !old(self).is_internal() ==> r == Err::<(), PisoError>(PisoError::InvalidState) && *final(self)
                == *old(self),
            old(self).is_internal() && !unmount_ok ==> r == Err::<(), PisoError>(
                PisoError::UnmountFailed,
            ) && *final(self) == *old(self),
            old(self).is_internal() && unmount_ok ==> r == Ok::<(), PisoError>(()) && final(self).is_unmounted(),
    {
        match self.state {
            MountState::Internal(_) => {},
            _ => { return Err(PisoError::InvalidState) },
        }
        if !unmount_ok {
            return Err(PisoError::UnmountFailed);
        }
        self.state = MountState::Unmounted;
        Ok(())
    }

    /// Exposes the drive to the connected host: registers its raw block
    /// device as a LUN with the shared gadget, triggering a peripheral
    /// reconfiguration. Valid from `Internal` or `Unmounted`; from
    /// `Internal` all partitions are unmounted first, and an unmount
    /// failure aborts the transition with the drive still `Internal` and
    /// no LUN registered. A rejected reconfiguration leaves the gadget's
    /// LUN set untouched and the drive unmounted.
    pub fn expose_external(&mut self, gadget: &mut Gadget, unmount_ok: bool, lun_ok: bool) -> (r:
        Result<(), PisoError>)
        requires
            old(self).wf(),
            old(gadget).wf(),
            old(gadget).next_id < u64::MAX,
        ensures
            final(self).wf(),
            final(gadget).wf(),
            final(self).volume == old(self).volume,
            old(self).is_external() ==> r == Err::<(), PisoError>(PisoError::InvalidState) && *final(self)
                == *old(self) && *final(gadget) == *old(gadget),
            old(self).is_internal() && !unmount_ok ==> r == Err::<(), PisoError>(
                PisoError::UnmountFailed,
            ) && *final(self) == *old(self) && *final(gadget) == *old(gadget),
            (old(self).is_unmounted() || (old(self).is_internal() && unmount_ok)) && !lun_ok ==> r
                == Err::<(), PisoError>(PisoError::GadgetRejected) && final(self).is_unmounted()
                && *final(gadget) == *old(gadget),
            (old(self).is_unmounted() || (old(self).is_internal() && unmount_ok)) && lun_ok ==> {
                &&& r == Ok::<(), PisoError>(())
                &&& final(self).is_external()
                &&& final(self).lun_id_of() == old(gadget).next_id
                &&& final(gadget).luns@ == old(gadget).luns@.push(
                    Lun { id: old(gadget).next_id, device: old(self).volume.name },
                )
                &&& final(gadget).next_id == old(gadget).next_id + 1
            },
    {
        match self.state {
            MountState::External(_) => { return Err(PisoError::InvalidState) },
            MountState::Internal(_) => {
                let r = self.unmount_partitions(unmount_ok);
                if let Err(e) = r {
                    return Err(e);
                }
            },
            MountState::Unmounted => {},
        }
        let id = match gadget.add_lun(self.volume.name.clone(), lun_ok) {
            Ok(id) => id,
            Err(e) => { return Err(e) },
        };
        self.state = MountState::External(ExternalInfo { lun_id: id });
        Ok(())
    }

    /// Removes the drive's LUN from the gadget (another peripheral
    /// reconfiguration), returning to `Unmounted`. Valid from `External`
    /// only. A rejected reconfiguration leaves drive and gadget exactly
    /// as they were.
    pub fn unexpose(&mut self, gadget: &mut Gadget, lun_ok: bool) -> (r: Result<(), PisoError>)
        requires
            old(self).wf(),
            old(gadget).wf(),
            old(self).is_external() ==> old(gadget).has_lun(old(self).lun_id_of()),
        ensures
            final(self).wf(),
            final(gadget).wf(),
            final(self).volume == old(self).volume,
            !old(self).is_external() ==> r == Err::<(), PisoError>(PisoError::InvalidState) && *final(self)
                == *old(self) && *final(gadget) == *old(gadget),
            old(self).is_external() && !lun_ok ==> r == Err::<(), PisoError>(
                PisoError::GadgetRejected,
            ) && *final(self) == *old(self) && *final(gadget) == *old(gadget),
            old(self).is_external() && lun_ok ==> {
                &&& r == Ok::<(), PisoError>(())
                &&& final(self).is_unmounted()
                &&& final(gadget).luns@ == old(gadget).luns@.remove(
                    old(gadget).lun_index(old(self).lun_id_of()),
                )
                &&& final(gadget).next_id == old(gadget).next_id
                &&& !final(gadget).has_lun(old(self).lun_id_of())
            },
    {
        let id = match self.state {
            MountState::External(ref info) => info.lun_id,
            _ => { return Err(PisoError::InvalidState) },
        };
        match gadget.remove_lun(id, lun_ok) {
            Ok(()) => {},
            Err(e) => { return Err(e) },
        }
        self.state = MountState::Unmounted;
        Ok(())
    }

    /// The inverse of `expose_external`: removes the LUN and mounts the
    /// partitions locally again, returning the drive to `Internal`.
    /// Valid from `External` only. A rejected reconfiguration leaves
    /// drive and gadget untouched; a mount failure after a successful
    /// reconfiguration leaves the drive `Unmounted`.
    pub fn unexpose_internal(&mut self, gadget: &mut Gadget, lun_ok: bool, mount_ok: bool) -> (r:
        Result<(), PisoError>)
        requires
            old(self).wf(),
            old(gadget).wf(),
            old(self).is_external() ==> old(gadget).has_lun(old(self).lun_id_of()),
        ensures
            final(self).wf(),
            final(gadget).wf(),
            final(self).volume == old(self).volume,
            !old(self).is_external() ==> r == Err::<(), PisoError>(PisoError::InvalidState) && *final(self)
                == *old(self) && *final(gadget) == *old(gadget),
            old(self).is_external() && !lun_ok ==> r == Err::<(), PisoError>(
                PisoError::GadgetRejected,
            ) && *final(self) == *old(self) && *final(gadget) == *old(gadget),
            old(self).is_external() && lun_ok && !mount_ok ==> r == Err::<(), PisoError>(
                PisoError::MountFailed,
            ) && final(self).is_unmounted() && final(gadget).luns@ == old(gadget).luns@.remove(
                old(gadget).lun_index(old(self).lun_id_of()),
            ) && final(gadget).next_id == old(gadget).next_id && !final(gadget).has_lun(
                old(self).lun_id_of(),
            ),
            old(self).is_external() && lun_ok && mount_ok ==> {
                &&& r == Ok::<(), PisoError>(())
                &&& final(self).is_internal()
                &&& final(self).mount_paths_of() == mount_paths_spec(
                    old(self).name_s(),
                    old(self).volume.n_parts as nat,
                )
                &&& !final(gadget).has_lun(old(self).lun_id_of())
                &&& final(gadget).luns@ == old(gadget).luns@.remove(
                    old(gadget).lun_index(old(self).lun_id_of()),
                )
                &&& final(gadget).next_id == old(gadget).next_id
            },
    {
        match self.state {
            MountState::External(_) => {},
            _ => { return Err(PisoError::InvalidState) },
        }
        match self.unexpose(gadget, lun_ok) {
            Ok(()) => {},
            Err(e) => { return Err(e) },
        }
        self.mount_internal(mount_ok)
    }

    /// Forces the drive to `Unmounted` from any state: unmounts an
    /// `Internal` drive, un-exposes an `External` one, and leaves an
    /// `Unmounted` one untouched. Any external failure aborts with the
    /// drive exactly as it was.
    pub fn unmount(&mut self, gadget: &mut Gadget, unmount_ok: bool, lun_ok: bool) -> (r: Result<
        (),
        PisoError,
    >)
        requires
            old(self).wf(),
            old(gadget).wf(),
            old(self).is_external() ==> old(gadget).has_lun(old(self).lun_id_of()),
        ensures
            final(self).wf(),
            final(gadget).wf(),
            final(self).volume == old(self).volume,
            old(self).is_unmounted() ==> r == Ok::<(), PisoError>(()) && *final(self) == *old(self)
                && *final(gadget) == *old(gadget),
            old(self).is_internal() && !unmount_ok ==> r == Err::<(), PisoError>(
                PisoError::UnmountFailed,
            ) && *final(self) == *old(self) && *final(gadget) == *old(gadget),
            old(self).is_internal() && unmount_ok ==> r == Ok::<(), PisoError>(()) && final(self).is_unmounted()
                && *final(gadget) == *old(gadget),
            old(self).is_external() && !lun_ok ==> r == Err::<(), PisoError>(
                PisoError::GadgetRejected,
            ) && *final(self) == *old(self) && *final(gadget) == *old(gadget),
            old(self).is_external() && lun_ok ==> {
                &&& r == Ok::<(), PisoError>(())
                &&& final(self).is_unmounted()
                &&& final(gadget).luns@ == old(gadget).luns@.remove(
                    old(gadget).lun_index(old(self).lun_id_of()),
                )
                &&& final(gadget).next_id == old(gadget).next_id
                &&& !final(gadget).has_lun(old(self).lun_id_of())
            },
    {
        match self.state {
            MountState::Unmounted => Ok(()),
            MountState::Internal(_) => self.unmount_partitions(unmount_ok),
            MountState::External(_) => self.unexpose(gadget, lun_ok),
        }
    }
}

/// Law: a drive's mount state is exactly one of `Unmounted`, `Internal`
/// and `External` — never a mixture, never none.
pub proof fn lemma_mount_state_exclusive(s: MountState)
    ensures
        s is Unmounted || s is Internal || s is External,
        s is Unmounted ==> !(s is Internal) && !(s is External),
        s is Internal ==> !(s is Unmounted) && !(s is External),
        s is External ==> !(s is Unmounted) && !(s is Internal),
{
}

/// Law: exposing a drive and then returning it to local use restores
/// `Internal` with the very mount paths it had before exposure — path
/// derivation is deterministic in the volume alone. `d0` is the drive
/// before a successful `expose_external`, `d1` the `External` drive that
/// call produced, `d2` the `Internal` drive a successful
/// `unexpose_internal` then produced.
pub proof fn lemma_roundtrip_mount_paths(d0: VirtualDrive, d1: VirtualDrive, d2: VirtualDrive)
    requires
        d0.wf(),
        d0.is_internal(),
        d1.volume == d0.volume,
        d1.is_external(),
        d2.volume == d1.volume,
        d2.wf(),
        d2.is_internal(),
    ensures
        d2.mount_paths_of() == d0.mount_paths_of(),
{
}

} // verus!
