//! Volumes and the volume store.
//!
//! The store wraps the underlying logical-volume manager: it offers
//! create / snapshot / delete / list of storage volumes identified by
//! name. The manager's command execution is an external collaborator;
//! its success or failure enters each operation as a plain boolean, and
//! the bookkeeping done on that outcome is verified. The store keeps a
//! ghost log of every delete request it receives, each recording whether
//! the volume was registered as a LUN at the moment of the request: the
//! orchestrator's contracts prove that flag false for every request it
//! ever issues.

use vstd::prelude::*;
use vstd::string::*;

verus! {

use crate::action::PisoError;
use crate::gadget::Gadget;

/// A named storage volume: a block-addressable region with a fixed
/// capacity, carved into `n_parts` partitions. The capacity and the
/// block-device layout live with the volume manager; the model keeps
/// what the core logic reads.
#[derive(Debug, Clone, PartialEq, Eq)]
pub struct Volume {
    /// The unique name identifying the volume within the store.
    pub name: String,
    /// How many partitions the volume's block device carries.
    pub n_parts: usize,
}

impl Volume {
    /// An owned copy of this volume.
    pub fn duplicate(&self) -> (v: Volume)
        ensures
            v == *self,
    {
        Volume { name: self.name.clone(), n_parts: self.n_parts }
    }
}

/// The suffix appended to a volume's name to name its snapshot.
pub open spec fn snap_suffix() -> Seq<char> {
    "-snap"@
}

/// The name of the snapshot of the volume named `name`.
pub open spec fn snap_name_spec(name: Seq<char>) -> Seq<char> {
    name + snap_suffix()
}

/// One delete request received by the store, with whether the volume was
/// registered as a LUN at the moment the request arrived.
pub ghost struct DeleteRequest {
    pub name: Seq<char>,
    pub was_exposed: bool,
}

/// The live set of volumes, with the ghost log of delete requests.
pub struct VolumeStore {
    pub vols: Vec<Volume>,
    pub requests: Ghost<Seq<DeleteRequest>>,
}

impl VolumeStore {
    /// Volume names are unique within the store.
    pub open spec fn wf(self) -> bool {
        forall|i: int, j: int|
            0 <= i < j < self.vols@.len() ==> (#[trigger] self.vols@[i]).name@ != (
            #[trigger] self.vols@[j]).name@
    }

    /// A volume of this name exists in the store.
    pub open spec fn contains_name(self, name: Seq<char>) -> bool {
        exists|i: int| 0 <= i < self.vols@.len() && (#[trigger] self.vols@[i]).name@ == name
    }

    /// The index of the volume of this name.
    pub open spec fn index_of(self, name: Seq<char>) -> int {
        choose|i: int| 0 <= i < self.vols@.len() && (#[trigger] self.vols@[i]).name@ == name
    }

    /// No delete request in the log ever arrived for a volume that was
    /// still registered as a LUN.
    pub open spec fn never_deleted_exposed(self) -> bool {
        forall|k: int|
            0 <= k < self.requests@.len() ==> !(#[trigger] self.requests@[k]).was_exposed
    }

    /// A store over the given volumes, with an empty request log.
    pub fn new(vols: Vec<Volume>) -> (s: VolumeStore)
        ensures
            s.vols == vols,
            s.requests@ == Seq::<DeleteRequest>::empty(),
    {
        VolumeStore { vols, requests: Ghost(Seq::empty()) }
    }

    /// Looks the named volume up.
    pub fn find(&self, name: &String) -> (r: Option<usize>)
        ensures
            match r {
                Some(i) => i < self.vols@.len() && self.vols@[i as int].name@ == name@
                    && self.contains_name(name@),
                None => !self.contains_name(name@),
            },
    {
        let mut i: usize = 0;
        while i < self.vols.len()
            invariant
                i <= self.vols@.len(),
                forall|j: int| 0 <= j < i ==> (#[trigger] self.vols@[j]).name@ != name@,
            decreases self.vols@.len() - i,
        {
            if self.vols[i].name == *name {
                return Some(i);
            }
            i = i + 1;
        }
        None
    }

    /// Creates a volume of the given name. `ok` is the volume manager's
    /// verdict on the create command.
    pub fn create(&mut self, name: String, n_parts: usize, ok: bool) -> (r: Result<
        Volume,
        PisoError,
    >)
        requires
            old(self).wf(),
        ensures
            final(self).wf(),
            final(self).requests == old(self).requests,
            old(self).contains_name(name@) ==> r == Err::<Volume, PisoError>(
                PisoError::VolumeExists,
            ) && *final(self) == *old(self),
            !old(self).contains_name(name@) && !ok ==> r == Err::<Volume, PisoError>(
                PisoError::StoreFailed,
            ) && *final(self) == *old(self),
            !old(self).contains_name(name@) && ok ==> {
                &&& r matches Ok(v) && v.name@ == name@ && v.n_parts == n_parts
                &&& final(self).vols@.len() == old(self).vols@.len() + 1
                &&& final(self).vols@.drop_last() == old(self).vols@
                &&& final(self).vols@.last().name@ == name@
                &&& final(self).vols@.last().n_parts == n_parts
            },
    {
        if let Some(_i) = self.find(&name) {
            return Err(PisoError::VolumeExists);
        }
        if !ok {
            return Err(PisoError::StoreFailed);
        }
        let v = Volume { name, n_parts };
        let out = v.duplicate();
        self.vols.push(v);
        proof {
            assert(self.vols@.drop_last() =~= old(self).vols@);
            assert forall|i: int, j: int| 0 <= i < j < self.vols@.len() implies (
            #[trigger] self.vols@[i]).name@ != (#[trigger] self.vols@[j]).name@ by {
                if j == self.vols@.len() - 1 {
                    assert(self.vols@[i] == old(self).vols@[i]);
                }
            }
        }
        Ok(out)
    }

    /// Produces a copy-on-write snapshot of the named volume, as a new
    /// volume named after it with the snapshot suffix. `ok` is the volume
    /// manager's verdict on the snapshot command.
    pub fn snapshot(&mut self, name: &String, ok: bool) -> (r: Result<Volume, PisoError>)
        requires
            old(self).wf(),
        ensures
            final(self).wf(),
            final(self).requests == old(self).requests,
            !old(self).contains_name(name@) ==> r == Err::<Volume, PisoError>(
                PisoError::VolumeNotFound,
            ) && *final(self) == *old(self),
            old(self).contains_name(name@) && old(self).contains_name(snap_name_spec(name@)) ==> r
                == Err::<Volume, PisoError>(PisoError::VolumeExists) && *final(self) == *old(self),
            old(self).contains_name(name@) && !old(self).contains_name(snap_name_spec(name@))
                && !ok ==> r == Err::<Volume, PisoError>(PisoError::StoreFailed) && *final(self)
                == *old(self),
            old(self).contains_name(name@) && !old(self).contains_name(snap_name_spec(name@))
                && ok ==> {
                &&& r matches Ok(v) && v.name@ == snap_name_spec(name@) && v.n_parts == old(
                    self,
                ).vols@[old(self).index_of(name@)].n_parts
                &&& final(self).vols@.len() == old(self).vols@.len() + 1
                &&& final(self).vols@.drop_last() == old(self).vols@
                &&& final(self).vols@.last().name@ == snap_name_spec(name@)
                &&& final(self).vols@.last().n_parts == old(self).vols@[old(self).index_of(
                    name@,
                )].n_parts
            },
    {
        let src = match self.find(name) {
            Some(i) => i,
            None => { return Err(PisoError::VolumeNotFound) },
        };
        let n_parts = self.vols[src].n_parts;
        proof {
            let i0 = self.index_of(name@);
            if i0 != src {
                assert(self.vols@[i0].name@ == self.vols@[src as int].name@);
                assert(false);
            }
        }
        let snap = self.vols[src].name.clone().concat("-snap");
        if let Some(_i) = self.find(&snap) {
            return Err(PisoError::VolumeExists);
        }
        if !ok {
            return Err(PisoError::StoreFailed);
        }
        let v = Volume { name: snap, n_parts };
        let out = v.duplicate();
        self.vols.push(v);
        proof {
            assert(self.vols@.drop_last() =~= old(self).vols@);
            assert forall|i: int, j: int| 0 <= i < j < self.vols@.len() implies (
            #[trigger] self.vols@[i]).name@ != (#[trigger] self.vols@[j]).name@ by {
                if j == self.vols@.len() - 1 {
                    assert(self.vols@[i] == old(self).vols@[i]);
                }
            }
        }
        Ok(out)
    }

    /// Handles a delete request for the named volume. The request is
    /// recorded in the ghost log together with whether some LUN of the
    /// gadget still exposes the volume at this moment. The delete fails
    /// while the volume is in use — mounted locally (`mounted`) or
    /// registered as a LUN — and `ok` is the volume manager's verdict on
    /// the delete command itself.
    pub fn delete(&mut self, name: &String, gadget: &Gadget, mounted: bool, ok: bool) -> (r:
        Result<(), PisoError>)
        requires
            old(self).wf(),
        ensures
            final(self).wf(),
            final(self).requests@ == old(self).requests@.push(
                DeleteRequest { name: name@, was_exposed: gadget.exposes_device(name@) },
            ),
            !old(self).contains_name(name@) ==> r == Err::<(), PisoError>(PisoError::VolumeNotFound)
                && final(self).vols == old(self).vols,
            old(self).contains_name(name@) && (mounted || gadget.exposes_device(name@)) ==> r
                == Err::<(), PisoError>(PisoError::VolumeBusy) && final(self).vols == old(
                self,
            ).vols,
            old(self).contains_name(name@) && !mounted && !gadget.exposes_device(name@) && !ok
                ==> r == Err::<(), PisoError>(PisoError::StoreFailed) && final(self).vols == old(
                self,
            ).vols,
            old(self).contains_name(name@) && !mounted && !gadget.exposes_device(name@) && ok
                ==> {
                &&& r == Ok::<(), PisoError>(())
                &&& final(self).vols@ == old(self).vols@.remove(old(self).index_of(name@))
                &&& !final(self).contains_name(name@)
            },
    {
        proof {
            self.requests@ = self.requests@.push(
                DeleteRequest { name: name@, was_exposed: gadget.exposes_device(name@) },
            );
        }
        let idx = match self.find(name) {
            Some(i) => i,
            None => { return Err(PisoError::VolumeNotFound) },
        };
        if mounted || gadget.is_exposed(name) {
            return Err(PisoError::VolumeBusy);
        }
        if !ok {
            return Err(PisoError::StoreFailed);
        }
        let ghost pre = self.vols@;
        let ghost ii = idx as int;
        self.vols.remove(idx);
        proof {
            let s0 = *old(self);
            let j = s0.index_of(name@);
            assert(0 <= j < pre.len() && pre[j].name@ == name@);
            if j != ii {
                assert(pre[ii].name@ == name@);
                assert(false);
            }
            assert(self.vols@ == pre.remove(ii));
            assert forall|k: int| 0 <= k < self.vols@.len() implies (
            #[trigger] self.vols@[k]).name@ != name@ by {
                if k < ii {
                    assert(self.vols@[k] == pre[k]);
                } else {
                    assert(self.vols@[k] == pre[k + 1]);
                    assert(pre[ii].name@ != pre[k + 1].name@);
                }
            }
            assert forall|a: int, b: int| 0 <= a < b < self.vols@.len() implies (
            #[trigger] self.vols@[a]).name@ != (#[trigger] self.vols@[b]).name@ by {
                let a0 = if a < ii {
                    a
                } else {
                    a + 1
                };
                let b0 = if b < ii {
                    b
                } else {
                    b + 1
                };
                assert(self.vols@[a] == pre[a0]);
                assert(self.vols@[b] == pre[b0]);
                assert(pre[a0].name@ != pre[b0].name@);
            }
        }
        Ok(())
    }
}

} // verus!
