//! The shared USB gadget exposure resource: the current LUN set.
//!
//! The kernel-level mass-storage peripheral is a single, process-wide,
//! mutually exclusive resource: changing its LUN set is one disruptive
//! reconfiguration affecting every exposed drive. The model keeps the LUN
//! set as plain data and threads the resource by `&mut`, so exclusive
//! access during a mutation is enforced by the borrow itself; the
//! kernel's accept/reject verdict on a reconfiguration enters as a plain
//! boolean, and each mutation is proved to apply the new set atomically
//! or to leave the old set untouched.

use vstd::prelude::*;

verus! {

use crate::action::PisoError;

/// One exposed backing block device, registered under a LUN slot id.
#[derive(Debug, Clone, PartialEq, Eq)]
pub struct Lun {
    /// The LUN slot id handed back at registration.
    pub id: u64,
    /// The volume name identifying the backing block device.
    pub device: String,
}

/// The gadget's current LUN set, with the next slot id to hand out.
#[derive(Debug, Clone, PartialEq, Eq)]
pub struct Gadget {
    pub luns: Vec<Lun>,
    pub next_id: u64,
}

impl Gadget {
    /// Slot ids are unique and below the allocation counter.
    pub open spec fn wf(self) -> bool {
        &&& forall|i: int| 0 <= i < self.luns@.len() ==> (#[trigger] self.luns@[i]).id
            < self.next_id
        &&& forall|i: int, j: int|
            0 <= i < j < self.luns@.len() ==> (#[trigger] self.luns@[i]).id != (
            #[trigger] self.luns@[j]).id
    }

    /// A LUN with this slot id is currently registered.
    pub open spec fn has_lun(self, id: u64) -> bool {
        exists|i: int| 0 <= i < self.luns@.len() && (#[trigger] self.luns@[i]).id == id
    }

    /// The index of the LUN with this slot id.
    pub open spec fn lun_index(self, id: u64) -> int {
        choose|i: int| 0 <= i < self.luns@.len() && (#[trigger] self.luns@[i]).id == id
    }

    /// Some LUN currently exposes this backing device.
    pub open spec fn exposes_device(self, device: Seq<char>) -> bool {
        exists|i: int| 0 <= i < self.luns@.len() && (#[trigger] self.luns@[i]).device@ == device
    }

    /// A fresh gadget with an empty LUN set.
    pub fn new() -> (g: Gadget)
        ensures
            g.wf(),
            g.luns@.len() == 0,
            g.next_id == 0,
    {
        Gadget { luns: Vec::new(), next_id: 0 }
    }

    /// Whether this backing device is currently registered as a LUN.
    pub fn is_exposed(&self, device: &String) -> (r: bool)
        ensures
            r == self.exposes_device(device@),
    {
        let mut i: usize = 0;
        while i < self.luns.len()
            invariant
                i <= self.luns@.len(),
                forall|j: int| 0 <= j < i ==> (#[trigger] self.luns@[j]).device@ != device@,
            decreases self.luns@.len() - i,
        {
            if self.luns[i].device == *device {
                return true;
            }
            i = i + 1;
        }
        false
    }

    /// Registers a backing device as a new LUN. `ok` is the kernel's
    /// verdict on the resulting peripheral reconfiguration: on rejection
    /// the LUN set is left exactly as it was.
    pub fn add_lun(&mut self, device: String, ok: bool) -> (r: Result<u64, PisoError>)
        requires
            old(self).wf(),
            old(self).next_id < u64::MAX,
        ensures
            final(self).wf(),
            ok ==> {
                &&& r == Ok::<u64, PisoError>(old(self).next_id)
                &&& final(self).luns@ == old(self).luns@.push(
                    Lun { id: old(self).next_id, device },
                )
                &&& final(self).next_id == old(self).next_id + 1
            },
            !ok ==> r == Err::<u64, PisoError>(PisoError::GadgetRejected) && *final(self) == *old(
                self,
            ),
    {
        if !ok {
            return Err(PisoError::GadgetRejected);
        }
        let id = self.next_id;
        self.luns.push(Lun { id, device });
        self.next_id = self.next_id + 1;
        Ok(id)
    }

    /// Removes the LUN under this slot id. `ok` is the kernel's verdict
    /// on the resulting peripheral reconfiguration: on rejection the LUN
    /// set is left exactly as it was.
    pub fn remove_lun(&mut self, id: u64, ok: bool) -> (r: Result<(), PisoError>)
        requires
            old(self).wf(),
        ensures
            final(self).wf(),
            !ok ==> r == Err::<(), PisoError>(PisoError::GadgetRejected) && *final(self) == *old(
                self,
            ),
            ok && old(self).has_lun(id) ==> {
                &&& r == Ok::<(), PisoError>(())
                &&& final(self).luns@ == old(self).luns@.remove(old(self).lun_index(id))
                &&& final(self).next_id == old(self).next_id
                &&& !final(self).has_lun(id)
            },
            ok && !old(self).has_lun(id) ==> r == Err::<(), PisoError>(PisoError::InvalidState)
                && *final(self) == *old(self),
    {
        if !ok {
            return Err(PisoError::GadgetRejected);
        }
        let mut i: usize = 0;
        while i < self.luns.len()
            invariant
                ok,
                *self == *old(self),
                old(self).wf(),
                i <= self.luns@.len(),
                forall|j: int| 0 <= j < i ==> (#[trigger] self.luns@[j]).id != id,
            decreases self.luns@.len() - i,
        {
            if self.luns[i].id == id {
                let ghost pre = self.luns@;
                let ghost ii = i as int;
                self.luns.remove(i);
                proof {
                    let g0 = *old(self);
                    assert(pre == g0.luns@);
                    assert(pre[ii].id == id);
                    assert(g0.luns@[ii].id == id);
                    assert(g0.has_lun(id));
                    let j = g0.lun_index(id);
                    assert(0 <= j < pre.len() && pre[j].id == id);
                    if j != ii {
                        if j < ii {
                            assert(pre[j].id != id);
                        } else {
                            assert(pre[ii].id != pre[j].id);
                        }
                        assert(false);
                    }
                    assert(self.luns@ == pre.remove(ii));
                    assert forall|k: int| 0 <= k < self.luns@.len() implies (
                    #[trigger] self.luns@[k]).id != id by {
                        if k < ii {
                            assert(self.luns@[k] == pre[k]);
                        } else {
                            assert(self.luns@[k] == pre[k + 1]);
                            assert(pre[ii].id != pre[k + 1].id);
                        }
                    }
                    assert forall|a: int, b: int|
                        0 <= a < b < self.luns@.len() implies (#[trigger] self.luns@[a]).id != (
                    #[trigger] self.luns@[b]).id by {
                        let a0 = if a < ii {
                            a
                        } else {
                            a + 1
                        };
                        let b0 = if b < ii {
                            b
                        } else {
                            b + 1
                        };
                        assert(self.luns@[a] == pre[a0]);
                        assert(self.luns@[b] == pre[b0]);
                        assert(pre[a0].id != pre[b0].id);
                    }
                    assert forall|k: int| 0 <= k < self.luns@.len() implies (
                    #[trigger] self.luns@[k]).id < self.next_id by {
                        if k < ii {
                            assert(self.luns@[k] == pre[k]);
                        } else {
                            assert(self.luns@[k] == pre[k + 1]);
                        }
                    }
                }
                return Ok(());
            }
            i = i + 1;
        }
        Err(PisoError::InvalidState)
    }
}

} // verus!
