//! The orchestrator: owns the live collection of virtual drives, the
//! shared gadget resource and the volume store, applies actions against
//! them, and presents the ordered view the UI traverses.

use vstd::prelude::*;
use vstd::string::*;

verus! {

use crate::action::Action;
use crate::action::Event;
use crate::action::Outcomes;
use crate::action::PisoError;
use crate::gadget::Gadget;
use crate::gadget::Lun;
use crate::strutil::after_last_slash;
use crate::strutil::lex_le;
use crate::strutil::mount_paths_spec;
use crate::strutil::file_name;
use crate::strutil::str_lex_le;
use crate::vdrive::MountState;
use crate::vdrive::VirtualDrive;
use crate::volume::DeleteRequest;
use crate::volume::Volume;
use crate::volume::VolumeStore;
use crate::volume::snap_name_spec;

/// One action's worth of a handler's answer: whether it handled the
/// action, and the follow-up actions it emitted.
pub type Handled = (bool, Vec<Action>);

/// The names of a sequence of volumes are pairwise distinct.
pub open spec fn vol_names_unique(vs: Seq<Volume>) -> bool {
    forall|i: int, j: int|
        0 <= i < j < vs.len() ==> (#[trigger] vs[i]).name@ != (#[trigger] vs[j]).name@
}

/// `a` is `acts[i]` of a share-action sequence for `paths`: the share
/// (or, with `remove`, un-share) of the partition named by the file name
/// of `path`.
pub open spec fn share_action_at(a: Action, path: Seq<char>, remove: bool) -> bool {
    match a {
        Action::SmbSharePartition(n) => !remove && n@ == after_last_slash(path),
        Action::SmbRemoveShare(n) => remove && n@ == after_last_slash(path),
        _ => false,
    }
}

/// `acts` is exactly the share-action sequence for `paths`: one action
/// per mount path, in order.
pub open spec fn share_actions_ok(acts: Seq<Action>, paths: Seq<Seq<char>>, remove: bool) -> bool {
    &&& acts.len() == paths.len()
    &&& forall|i: int| 0 <= i < paths.len() ==> share_action_at(#[trigger] acts[i], paths[i], remove)
}

/// `s` with every string of view `nm` removed, order otherwise kept.
pub open spec fn remove_all(s: Seq<String>, nm: Seq<char>) -> Seq<String>
    decreases s.len(),
{
    if s.len() == 0 {
        s
    } else if s.last()@ == nm {
        remove_all(s.drop_last(), nm)
    } else {
        remove_all(s.drop_last(), nm).push(s.last())
    }
}

/// The root of the widget tree: the drive collection plus its peer
/// panels, the shared gadget resource, and the volume store.
///
/// The gadget is a single mutually exclusive resource; here the
/// exclusive-access discipline is the `&mut` borrow itself: every
/// mutation of the LUN set goes through one `&mut` path, so two
/// mutations can never interleave.
pub struct PIso {
    /// The live collection of virtual drives, in creation order.
    pub drives: Vec<VirtualDrive>,
    /// The shared USB gadget exposure resource.
    pub gadget: Gadget,
    /// The volume store.
    pub store: VolumeStore,
    /// The network panel's state: the partition names currently shared.
    pub shares: Vec<String>,
    /// Capability flag: the optional wireless hardware is present. Read
    /// once at construction; gates the emission and handling of
    /// network-share actions.
    pub has_wifi: bool,
    /// UI ordering policy: present drives sorted by name rather than in
    /// creation order.
    pub sort_drives: bool,
    /// Display orientation.
    pub flipped: bool,
}

impl PIso {
    pub open spec fn drives_wf(self) -> bool {
        forall|i: int| 0 <= i < self.drives@.len() ==> (#[trigger] self.drives@[i]).wf()
    }

    pub open spec fn drive_names_unique(self) -> bool {
        forall|i: int, j: int|
            0 <= i < j < self.drives@.len() ==> (#[trigger] self.drives@[i]).name_s() != (
            #[trigger] self.drives@[j]).name_s()
    }

    pub open spec fn drives_in_store(self) -> bool {
        forall|i: int|
            0 <= i < self.drives@.len() ==> self.store.contains_name(
                (#[trigger] self.drives@[i]).name_s(),
            )
    }

    /// Every `External` drive's LUN is registered, under the drive's
    /// name as the backing device.
    pub open spec fn luns_match_drives(self) -> bool {
        forall|i: int|
            0 <= i < self.drives@.len() && (#[trigger] self.drives@[i]).is_external()
                ==> exists|k: int|
                0 <= k < self.gadget.luns@.len() && (#[trigger] self.gadget.luns@[k]).id
                    == self.drives@[i].lun_id_of() && self.gadget.luns@[k].device@
                    == self.drives@[i].name_s()
    }

    /// Every registered LUN belongs to some `External` drive. (The
    /// guard repeats the LUN's slot-id bound from the gadget invariant,
    /// so that instantiation can key on the LUN itself.)
    pub open spec fn drives_match_luns(self) -> bool {
        forall|k: int|
            0 <= k < self.gadget.luns@.len() && (#[trigger] self.gadget.luns@[k]).id
                < self.gadget.next_id ==> exists|i: int|
                0 <= i < self.drives@.len() && (#[trigger] self.drives@[i]).is_external()
                    && self.drives@[i].lun_id_of() == self.gadget.luns@[k].id && self.drives@[
                i].name_s() == self.gadget.luns@[k].device@
    }

    pub open spec fn wf(self) -> bool {
        &&& self.store.wf()
        &&& self.gadget.wf()
        &&& self.drives_wf()
        &&& self.drive_names_unique()
        &&& self.drives_in_store()
        &&& self.luns_match_drives()
        &&& self.drives_match_luns()
    }

    /// A drive of this name is in the live collection.
    pub open spec fn has_drive(self, name: Seq<char>) -> bool {
        exists|i: int| 0 <= i < self.drives@.len() && (#[trigger] self.drives@[i]).name_s() == name
    }

    /// The index of the drive of this name.
    pub open spec fn drive_index(self, name: Seq<char>) -> int {
        choose|i: int| 0 <= i < self.drives@.len() && (#[trigger] self.drives@[i]).name_s() == name
    }

    /// No drive of this name is `External`, so — by the gadget/drive
    /// correspondence — no LUN exposes the device.
    proof fn lemma_device_not_exposed(self, name: Seq<char>)
        requires
            self.wf(),
            forall|i: int|
                0 <= i < self.drives@.len() && (#[trigger] self.drives@[i]).name_s() == name
                    ==> !self.drives@[i].is_external(),
        ensures
            !self.gadget.exposes_device(name),
    {
        if self.gadget.exposes_device(name) {
            let k = choose|k: int|
                0 <= k < self.gadget.luns@.len() && (#[trigger] self.gadget.luns@[k]).device@
                    == name;
            assert(self.gadget.luns@[k].id < self.gadget.next_id);
            assert(exists|i: int|
                0 <= i < self.drives@.len() && (#[trigger] self.drives@[i]).is_external()
                    && self.drives@[i].lun_id_of() == self.gadget.luns@[k].id && self.drives@[
                i].name_s() == self.gadget.luns@[k].device@);
            let i = choose|i: int|
                0 <= i < self.drives@.len() && (#[trigger] self.drives@[i]).is_external()
                    && self.drives@[i].lun_id_of() == self.gadget.luns@[k].id && self.drives@[
                i].name_s() == self.gadget.luns@[k].device@;
            assert(!self.drives@[i].is_external());
        }
    }

    /// Builds one virtual drive per discovered volume, each beginning
    /// `Internal` so a fresh drive is immediately manageable.
    fn build_drives(volumes: &Vec<Volume>) -> (drives: Vec<VirtualDrive>)
        ensures
            drives@.len() == volumes@.len(),
            forall|i: int|
                0 <= i < volumes@.len() ==> {
                    &&& (#[trigger] drives@[i]).volume == volumes@[i]
                    &&& drives@[i].wf()
                    &&& drives@[i].is_internal()
                },
    {
        let mut drives: Vec<VirtualDrive> = Vec::new();
        let mut i: usize = 0;
        while i < volumes.len()
            invariant
                i <= volumes@.len(),
                drives@.len() == i,
                forall|j: int|
                    0 <= j < i ==> {
                        &&& (#[trigger] drives@[j]).volume == volumes@[j]
                        &&& drives@[j].wf()
                        &&& drives@[j].is_internal()
                    },
            decreases volumes@.len() - i,
        {
            let mut d = VirtualDrive::new(volumes[i].duplicate());
            let r = d.mount_internal(true);
            proof {
                assert(r is Ok);
            }
            drives.push(d);
            i = i + 1;
        }
        drives
    }

    /// Builds the orchestrator over the volumes discovered at startup:
    /// one `Internal` drive per volume, an empty LUN set, no shares, and
    /// the capability and ordering flags as configured.
    pub fn new(volumes: Vec<Volume>, has_wifi: bool, sort_drives: bool) -> (p: PIso)
        requires
            vol_names_unique(volumes@),
        ensures
            p.wf(),
            p.drives@.len() == volumes@.len(),
            forall|i: int|
                0 <= i < volumes@.len() ==> (#[trigger] p.drives@[i]).volume == volumes@[i]
                    && p.drives@[i].is_internal(),
            p.gadget.luns@.len() == 0,
            p.store.vols == volumes,
            p.store.requests@ == Seq::<DeleteRequest>::empty(),
            p.shares@.len() == 0,
            p.has_wifi == has_wifi,
            p.sort_drives == sort_drives,
            !p.flipped,
    {
        let drives = Self::build_drives(&volumes);
        let store = VolumeStore::new(volumes);
        let p = PIso {
            drives,
            gadget: Gadget::new(),
            store,
            shares: Vec::new(),
            has_wifi,
            sort_drives,
            flipped: false,
        };
        proof {
            assert forall|i: int| 0 <= i < p.drives@.len() implies p.store.contains_name(
                (#[trigger] p.drives@[i]).name_s(),
            ) by {
                assert(p.store.vols@[i].name@ == p.drives@[i].name_s());
            }
        }
        p
    }

    /// Looks the named drive up in the live collection.
    pub fn find_drive(&self, name: &String) -> (r: Option<usize>)
        ensures
            match r {
                Some(i) => i < self.drives@.len() && self.drives@[i as int].name_s() == name@
                    && self.has_drive(name@),
                None => !self.has_drive(name@),
            },
    {
        let mut i: usize = 0;
        while i < self.drives.len()
            invariant
                i <= self.drives@.len(),
                forall|j: int| 0 <= j < i ==> (#[trigger] self.drives@[j]).name_s() != name@,
            decreases self.drives@.len() - i,
        {
            if self.drives[i].volume.name == *name {
                return Some(i);
            }
            i = i + 1;
        }
        None
    }

    /// Computes the network-share actions for one drive: one action per
    /// mounted partition, named by the file name of its mount path.
    /// Emission is gated on the wireless capability: without it, both
    /// directions degrade to no actions at all. A drive that is not
    /// mounted locally has nothing to share — asking to share it is an
    /// error, while asking to un-share it yields nothing.
    pub fn share_drive(drive: &VirtualDrive, remove: bool, has_wifi: bool) -> (r: Result<
        Vec<Action>,
        PisoError,
    >)
        ensures
            !has_wifi ==> (r matches Ok(a) && a@.len() == 0),
            has_wifi && drive.is_internal() ==> (r matches Ok(a) && share_actions_ok(
                a@,
                drive.mount_paths_of(),
                remove,
            )),
            has_wifi && !drive.is_internal() && remove ==> (r matches Ok(a) && a@.len() == 0),
            has_wifi && !drive.is_internal() && !remove ==> r == Err::<Vec<Action>, PisoError>(
                PisoError::NotMountedInternal,
            ),
    {
        if !has_wifi {
            return Ok(Vec::new());
        }
        match &drive.state {
            MountState::Unmounted | MountState::External(_) => {
                if remove {
                    Ok(Vec::new())
                } else {
                    Err(PisoError::NotMountedInternal)
                }
            },
            MountState::Internal(info) => {
                let mut acts: Vec<Action> = Vec::new();
                let mut i: usize = 0;
                while i < info.part_mount_paths.len()
                    invariant
                        i <= info.part_mount_paths@.len(),
                        acts@.len() == i,
                        forall|j: int|
                            0 <= j < i ==> share_action_at(
                                #[trigger] acts@[j],
                                info.part_mount_paths@[j]@,
                                remove,
                            ),
                    decreases info.part_mount_paths@.len() - i,
                {
                    let nm = file_name(info.part_mount_paths[i].as_str());
                    if remove {
                        acts.push(Action::SmbRemoveShare(nm));
                    } else {
                        acts.push(Action::SmbSharePartition(nm));
                    }
                    i = i + 1;
                }
                proof {
                    assert(drive.mount_paths_of() =~= info.part_mount_paths@.map_values(
                        |p: String| p@,
                    ));
                }
                Ok(acts)
            },
        }
    }

    /// The presentation order of the drive widgets: a permutation of the
    /// drive indices — creation order as stored, or sorted by drive name
    /// when the ordering flag says so. Purely a view for UI traversal;
    /// it never reorders the underlying collection.
    pub fn children(&self) -> (r: Vec<usize>)
        ensures
            r@.len() == self.drives@.len(),
            forall|k: int| 0 <= k < r@.len() ==> (#[trigger] r@[k]) < self.drives@.len(),
            forall|k1: int, k2: int| 0 <= k1 < k2 < r@.len() ==> r@[k1] != r@[k2],
            !self.sort_drives ==> forall|k: int| 0 <= k < r@.len() ==> (#[trigger] r@[k]) == k,
            self.sort_drives ==> forall|k: int|
                0 <= k && k + 1 < r@.len() ==> lex_le(
                    self.drives@[#[trigger] r@[k] as int].name_s(),
                    self.drives@[r@[k + 1] as int].name_s(),
                ),
    {
        let n = self.drives.len();
        let mut order: Vec<usize> = Vec::new();
        if !self.sort_drives {
            let mut i: usize = 0;
            while i < n
                invariant
                    i <= n,
                    order@.len() == i,
                    forall|k: int| 0 <= k < i ==> (#[trigger] order@[k]) == k,
                decreases n - i,
            {
                order.push(i);
                i = i + 1;
            }
            return order;
        }
        let mut i: usize = 0;
        while i < n
            invariant
                i <= n,
                n == self.drives@.len(),
                order@.len() == i,
                forall|k: int| 0 <= k < i ==> (#[trigger] order@[k]) < n,
                forall|k1: int, k2: int| 0 <= k1 < k2 < i ==> order@[k1] != order@[k2],
                forall|k: int| 0 <= k < i ==> (#[trigger] order@[k]) < i,
                forall|k: int|
                    0 <= k && k + 1 < i ==> lex_le(
                        self.drives@[#[trigger] order@[k] as int].name_s(),
                        self.drives@[order@[k + 1] as int].name_s(),
                    ),
            decreases n - i,
        {
            let mut p: usize = order.len();
            while p > 0 && !str_lex_le(
                self.drives[order[p - 1]].volume.name.as_str(),
                self.drives[i].volume.name.as_str(),
            )
                invariant
                    p <= order@.len(),
                    order@.len() == i,
                    i < n,
                    n == self.drives@.len(),
                    forall|k: int| 0 <= k < i ==> (#[trigger] order@[k]) < i,
                    forall|q: int|
                        p <= q < i ==> lex_le(
                            self.drives@[i as int].name_s(),
                            self.drives@[(#[trigger] order@[q]) as int].name_s(),
                        ),
                decreases p,
            {
                proof {
                    crate::strutil::lemma_lex_total(
                        self.drives@[order@[p - 1] as int].name_s(),
                        self.drives@[i as int].name_s(),
                    );
                }
                p = p - 1;
            }
            let ghost pre = order@;
            order.insert(p, i);
            proof {
                assert(order@ == pre.insert(p as int, i as usize));
                pre.insert_ensures(p as int, i as usize);
                assert forall|k: int| 0 <= k < order@.len() implies (#[trigger] order@[k]) < i
                    + 1 by {
                    if k < p {
                        assert(order@[k] == pre[k]);
                    } else if k == p {
                    } else {
                        assert(order@[k] == pre[k - 1]);
                    }
                }
                assert forall|k1: int, k2: int| 0 <= k1 < k2 < order@.len() implies order@[k1]
                    != order@[k2] by {
                    let a0 = if k1 < p {
                        k1
                    } else {
                        k1 - 1
                    };
                    let b0 = if k2 < p {
                        k2
                    } else {
                        k2 - 1
                    };
                    if k1 == p {
                        assert(order@[k1] == i);
                        assert(order@[k2] == pre[b0]);
                        assert(pre[b0] < i);
                    } else if k2 == p {
                        assert(order@[k2] == i);
                        assert(order@[k1] == pre[a0]);
                        assert(pre[a0] < i);
                    } else {
                        assert(order@[k1] == pre[a0]);
                        assert(order@[k2] == pre[b0]);
                    }
                }
                assert forall|k: int| 0 <= k && k + 1 < order@.len() implies lex_le(
                    self.drives@[#[trigger] order@[k] as int].name_s(),
                    self.drives@[order@[k + 1] as int].name_s(),
                ) by {
                    if k + 1 < p {
                        assert(order@[k] == pre[k]);
                        assert(order@[k + 1] == pre[k + 1]);
                    } else if k + 1 == p {
                        assert(order@[k] == pre[k]);
                        assert(order@[k + 1] == i);
                    } else if k == p {
                        assert(order@[k] == i);
                        assert(order@[k + 1] == pre[k]);
                    } else {
                        assert(order@[k] == pre[k - 1]);
                        assert(order@[k + 1] == pre[k]);
                    }
                }
            }
            i = i + 1;
        }
        order
    }

    /// The drive collection, gadget and store are unchanged between `a`
    /// and `b` (panel state aside).
    pub open spec fn core_unchanged(a: PIso, b: PIso) -> bool {
        &&& b.drives@ == a.drives@
        &&& b.gadget == a.gadget
        &&& b.store.vols == a.store.vols
        &&& b.store.requests == a.store.requests
    }

    /// The panel state and configuration flags are unchanged between
    /// `a` and `b`.
    pub open spec fn panels_unchanged(a: PIso, b: PIso) -> bool {
        &&& b.shares == a.shares
        &&& b.flipped == a.flipped
        &&& b.has_wifi == a.has_wifi
        &&& b.sort_drives == a.sort_drives
    }

    /// Where the drives of `b` carry the same names, position by
    /// position, as those of `a`, name uniqueness and membership in the
    /// (unchanged) store carry over.
    proof fn lemma_wf_names_transfer(a: PIso, b: PIso)
        requires
            a.wf(),
            b.drives@.len() == a.drives@.len(),
            forall|i: int|
                0 <= i < b.drives@.len() ==> (#[trigger] b.drives@[i]).name_s()
                    == a.drives@[i].name_s(),
            b.store.vols == a.store.vols,
        ensures
            b.drive_names_unique(),
            b.drives_in_store(),
    {
        assert forall|i: int, j: int| 0 <= i < j < b.drives@.len() implies (
        #[trigger] b.drives@[i]).name_s() != (#[trigger] b.drives@[j]).name_s() by {
            assert(a.drives@[i].name_s() != a.drives@[j].name_s());
        }
        assert forall|i: int| 0 <= i < b.drives@.len() implies b.store.contains_name(
            (#[trigger] b.drives@[i]).name_s(),
        ) by {
            assert(a.store.contains_name(a.drives@[i].name_s()));
        }
    }

    /// Replacing drive `idx` by a non-`External` drive over the same
    /// volume, with gadget and volumes untouched, preserves the
    /// orchestrator invariant — provided the old drive was not
    /// `External` either, so no LUN loses its owner.
    #[verifier::rlimit(50)]
    proof fn lemma_wf_update_drive_same_gadget(a: PIso, b: PIso, idx: int)
        requires
            a.wf(),
            0 <= idx < a.drives@.len(),
            b.gadget == a.gadget,
            b.store.vols == a.store.vols,
            b.store.wf(),
            b.drives@.len() == a.drives@.len(),
            forall|j: int| 0 <= j < a.drives@.len() && j != idx ==> b.drives@[j] == a.drives@[j],
            b.drives@[idx].wf(),
            b.drives@[idx].volume == a.drives@[idx].volume,
            !b.drives@[idx].is_external(),
            !a.drives@[idx].is_external(),
        ensures
            b.wf(),
    {
        assert forall|i: int| 0 <= i < b.drives@.len() implies (#[trigger] b.drives@[i]).wf() by {
            if i != idx {
                assert(b.drives@[i] == a.drives@[i]);
            }
        }
        assert forall|i: int| 0 <= i < b.drives@.len() implies (#[trigger] b.drives@[i]).name_s()
            == a.drives@[i].name_s() by {
            if i != idx {
                assert(b.drives@[i] == a.drives@[i]);
            }
        }
        Self::lemma_wf_names_transfer(a, b);
        assert forall|i: int|
            0 <= i < b.drives@.len() && (#[trigger] b.drives@[i]).is_external() implies exists|
            k: int,
        |
            0 <= k < b.gadget.luns@.len() && (#[trigger] b.gadget.luns@[k]).id == b.drives@[
            i].lun_id_of() && b.gadget.luns@[k].device@ == b.drives@[i].name_s() by {
            assert(i != idx);
            assert(b.drives@[i] == a.drives@[i]);
        }
        assert forall|k: int|
            0 <= k < b.gadget.luns@.len() && (#[trigger] b.gadget.luns@[k]).id
                < b.gadget.next_id implies exists|i: int|
            0 <= i < b.drives@.len() && (#[trigger] b.drives@[i]).is_external() && b.drives@[
            i].lun_id_of() == b.gadget.luns@[k].id && b.drives@[i].name_s()
            == b.gadget.luns@[k].device@ by {
            let i = choose|i: int|
                0 <= i < a.drives@.len() && (#[trigger] a.drives@[i]).is_external() && a.drives@[
                i].lun_id_of() == a.gadget.luns@[k].id && a.drives@[i].name_s() == a.gadget.luns@[
                k].device@;
            assert(i != idx);
            assert(b.drives@[i] == a.drives@[i]);
        }
    }

    /// Replacing drive `idx` by an `External` drive whose fresh LUN was
    /// just pushed onto the gadget preserves the invariant.
    #[verifier::rlimit(50)]
    proof fn lemma_wf_expose(a: PIso, b: PIso, idx: int)
        requires
            a.wf(),
            0 <= idx < a.drives@.len(),
            b.store.vols == a.store.vols,
            b.store.wf(),
            b.drives@.len() == a.drives@.len(),
            forall|j: int| 0 <= j < a.drives@.len() && j != idx ==> b.drives@[j] == a.drives@[j],
            b.drives@[idx].wf(),
            b.drives@[idx].volume == a.drives@[idx].volume,
            b.drives@[idx].is_external(),
            b.drives@[idx].lun_id_of() == a.gadget.next_id,
            !a.drives@[idx].is_external(),
            b.gadget.wf(),
            b.gadget.luns@ == a.gadget.luns@.push(
                Lun { id: a.gadget.next_id, device: a.drives@[idx].volume.name },
            ),
        ensures
            b.wf(),
    {
        assert forall|i: int| 0 <= i < b.drives@.len() implies (#[trigger] b.drives@[i]).wf() by {
            if i != idx {
                assert(b.drives@[i] == a.drives@[i]);
            }
        }
        assert forall|i: int| 0 <= i < b.drives@.len() implies (#[trigger] b.drives@[i]).name_s()
            == a.drives@[i].name_s() by {
            if i != idx {
                assert(b.drives@[i] == a.drives@[i]);
            }
        }
        Self::lemma_wf_names_transfer(a, b);
        let kn = a.gadget.luns@.len() as int;
        assert forall|i: int|
            0 <= i < b.drives@.len() && (#[trigger] b.drives@[i]).is_external() implies exists|
            k: int,
        |
            0 <= k < b.gadget.luns@.len() && (#[trigger] b.gadget.luns@[k]).id == b.drives@[
            i].lun_id_of() && b.gadget.luns@[k].device@ == b.drives@[i].name_s() by {
            if i == idx {
                assert(b.gadget.luns@[kn].id == b.drives@[idx].lun_id_of());
                assert(b.gadget.luns@[kn].device@ == b.drives@[idx].name_s());
            } else {
                assert(b.drives@[i] == a.drives@[i]);
                let k = choose|k: int|
                    0 <= k < a.gadget.luns@.len() && (#[trigger] a.gadget.luns@[k]).id
                        == a.drives@[i].lun_id_of() && a.gadget.luns@[k].device@ == a.drives@[
                    i].name_s();
                assert(b.gadget.luns@[k] == a.gadget.luns@[k]);
            }
        }
        assert forall|k: int|
            0 <= k < b.gadget.luns@.len() && (#[trigger] b.gadget.luns@[k]).id
                < b.gadget.next_id implies exists|i: int|
            0 <= i < b.drives@.len() && (#[trigger] b.drives@[i]).is_external() && b.drives@[
            i].lun_id_of() == b.gadget.luns@[k].id && b.drives@[i].name_s()
            == b.gadget.luns@[k].device@ by {
            if k == kn {
                assert(b.drives@[idx].is_external());
                assert(b.drives@[idx].lun_id_of() == b.gadget.luns@[k].id);
                assert(b.drives@[idx].name_s() == b.gadget.luns@[k].device@);
            } else {
                assert(b.gadget.luns@[k] == a.gadget.luns@[k]);
                let i = choose|i: int|
                    0 <= i < a.drives@.len() && (#[trigger] a.drives@[i]).is_external()
                        && a.drives@[i].lun_id_of() == a.gadget.luns@[k].id && a.drives@[
                    i].name_s() == a.gadget.luns@[k].device@;
                assert(i != idx);
                assert(b.drives@[i] == a.drives@[i]);
            }
        }
    }

    /// Replacing the `External` drive `idx` by a non-`External` drive
    /// over the same volume, with exactly its LUN removed from the
    /// gadget, preserves the invariant.
    #[verifier::rlimit(100)]
    proof fn lemma_wf_unexpose(a: PIso, b: PIso, idx: int)
        requires
            a.wf(),
            0 <= idx < a.drives@.len(),
            b.store.vols == a.store.vols,
            b.store.wf(),
            b.drives@.len() == a.drives@.len(),
            forall|j: int| 0 <= j < a.drives@.len() && j != idx ==> b.drives@[j] == a.drives@[j],
            b.drives@[idx].wf(),
            b.drives@[idx].volume == a.drives@[idx].volume,
            !b.drives@[idx].is_external(),
            a.drives@[idx].is_external(),
            a.gadget.has_lun(a.drives@[idx].lun_id_of()),
            b.gadget.wf(),
            b.gadget.luns@ == a.gadget.luns@.remove(
                a.gadget.lun_index(a.drives@[idx].lun_id_of()),
            ),
        ensures
            b.wf(),
    {
        assert forall|i: int| 0 <= i < b.drives@.len() implies (#[trigger] b.drives@[i]).wf() by {
            if i != idx {
                assert(b.drives@[i] == a.drives@[i]);
            }
        }
        assert forall|i: int| 0 <= i < b.drives@.len() implies (#[trigger] b.drives@[i]).name_s()
            == a.drives@[i].name_s() by {
            if i != idx {
                assert(b.drives@[i] == a.drives@[i]);
            }
        }
        Self::lemma_wf_names_transfer(a, b);
        Self::lemma_unexpose_luns_match(a, b, idx);
        Self::lemma_unexpose_drives_match(a, b, idx);
    }

    /// After a LUN removal, every remaining `External` drive still has
    /// its LUN registered.
    #[verifier::rlimit(100)]
    proof fn lemma_unexpose_luns_match(a: PIso, b: PIso, idx: int)
        requires
            a.wf(),
            0 <= idx < a.drives@.len(),
            b.drives@.len() == a.drives@.len(),
            forall|j: int| 0 <= j < a.drives@.len() && j != idx ==> b.drives@[j] == a.drives@[j],
            !b.drives@[idx].is_external(),
            a.drives@[idx].is_external(),
            a.gadget.has_lun(a.drives@[idx].lun_id_of()),
            b.gadget.wf(),
            b.gadget.luns@ == a.gadget.luns@.remove(
                a.gadget.lun_index(a.drives@[idx].lun_id_of()),
            ),
        ensures
            b.luns_match_drives(),
    {
        let id0 = a.drives@[idx].lun_id_of();
        let ki = a.gadget.lun_index(id0);
        assert(0 <= ki < a.gadget.luns@.len() && a.gadget.luns@[ki].id == id0);
        a.gadget.luns@.remove_ensures(ki);
        assert forall|i: int|
            0 <= i < b.drives@.len() && (#[trigger] b.drives@[i]).is_external() implies exists|
            k: int,
        |
            0 <= k < b.gadget.luns@.len() && (#[trigger] b.gadget.luns@[k]).id == b.drives@[
            i].lun_id_of() && b.gadget.luns@[k].device@ == b.drives@[i].name_s() by {
            assert(i != idx);
            assert(b.drives@[i] == a.drives@[i]);
            let k = choose|k: int|
                0 <= k < a.gadget.luns@.len() && (#[trigger] a.gadget.luns@[k]).id == a.drives@[
                i].lun_id_of() && a.gadget.luns@[k].device@ == a.drives@[i].name_s();
            if k == ki {
                // two drives would then share one LUN id; device names
                // would coincide, contradicting name uniqueness
                assert(a.gadget.luns@[ki].device@ == a.drives@[i].name_s());
                let kk = choose|kk: int|
                    0 <= kk < a.gadget.luns@.len() && (#[trigger] a.gadget.luns@[kk]).id
                        == a.drives@[idx].lun_id_of() && a.gadget.luns@[kk].device@ == a.drives@[
                    idx].name_s();
                if kk != ki {
                    assert(a.gadget.luns@[kk].id != a.gadget.luns@[ki].id);
                }
                assert(a.drives@[idx].name_s() == a.drives@[i].name_s());
                assert(false);
            }
            let k2 = if k < ki {
                k
            } else {
                k - 1
            };
            assert(b.gadget.luns@[k2] == a.gadget.luns@[k]);
        }
    }

    /// After a LUN removal, every remaining LUN still belongs to an
    /// `External` drive.
    #[verifier::rlimit(100)]
    proof fn lemma_unexpose_drives_match(a: PIso, b: PIso, idx: int)
        requires
            a.wf(),
            0 <= idx < a.drives@.len(),
            b.drives@.len() == a.drives@.len(),
            forall|j: int| 0 <= j < a.drives@.len() && j != idx ==> b.drives@[j] == a.drives@[j],
            !b.drives@[idx].is_external(),
            a.drives@[idx].is_external(),
            a.gadget.has_lun(a.drives@[idx].lun_id_of()),
            b.gadget.wf(),
            b.gadget.luns@ == a.gadget.luns@.remove(
                a.gadget.lun_index(a.drives@[idx].lun_id_of()),
            ),
        ensures
            b.drives_match_luns(),
    {
        let id0 = a.drives@[idx].lun_id_of();
        let ki = a.gadget.lun_index(id0);
        assert(0 <= ki < a.gadget.luns@.len() && a.gadget.luns@[ki].id == id0);
        a.gadget.luns@.remove_ensures(ki);
        assert forall|k: int|
            0 <= k < b.gadget.luns@.len() && (#[trigger] b.gadget.luns@[k]).id
                < b.gadget.next_id implies exists|i: int|
            0 <= i < b.drives@.len() && (#[trigger] b.drives@[i]).is_external() && b.drives@[
            i].lun_id_of() == b.gadget.luns@[k].id && b.drives@[i].name_s()
            == b.gadget.luns@[k].device@ by {
            let k0 = if k < ki {
                k
            } else {
                k + 1
            };
            assert(b.gadget.luns@[k] == a.gadget.luns@[k0]);
            let i = choose|i: int|
                0 <= i < a.drives@.len() && (#[trigger] a.drives@[i]).is_external() && a.drives@[
                i].lun_id_of() == a.gadget.luns@[k0].id && a.drives@[i].name_s() == a.gadget.luns@[
                k0].device@;
            if i == idx {
                assert(a.gadget.luns@[k0].id == id0);
                if k0 != ki {
                    assert(a.gadget.luns@[k0].id != a.gadget.luns@[ki].id);
                }
                assert(false);
            }
            assert(b.drives@[i] == a.drives@[i]);
        }
    }

    /// Removing a non-`External` drive from the collection together
    /// with its backing volume preserves the invariant.
    #[verifier::rlimit(80)]
    proof fn lemma_wf_delete(a: PIso, b: PIso, idx: int, name: Seq<char>)
        requires
            a.wf(),
            0 <= idx < a.drives@.len(),
            a.drives@[idx].name_s() == name,
            !a.drives@[idx].is_external(),
            a.store.contains_name(name),
            b.drives@ == a.drives@.remove(idx),
            b.gadget == a.gadget,
            b.store.wf(),
            b.store.vols@ == a.store.vols@.remove(a.store.index_of(name)),
        ensures
            b.wf(),
    {
        a.drives@.remove_ensures(idx);
        let vi = a.store.index_of(name);
        assert(0 <= vi < a.store.vols@.len() && a.store.vols@[vi].name@ == name);
        a.store.vols@.remove_ensures(vi);
        assert forall|i: int| 0 <= i < b.drives@.len() implies (#[trigger] b.drives@[i]).wf()
            && b.store.contains_name(b.drives@[i].name_s()) by {
            let i0 = if i < idx {
                i
            } else {
                i + 1
            };
            assert(b.drives@[i] == a.drives@[i0]);
            assert(a.store.contains_name(a.drives@[i0].name_s()));
            let w = a.store.index_of(a.drives@[i0].name_s());
            assert(0 <= w < a.store.vols@.len() && a.store.vols@[w].name@ == a.drives@[
            i0].name_s());
            assert(a.drives@[i0].name_s() != name);
            if w != vi {
                let w2 = if w < vi {
                    w
                } else {
                    w - 1
                };
                assert(b.store.vols@[w2] == a.store.vols@[w]);
                assert(b.store.contains_name(b.drives@[i].name_s()));
            } else {
                assert(false);
            }
        }
        assert forall|i: int, j: int| 0 <= i < j < b.drives@.len() implies (
        #[trigger] b.drives@[i]).name_s() != (#[trigger] b.drives@[j]).name_s() by {
            let i0 = if i < idx {
                i
            } else {
                i + 1
            };
            let j0 = if j < idx {
                j
            } else {
                j + 1
            };
            assert(b.drives@[i] == a.drives@[i0]);
            assert(b.drives@[j] == a.drives@[j0]);
        }
        assert forall|i: int|
            0 <= i < b.drives@.len() && (#[trigger] b.drives@[i]).is_external() implies exists|
            k: int,
        |
            0 <= k < b.gadget.luns@.len() && (#[trigger] b.gadget.luns@[k]).id == b.drives@[
            i].lun_id_of() && b.gadget.luns@[k].device@ == b.drives@[i].name_s() by {
            let i0 = if i < idx {
                i
            } else {
                i + 1
            };
            assert(b.drives@[i] == a.drives@[i0]);
        }
        assert forall|k: int|
            0 <= k < b.gadget.luns@.len() && (#[trigger] b.gadget.luns@[k]).id
                < b.gadget.next_id implies exists|i: int|
            0 <= i < b.drives@.len() && (#[trigger] b.drives@[i]).is_external() && b.drives@[
            i].lun_id_of() == b.gadget.luns@[k].id && b.drives@[i].name_s()
            == b.gadget.luns@[k].device@ by {
            let i0 = choose|i0: int|
                0 <= i0 < a.drives@.len() && (#[trigger] a.drives@[i0]).is_external()
                    && a.drives@[i0].lun_id_of() == a.gadget.luns@[k].id && a.drives@[i0].name_s()
                    == a.gadget.luns@[k].device@;
            assert(i0 != idx);
            let i = if i0 < idx {
                i0
            } else {
                i0 - 1
            };
            assert(b.drives@[i] == a.drives@[i0]);
        }
    }

    /// Creates a drive over a freshly produced volume, mounts it
    /// internally, and appends it to the live collection. On a mount
    /// failure the drive is not added and nothing changes.
    fn add_drive(&mut self, volume: Volume, mount_ok: bool) -> (r: Result<usize, PisoError>)
        requires
            old(self).wf(),
            old(self).store.contains_name(volume.name@),
            !old(self).has_drive(volume.name@),
        ensures
            final(self).wf(),
            final(self).gadget == old(self).gadget,
            final(self).store == old(self).store,
            Self::panels_unchanged(*old(self), *final(self)),
            !mount_ok ==> r == Err::<usize, PisoError>(PisoError::MountFailed) && final(self).drives@
                == old(self).drives@,
            mount_ok ==> {
                &&& (r matches Ok(ix) && ix as int == old(self).drives@.len())
                &&& final(self).drives@.len() == old(self).drives@.len() + 1
                &&& final(self).drives@.drop_last() == old(self).drives@
                &&& final(self).drives@.last().volume == volume
                &&& final(self).drives@.last().is_internal()
                &&& final(self).drives@.last().wf()
            },
    {
        let mut d = VirtualDrive::new(volume);
        match d.mount_internal(mount_ok) {
            Ok(()) => {},
            Err(e) => {
                return Err(e);
            },
        }
        let idx = self.drives.len();
        let ghost dg = d;
        self.drives.push(d);
        proof {
            let a = *old(self);
            let b = *self;
            assert(b.drives@ == a.drives@.push(dg));
            assert(dg.is_internal() && !dg.is_external());
            assert(b.gadget == a.gadget);
            assert(b.store == a.store);
            assert(b.drives@.drop_last() =~= a.drives@);
            assert forall|i: int| 0 <= i < b.drives@.len() implies (#[trigger] b.drives@[i]).wf()
                && b.store.contains_name(b.drives@[i].name_s()) by {
                if i < a.drives@.len() {
                    assert(b.drives@[i] == a.drives@[i]);
                    assert(a.store.contains_name(a.drives@[i].name_s()));
                }
            }
            assert forall|i: int, j: int| 0 <= i < j < b.drives@.len() implies (
            #[trigger] b.drives@[i]).name_s() != (#[trigger] b.drives@[j]).name_s() by {
                if j == b.drives@.len() - 1 {
                    assert(b.drives@[i] == a.drives@[i]);
                    assert(!(a.drives@[i].name_s() == volume.name@));
                } else {
                    assert(b.drives@[i] == a.drives@[i]);
                    assert(b.drives@[j] == a.drives@[j]);
                }
            }
            assert forall|i: int|
                0 <= i < b.drives@.len() && (#[trigger] b.drives@[i]).is_external() implies exists|
                k: int,
            |
                0 <= k < b.gadget.luns@.len() && (#[trigger] b.gadget.luns@[k]).id == b.drives@[
                i].lun_id_of() && b.gadget.luns@[k].device@ == b.drives@[i].name_s() by {
                if i == a.drives@.len() {
                    assert(b.drives@[i] == dg);
                    assert(false);
                } else {
                    assert(b.drives@[i] == a.drives@[i]);
                }
            }
            assert forall|k: int|
                0 <= k < b.gadget.luns@.len() && (#[trigger] b.gadget.luns@[k]).id
                    < b.gadget.next_id implies exists|i: int|
                0 <= i < b.drives@.len() && (#[trigger] b.drives@[i]).is_external() && b.drives@[
                i].lun_id_of() == b.gadget.luns@[k].id && b.drives@[i].name_s()
                == b.gadget.luns@[k].device@ by {
                let i = choose|i: int|
                    0 <= i < a.drives@.len() && (#[trigger] a.drives@[i]).is_external()
                        && a.drives@[i].lun_id_of() == a.gadget.luns@[k].id && a.drives@[
                    i].name_s() == a.gadget.luns@[k].device@;
                assert(b.drives@[i] == a.drives@[i]);
            }
        }
        Ok(idx)
    }

    /// Exposes drive `idx` to the connected host, registering its LUN
    /// with the shared gadget.
    #[verifier::rlimit(80)]
    pub fn expose_drive(&mut self, idx: usize, out: Outcomes) -> (r: Result<(), PisoError>)
        requires
            old(self).wf(),
            idx < old(self).drives@.len(),
            old(self).gadget.next_id < u64::MAX,
        ensures
            final(self).wf(),
            final(self).store == old(self).store,
            Self::panels_unchanged(*old(self), *final(self)),
            final(self).drives@.len() == old(self).drives@.len(),
            forall|j: int|
                0 <= j < old(self).drives@.len() && j != idx ==> final(self).drives@[j]
                    == old(self).drives@[j],
            final(self).drives@[idx as int].volume == old(self).drives@[idx as int].volume,
            ({
                let d0 = old(self).drives@[idx as int];
                let d1 = final(self).drives@[idx as int];
                &&& (d0.is_external() ==> r == Err::<(), PisoError>(PisoError::InvalidState) && d1
                    == d0 && final(self).gadget == old(self).gadget)
                &&& (d0.is_internal() && !out.unmount_ok ==> r == Err::<(), PisoError>(
                    PisoError::UnmountFailed,
                ) && d1 == d0 && final(self).gadget == old(self).gadget)
                &&& ((d0.is_unmounted() || (d0.is_internal() && out.unmount_ok)) && !out.lun_ok
                    ==> r == Err::<(), PisoError>(PisoError::GadgetRejected) && d1.is_unmounted()
                    && final(self).gadget == old(self).gadget)
                &&& ((d0.is_unmounted() || (d0.is_internal() && out.unmount_ok)) && out.lun_ok
                    ==> {
                    &&& r == Ok::<(), PisoError>(())
                    &&& d1.is_external()
                    &&& d1.lun_id_of() == old(self).gadget.next_id
                    &&& final(self).gadget.luns@ == old(self).gadget.luns@.push(
                        Lun { id: old(self).gadget.next_id, device: d0.volume.name },
                    )
                    &&& final(self).gadget.next_id == old(self).gadget.next_id + 1
                })
            }),
    {
        let ghost a = *old(self);
        let mut d = self.drives.remove(idx);
        let r = d.expose_external(&mut self.gadget, out.unmount_ok, out.lun_ok);
        self.drives.insert(idx, d);
        proof {
            a.drives@.remove_ensures(idx as int);
            a.drives@.remove(idx as int).insert_ensures(idx as int, d);
            assert(self.drives@.len() == a.drives@.len());
            assert forall|j: int|
                0 <= j < a.drives@.len() && j != idx implies self.drives@[j] == a.drives@[j] by {
                if j < idx {
                    assert(self.drives@[j] == a.drives@.remove(idx as int)[j]);
                } else {
                    assert(self.drives@[j] == a.drives@.remove(idx as int)[j - 1]);
                }
            }
            assert(self.drives@[idx as int] == d);
            let b = *self;
            let d0 = a.drives@[idx as int];
            if d0.is_external() {
                assert(d == d0);
                Self::lemma_wf_update_drive_same_gadget_keep(a, b, idx as int);
            } else if d0.is_internal() && !out.unmount_ok {
                assert(d == d0);
                Self::lemma_wf_update_drive_same_gadget_keep(a, b, idx as int);
            } else if !out.lun_ok {
                Self::lemma_wf_update_drive_same_gadget(a, b, idx as int);
            } else {
                Self::lemma_wf_expose(a, b, idx as int);
            }
        }
        r
    }

    /// Replacing drive `idx` by the very same drive value preserves the
    /// invariant trivially.
    proof fn lemma_wf_update_drive_same_gadget_keep(a: PIso, b: PIso, idx: int)
        requires
            a.wf(),
            0 <= idx < a.drives@.len(),
            b.gadget == a.gadget,
            b.store == a.store,
            b.drives@.len() == a.drives@.len(),
            forall|j: int| 0 <= j < a.drives@.len() && j != idx ==> b.drives@[j] == a.drives@[j],
            b.drives@[idx] == a.drives@[idx],
        ensures
            b.wf(),
    {
        assert(b.drives@ =~= a.drives@);
        assert forall|i: int| 0 <= i < b.drives@.len() implies (#[trigger] b.drives@[i]).wf()
            && b.drives@[i].name_s() == a.drives@[i].name_s() by {
            assert(b.drives@[i] == a.drives@[i]);
        }
        Self::lemma_wf_names_transfer(a, b);
        assert forall|i: int|
            0 <= i < b.drives@.len() && (#[trigger] b.drives@[i]).is_external() implies exists|
            k: int,
        |
            0 <= k < b.gadget.luns@.len() && (#[trigger] b.gadget.luns@[k]).id == b.drives@[
            i].lun_id_of() && b.gadget.luns@[k].device@ == b.drives@[i].name_s() by {
            assert(b.drives@[i] == a.drives@[i]);
        }
        assert forall|k: int|
            0 <= k < b.gadget.luns@.len() && (#[trigger] b.gadget.luns@[k]).id
                < b.gadget.next_id implies exists|i: int|
            0 <= i < b.drives@.len() && (#[trigger] b.drives@[i]).is_external() && b.drives@[
            i].lun_id_of() == b.gadget.luns@[k].id && b.drives@[i].name_s()
            == b.gadget.luns@[k].device@ by {
            let i = choose|i: int|
                0 <= i < a.drives@.len() && (#[trigger] a.drives@[i]).is_external() && a.drives@[
                i].lun_id_of() == a.gadget.luns@[k].id && a.drives@[i].name_s() == a.gadget.luns@[
                k].device@;
            assert(b.drives@[i] == a.drives@[i]);
        }
    }

    /// Returns drive `idx` from host exposure to local management:
    /// removes its LUN and mounts it internally again.
    #[verifier::rlimit(80)]
    pub fn unexpose_drive(&mut self, idx: usize, out: Outcomes) -> (r: Result<(), PisoError>)
        requires
            old(self).wf(),
            idx < old(self).drives@.len(),
        ensures
            final(self).wf(),
            final(self).store == old(self).store,
            Self::panels_unchanged(*old(self), *final(self)),
            final(self).drives@.len() == old(self).drives@.len(),
            forall|j: int|
                0 <= j < old(self).drives@.len() && j != idx ==> final(self).drives@[j]
                    == old(self).drives@[j],
            final(self).drives@[idx as int].volume == old(self).drives@[idx as int].volume,
            ({
                let d0 = old(self).drives@[idx as int];
                let d1 = final(self).drives@[idx as int];
                &&& (!d0.is_external() ==> r == Err::<(), PisoError>(PisoError::InvalidState) && d1
                    == d0 && final(self).gadget == old(self).gadget)
                &&& (d0.is_external() && !out.lun_ok ==> r == Err::<(), PisoError>(
                    PisoError::GadgetRejected,
                ) && d1 == d0 && final(self).gadget == old(self).gadget)
                &&& (d0.is_external() && out.lun_ok && !out.mount_ok ==> r == Err::<(), PisoError>(
                    PisoError::MountFailed,
                ) && d1.is_unmounted() && final(self).gadget.luns@ == old(self).gadget.luns@.remove(
                    old(self).gadget.lun_index(d0.lun_id_of()),
                ) && final(self).gadget.next_id == old(self).gadget.next_id)
                &&& (d0.is_external() && out.lun_ok && out.mount_ok ==> {
                    &&& r == Ok::<(), PisoError>(())
                    &&& d1.is_internal()
                    &&& d1.mount_paths_of() == mount_paths_spec(
                        d0.name_s(),
                        d0.volume.n_parts as nat,
                    )
                    &&& final(self).gadget.luns@ == old(self).gadget.luns@.remove(
                        old(self).gadget.lun_index(d0.lun_id_of()),
                    )
                    &&& final(self).gadget.next_id == old(self).gadget.next_id
                    &&& !final(self).gadget.has_lun(d0.lun_id_of())
                })
            }),
    {
        let ghost a = *old(self);
        proof {
            if a.drives@[idx as int].is_external() {
                assert(a.luns_match_drives());
                let k = choose|k: int|
                    0 <= k < a.gadget.luns@.len() && (#[trigger] a.gadget.luns@[k]).id
                        == a.drives@[idx as int].lun_id_of() && a.gadget.luns@[k].device@
                        == a.drives@[idx as int].name_s();
                assert(a.gadget.has_lun(a.drives@[idx as int].lun_id_of()));
            }
        }
        let mut d = self.drives.remove(idx);
        let r = d.unexpose_internal(&mut self.gadget, out.lun_ok, out.mount_ok);
        self.drives.insert(idx, d);
        proof {
            a.drives@.remove_ensures(idx as int);
            a.drives@.remove(idx as int).insert_ensures(idx as int, d);
            assert(self.drives@.len() == a.drives@.len());
            assert forall|j: int|
                0 <= j < a.drives@.len() && j != idx implies self.drives@[j] == a.drives@[j] by {
                if j < idx {
                    assert(self.drives@[j] == a.drives@.remove(idx as int)[j]);
                } else {
                    assert(self.drives@[j] == a.drives@.remove(idx as int)[j - 1]);
                }
            }
            assert(self.drives@[idx as int] == d);
            let b = *self;
            let d0 = a.drives@[idx as int];
            if !d0.is_external() {
                assert(d == d0);
                Self::lemma_wf_update_drive_same_gadget_keep(a, b, idx as int);
            } else if !out.lun_ok {
                assert(d == d0);
                Self::lemma_wf_update_drive_same_gadget_keep(a, b, idx as int);
            } else {
                Self::lemma_wf_unexpose(a, b, idx as int);
            }
        }
        r
    }

    /// The drive collection, gadget and volume set of `b` are the very
    /// values of `a`: the invariant carries over.
    proof fn lemma_wf_same_shape(a: PIso, b: PIso)
        requires
            a.wf(),
            b.drives@ == a.drives@,
            b.gadget == a.gadget,
            b.store.wf(),
            b.store.vols == a.store.vols,
        ensures
            b.wf(),
    {
        assert forall|i: int| 0 <= i < b.drives@.len() implies (#[trigger] b.drives@[i]).wf()
            && b.drives@[i].name_s() == a.drives@[i].name_s() by {
            assert(b.drives@[i] == a.drives@[i]);
        }
        Self::lemma_wf_names_transfer(a, b);
        assert forall|i: int|
            0 <= i < b.drives@.len() && (#[trigger] b.drives@[i]).is_external() implies exists|
            k: int,
        |
            0 <= k < b.gadget.luns@.len() && (#[trigger] b.gadget.luns@[k]).id == b.drives@[
            i].lun_id_of() && b.gadget.luns@[k].device@ == b.drives@[i].name_s() by {
            assert(b.drives@[i] == a.drives@[i]);
        }
        assert forall|k: int|
            0 <= k < b.gadget.luns@.len() && (#[trigger] b.gadget.luns@[k]).id
                < b.gadget.next_id implies exists|i: int|
            0 <= i < b.drives@.len() && (#[trigger] b.drives@[i]).is_external() && b.drives@[
            i].lun_id_of() == b.gadget.luns@[k].id && b.drives@[i].name_s()
            == b.gadget.luns@[k].device@ by {
            let i = choose|i: int|
                0 <= i < a.drives@.len() && (#[trigger] a.drives@[i]).is_external() && a.drives@[
                i].lun_id_of() == a.gadget.luns@[k].id && a.drives@[i].name_s() == a.gadget.luns@[
                k].device@;
            assert(b.drives@[i] == a.drives@[i]);
        }
    }

    /// Adding one volume to the store, with drives and gadget untouched,
    /// preserves the invariant.
    proof fn lemma_wf_store_grown(a: PIso, b: PIso)
        requires
            a.wf(),
            b.drives@ == a.drives@,
            b.gadget == a.gadget,
            b.store.wf(),
            b.store.vols@.len() == a.store.vols@.len() + 1,
            b.store.vols@.drop_last() == a.store.vols@,
        ensures
            b.wf(),
    {
        assert forall|i: int| 0 <= i < b.drives@.len() implies (#[trigger] b.drives@[i]).wf()
            && b.store.contains_name(b.drives@[i].name_s()) by {
            assert(b.drives@[i] == a.drives@[i]);
            assert(a.store.contains_name(a.drives@[i].name_s()));
            let w = a.store.index_of(a.drives@[i].name_s());
            assert(a.store.vols@[w].name@ == a.drives@[i].name_s());
            assert(b.store.vols@[w] == a.store.vols@[w]);
        }
        assert forall|i: int, j: int| 0 <= i < j < b.drives@.len() implies (
        #[trigger] b.drives@[i]).name_s() != (#[trigger] b.drives@[j]).name_s() by {
            assert(b.drives@[i] == a.drives@[i]);
            assert(b.drives@[j] == a.drives@[j]);
        }
        assert forall|i: int|
            0 <= i < b.drives@.len() && (#[trigger] b.drives@[i]).is_external() implies exists|
            k: int,
        |
            0 <= k < b.gadget.luns@.len() && (#[trigger] b.gadget.luns@[k]).id == b.drives@[
            i].lun_id_of() && b.gadget.luns@[k].device@ == b.drives@[i].name_s() by {
            assert(b.drives@[i] == a.drives@[i]);
        }
        assert forall|k: int|
            0 <= k < b.gadget.luns@.len() && (#[trigger] b.gadget.luns@[k]).id
                < b.gadget.next_id implies exists|i: int|
            0 <= i < b.drives@.len() && (#[trigger] b.drives@[i]).is_external() && b.drives@[
            i].lun_id_of() == b.gadget.luns@[k].id && b.drives@[i].name_s()
            == b.gadget.luns@[k].device@ by {
            let i = choose|i: int|
                0 <= i < a.drives@.len() && (#[trigger] a.drives@[i]).is_external() && a.drives@[
                i].lun_id_of() == a.gadget.luns@[k].id && a.drives@[i].name_s() == a.gadget.luns@[
                k].device@;
            assert(b.drives@[i] == a.drives@[i]);
        }
    }

    /// Removing the volume named `name` from the store, while no live
    /// drive carries that name, preserves the invariant.
    proof fn lemma_wf_store_shrunk(a: PIso, b: PIso, name: Seq<char>)
        requires
            a.wf(),
            b.drives@ == a.drives@,
            b.gadget == a.gadget,
            b.store.wf(),
            a.store.contains_name(name),
            b.store.vols@ == a.store.vols@.remove(a.store.index_of(name)),
            forall|j: int|
                0 <= j < a.drives@.len() ==> (#[trigger] a.drives@[j]).name_s() != name,
        ensures
            b.wf(),
    {
        let vi = a.store.index_of(name);
        assert(0 <= vi < a.store.vols@.len() && a.store.vols@[vi].name@ == name);
        a.store.vols@.remove_ensures(vi);
        assert forall|i: int| 0 <= i < b.drives@.len() implies (#[trigger] b.drives@[i]).wf()
            && b.store.contains_name(b.drives@[i].name_s()) by {
            assert(b.drives@[i] == a.drives@[i]);
            let w = a.store.index_of(a.drives@[i].name_s());
            assert(a.store.contains_name(a.drives@[i].name_s()));
            assert(0 <= w < a.store.vols@.len() && a.store.vols@[w].name@ == a.drives@[
            i].name_s());
            if w == vi {
                assert(false);
            }
            let w2 = if w < vi {
                w
            } else {
                w - 1
            };
            assert(b.store.vols@[w2] == a.store.vols@[w]);
        }
        assert forall|i: int, j: int| 0 <= i < j < b.drives@.len() implies (
        #[trigger] b.drives@[i]).name_s() != (#[trigger] b.drives@[j]).name_s() by {
            assert(b.drives@[i] == a.drives@[i]);
            assert(b.drives@[j] == a.drives@[j]);
        }
        assert forall|i: int|
            0 <= i < b.drives@.len() && (#[trigger] b.drives@[i]).is_external() implies exists|
            k: int,
        |
            0 <= k < b.gadget.luns@.len() && (#[trigger] b.gadget.luns@[k]).id == b.drives@[
            i].lun_id_of() && b.gadget.luns@[k].device@ == b.drives@[i].name_s() by {
            assert(b.drives@[i] == a.drives@[i]);
        }
        assert forall|k: int|
            0 <= k < b.gadget.luns@.len() && (#[trigger] b.gadget.luns@[k]).id
                < b.gadget.next_id implies exists|i: int|
            0 <= i < b.drives@.len() && (#[trigger] b.drives@[i]).is_external() && b.drives@[
            i].lun_id_of() == b.gadget.luns@[k].id && b.drives@[i].name_s()
            == b.gadget.luns@[k].device@ by {
            let i = choose|i: int|
                0 <= i < a.drives@.len() && (#[trigger] a.drives@[i]).is_external() && a.drives@[
                i].lun_id_of() == a.gadget.luns@[k].id && a.drives@[i].name_s() == a.gadget.luns@[
                k].device@;
            assert(b.drives@[i] == a.drives@[i]);
        }
    }

    /// The teardown step of a delete can go ahead: the drive is already
    /// unmounted, or the external call its state requires succeeds.
    pub open spec fn teardown_proceeds(d: VirtualDrive, out: Outcomes) -> bool {
        ||| d.is_unmounted()
        ||| d.is_internal() && out.unmount_ok
        ||| d.is_external() && out.lun_ok
    }

    /// What handling `CreateDrive` establishes: either the exact error
    /// its input forces, with nothing changed, or a fresh `Internal`
    /// drive appended over the given volume with the share actions for
    /// its mount paths (none without the wireless capability).
    pub open spec fn create_post(
        a: PIso,
        b: PIso,
        v: Volume,
        mount_ok: bool,
        r: Result<Seq<Action>, PisoError>,
    ) -> bool {
        &&& Self::panels_unchanged(a, b)
        &&& if !a.store.contains_name(v.name@) {
            r == Err::<Seq<Action>, PisoError>(PisoError::VolumeNotFound) && Self::core_unchanged(
                a,
                b,
            )
        } else if a.has_drive(v.name@) {
            r == Err::<Seq<Action>, PisoError>(PisoError::VolumeExists) && Self::core_unchanged(
                a,
                b,
            )
        } else if !mount_ok {
            r == Err::<Seq<Action>, PisoError>(PisoError::MountFailed) && Self::core_unchanged(
                a,
                b,
            )
        } else {
            r matches Ok(acts) && Self::drive_appended(a, b, v.name@, v.n_parts as nat, acts)
                && b.drives@.last().volume == v && b.store.vols == a.store.vols
                && b.store.requests == a.store.requests
        }
    }

    /// A fresh `Internal` drive stands at the end of the collection,
    /// everything else untouched, with the share actions for its paths.
    pub open spec fn drive_appended(
        a: PIso,
        b: PIso,
        nm: Seq<char>,
        n_parts: nat,
        acts: Seq<Action>,
    ) -> bool {
        &&& b.drives@.len() == a.drives@.len() + 1
        &&& b.drives@.drop_last() == a.drives@
        &&& b.drives@.last().name_s() == nm
        &&& b.drives@.last().volume.n_parts == n_parts
        &&& b.drives@.last().is_internal()
        &&& b.drives@.last().mount_paths_of() == mount_paths_spec(nm, n_parts)
        &&& b.gadget == a.gadget
        &&& if a.has_wifi {
            share_actions_ok(acts, mount_paths_spec(nm, n_parts), false)
        } else {
            acts.len() == 0
        }
    }

    /// The store gained exactly one volume, of this name and partition
    /// count.
    pub open spec fn vol_appended(a: PIso, b: PIso, nm: Seq<char>, n_parts: nat) -> bool {
        &&& b.store.vols@.len() == a.store.vols@.len() + 1
        &&& b.store.vols@.drop_last() == a.store.vols@
        &&& b.store.vols@.last().name@ == nm
        &&& b.store.vols@.last().n_parts == n_parts
    }

    /// What handling `SnapshotDrive` establishes: the snapshot volume is
    /// produced by the store and a drive is created over it exactly as
    /// for `CreateDrive`; each failure comes precisely on the input or
    /// outcome that forces it, and a mount failure after a successful
    /// snapshot leaves the new volume in the store with no drive.
    pub open spec fn snapshot_post(
        a: PIso,
        b: PIso,
        name: Seq<char>,
        out: Outcomes,
        r: Result<Seq<Action>, PisoError>,
    ) -> bool {
        let sn = snap_name_spec(name);
        &&& Self::panels_unchanged(a, b)
        &&& b.store.requests == a.store.requests
        &&& if !a.store.contains_name(name) {
            r == Err::<Seq<Action>, PisoError>(PisoError::VolumeNotFound) && Self::core_unchanged(
                a,
                b,
            )
        } else if a.store.contains_name(sn) {
            r == Err::<Seq<Action>, PisoError>(PisoError::VolumeExists) && Self::core_unchanged(
                a,
                b,
            )
        } else if !out.store_ok {
            r == Err::<Seq<Action>, PisoError>(PisoError::StoreFailed) && Self::core_unchanged(
                a,
                b,
            )
        } else {
            let n_parts = a.store.vols@[a.store.index_of(name)].n_parts as nat;
            &&& Self::vol_appended(a, b, sn, n_parts)
            &&& if !out.mount_ok {
                r == Err::<Seq<Action>, PisoError>(PisoError::MountFailed) && b.drives@
                    == a.drives@ && b.gadget == a.gadget
            } else {
                r matches Ok(acts) && Self::drive_appended(a, b, sn, n_parts, acts)
            }
        }
    }

    /// What handling `DeleteDrive` establishes. With a live drive of the
    /// name: its share-removal actions are computed, the drive is forced
    /// to `Unmounted` (removing its LUN if it was exposed), and only
    /// then is the store asked to delete the volume — so the request the
    /// store logs is never for a volume still registered as a LUN — and
    /// only on a successful delete does the drive leave the collection.
    /// Without one, the delete request goes straight to the store.
    pub open spec fn delete_post(
        a: PIso,
        b: PIso,
        name: Seq<char>,
        out: Outcomes,
        r: Result<Seq<Action>, PisoError>,
    ) -> bool {
        &&& Self::panels_unchanged(a, b)
        &&& if a.has_drive(name) {
            let i = a.drive_index(name);
            let d = a.drives@[i];
            &&& (d.is_internal() && !out.unmount_ok ==> r == Err::<Seq<Action>, PisoError>(
                PisoError::UnmountFailed,
            ) && Self::core_unchanged(a, b))
            &&& (d.is_external() && !out.lun_ok ==> r == Err::<Seq<Action>, PisoError>(
                PisoError::GadgetRejected,
            ) && Self::core_unchanged(a, b))
            &&& (Self::teardown_proceeds(d, out) ==> {
                &&& (d.is_external() ==> b.gadget.luns@ == a.gadget.luns@.remove(
                    a.gadget.lun_index(d.lun_id_of()),
                ) && b.gadget.next_id == a.gadget.next_id)
                &&& (!d.is_external() ==> b.gadget == a.gadget)
                &&& b.store.requests@ == a.store.requests@.push(
                    DeleteRequest { name: name, was_exposed: false },
                )
                &&& (!out.store_ok ==> r == Err::<Seq<Action>, PisoError>(PisoError::StoreFailed)
                    && b.store.vols == a.store.vols && b.drives@.len() == a.drives@.len() && (
                forall|j: int|
                    0 <= j < a.drives@.len() && j != i ==> b.drives@[j] == a.drives@[j])
                    && b.drives@[i].is_unmounted() && b.drives@[i].volume == d.volume)
                &&& (out.store_ok ==> (r matches Ok(acts) && b.drives@ == a.drives@.remove(i)
                    && b.store.vols@ == a.store.vols@.remove(a.store.index_of(name)) && (if a.has_wifi
                    && d.is_internal() {
                    share_actions_ok(acts, d.mount_paths_of(), true)
                } else {
                    acts.len() == 0
                })))
            })
        } else {
            &&& b.drives@ == a.drives@
            &&& b.gadget == a.gadget
            &&& b.store.requests@ == a.store.requests@.push(
                DeleteRequest { name: name, was_exposed: false },
            )
            &&& (!a.store.contains_name(name) ==> r == Err::<Seq<Action>, PisoError>(
                PisoError::VolumeNotFound,
            ) && b.store.vols == a.store.vols)
            &&& (a.store.contains_name(name) && !out.store_ok ==> r == Err::<Seq<Action>,
                PisoError,
            >(PisoError::StoreFailed) && b.store.vols == a.store.vols)
            &&& (a.store.contains_name(name) && out.store_ok ==> (r matches Ok(acts)
                && acts.len() == 0 && b.store.vols@ == a.store.vols@.remove(
                a.store.index_of(name),
            )))
        }
    }

    /// Creates a drive over the already-produced volume of a
    /// `CreateDrive` action and emits its share actions.
    fn handle_create(&mut self, v: &Volume, mount_ok: bool) -> (r: Result<Vec<Action>, PisoError>)
        requires
            old(self).wf(),
        ensures
            final(self).wf(),
            Self::create_post(
                *old(self),
                *final(self),
                *v,
                mount_ok,
                match r {
                    Ok(acts) => Ok::<Seq<Action>, PisoError>(acts@),
                    Err(e) => Err::<Seq<Action>, PisoError>(e),
                },
            ),
    {
        if self.store.find(&v.name).is_none() {
            return Err(PisoError::VolumeNotFound);
        }
        if self.find_drive(&v.name).is_some() {
            return Err(PisoError::VolumeExists);
        }
        let idx = match self.add_drive(v.duplicate(), mount_ok) {
            Ok(idx) => idx,
            Err(e) => {
                return Err(e);
            },
        };
        proof {
            assert(idx as int == self.drives@.len() - 1);
            assert(self.drives@[idx as int] == self.drives@.last());
            assert(self.drives@.last().wf() && self.drives@.last().is_internal());
            assert(self.drives@.last().mount_paths_of() == mount_paths_spec(
                v.name@,
                v.n_parts as nat,
            ));
        }
        let acts = match Self::share_drive(&self.drives[idx], false, self.has_wifi) {
            Ok(acts) => acts,
            Err(e) => {
                proof {
                    assert(false);
                }
                return Err(e);
            },
        };
        Ok(acts)
    }

    /// Snapshots the named volume through the store and creates a drive
    /// over the snapshot, as `CreateDrive` would.
    fn handle_snapshot(&mut self, name: &String, out: Outcomes) -> (r: Result<
        Vec<Action>,
        PisoError,
    >)
        requires
            old(self).wf(),
        ensures
            final(self).wf(),
            Self::snapshot_post(
                *old(self),
                *final(self),
                name@,
                out,
                match r {
                    Ok(acts) => Ok::<Seq<Action>, PisoError>(acts@),
                    Err(e) => Err::<Seq<Action>, PisoError>(e),
                },
            ),
    {
        let ghost a = *old(self);
        let v = match self.store.snapshot(name, out.store_ok) {
            Ok(v) => v,
            Err(e) => {
                return Err(e);
            },
        };
        proof {
            assert(self.store.vols@.drop_last() == a.store.vols@);
            Self::lemma_wf_store_grown(a, *self);
            assert(self.wf());
            if self.has_drive(v.name@) {
                let j = self.drive_index(v.name@);
                assert(a.store.contains_name(a.drives@[j].name_s()));
                assert(false);
            }
        }
        let ghost vname = v.name@;
        let ghost vparts = v.n_parts as nat;
        let idx = match self.add_drive(v, out.mount_ok) {
            Ok(idx) => idx,
            Err(e) => {
                return Err(e);
            },
        };
        proof {
            assert(idx as int == self.drives@.len() - 1);
            assert(self.drives@[idx as int] == self.drives@.last());
            assert(self.drives@.last().wf() && self.drives@.last().is_internal());
            assert(self.drives@.last().mount_paths_of() == mount_paths_spec(vname, vparts));
        }
        let acts = match Self::share_drive(&self.drives[idx], false, self.has_wifi) {
            Ok(acts) => acts,
            Err(e) => {
                proof {
                    assert(false);
                }
                return Err(e);
            },
        };
        Ok(acts)
    }

    /// Forces drive `i` to `Unmounted`: unmounts it if `Internal`,
    /// removes its LUN if `External`. Any failure leaves drive and
    /// gadget exactly as they were.
    #[verifier::rlimit(100)]
    fn teardown_drive(&mut self, i: usize, out: Outcomes) -> (r: Result<(), PisoError>)
        requires
            old(self).wf(),
            i < old(self).drives@.len(),
        ensures
            final(self).wf(),
            final(self).store == old(self).store,
            Self::panels_unchanged(*old(self), *final(self)),
            final(self).drives@.len() == old(self).drives@.len(),
            forall|j: int|
                0 <= j < old(self).drives@.len() && j != i ==> final(self).drives@[j]
                    == old(self).drives@[j],
            final(self).drives@[i as int].volume == old(self).drives@[i as int].volume,
            ({
                let d0 = old(self).drives@[i as int];
                let d1 = final(self).drives@[i as int];
                &&& (d0.is_internal() && !out.unmount_ok ==> r == Err::<(), PisoError>(
                    PisoError::UnmountFailed,
                ) && d1 == d0 && final(self).gadget == old(self).gadget)
                &&& (d0.is_external() && !out.lun_ok ==> r == Err::<(), PisoError>(
                    PisoError::GadgetRejected,
                ) && d1 == d0 && final(self).gadget == old(self).gadget)
                &&& (Self::teardown_proceeds(d0, out) ==> {
                    &&& r == Ok::<(), PisoError>(())
                    &&& d1.is_unmounted()
                    &&& (d0.is_external() ==> final(self).gadget.luns@
                        == old(self).gadget.luns@.remove(
                        old(self).gadget.lun_index(d0.lun_id_of()),
                    ) && final(self).gadget.next_id == old(self).gadget.next_id)
                    &&& (!d0.is_external() ==> final(self).gadget == old(self).gadget)
                })
            }),
    {
        let ghost a = *old(self);
        proof {
            if a.drives@[i as int].is_external() {
                let k = choose|k: int|
                    0 <= k < a.gadget.luns@.len() && (#[trigger] a.gadget.luns@[k]).id
                        == a.drives@[i as int].lun_id_of() && a.gadget.luns@[k].device@
                        == a.drives@[i as int].name_s();
                assert(a.gadget.has_lun(a.drives@[i as int].lun_id_of()));
            }
        }
        let mut d = self.drives.remove(i);
        let r = d.unmount(&mut self.gadget, out.unmount_ok, out.lun_ok);
        self.drives.insert(i, d);
        proof {
            a.drives@.remove_ensures(i as int);
            a.drives@.remove(i as int).insert_ensures(i as int, d);
            assert(self.drives@.len() == a.drives@.len());
            assert forall|j: int|
                0 <= j < a.drives@.len() && j != i implies self.drives@[j] == a.drives@[j] by {
                if j < i {
                    assert(self.drives@[j] == a.drives@.remove(i as int)[j]);
                } else {
                    assert(self.drives@[j] == a.drives@.remove(i as int)[j - 1]);
                }
            }
            assert(self.drives@[i as int] == d);
            let b = *self;
            let d0 = a.drives@[i as int];
            if d0.is_unmounted() {
                assert(d == d0);
                Self::lemma_wf_update_drive_same_gadget_keep(a, b, i as int);
            } else if d0.is_internal() {
                if out.unmount_ok {
                    Self::lemma_wf_update_drive_same_gadget(a, b, i as int);
                } else {
                    assert(d == d0);
                    Self::lemma_wf_update_drive_same_gadget_keep(a, b, i as int);
                }
            } else {
                if out.lun_ok {
                    Self::lemma_wf_unexpose(a, b, i as int);
                } else {
                    assert(d == d0);
                    Self::lemma_wf_update_drive_same_gadget_keep(a, b, i as int);
                }
            }
        }
        r
    }

    /// Tears the named drive down, asks the store to delete its volume,
    /// and removes it from the collection only once the delete has
    /// succeeded.
    #[verifier::rlimit(100)]
    fn handle_delete(&mut self, name: &String, out: Outcomes) -> (r: Result<Vec<Action>, PisoError>)
        requires
            old(self).wf(),
        ensures
            final(self).wf(),
            Self::delete_post(
                *old(self),
                *final(self),
                name@,
                out,
                match r {
                    Ok(acts) => Ok::<Seq<Action>, PisoError>(acts@),
                    Err(e) => Err::<Seq<Action>, PisoError>(e),
                },
            ),
    {
        let ghost a = *old(self);
        match self.find_drive(name) {
            Some(i) => {
                proof {
                    let ii = a.drive_index(name@);
                    assert(a.has_drive(name@));
                    assert(0 <= ii < a.drives@.len() && a.drives@[ii].name_s() == name@);
                    if ii != i as int {
                        assert(a.drives@[ii].name_s() != a.drives@[i as int].name_s());
                        assert(false);
                    }
                }
                let acts = match Self::share_drive(&self.drives[i], true, self.has_wifi) {
                    Ok(acts) => acts,
                    Err(e) => {
                        proof {
                            assert(false);
                        }
                        return Err(e);
                    },
                };
                let ru = self.teardown_drive(i, out);
                if let Err(e) = ru {
                    proof {
                        assert(self.drives@ =~= a.drives@);
                    }
                    return Err(e);
                }
                proof {
                    let b1 = *self;
                    assert(b1.wf());
                    assert forall|j: int|
                        0 <= j < b1.drives@.len() && (#[trigger] b1.drives@[j]).name_s() == name@
                            implies !b1.drives@[j].is_external() by {
                        if j != i {
                            assert(b1.drives@[j] == a.drives@[j]);
                            assert(a.drives@[j].name_s() == a.drives@[i as int].name_s());
                            assert(false);
                        }
                    }
                    b1.lemma_device_not_exposed(name@);
                }
                let ghost m = *self;
                let rd = self.store.delete(name, &self.gadget, false, out.store_ok);
                proof {
                    assert(m.store.contains_name(name@)) by {
                        assert(a.store.contains_name(a.drives@[i as int].name_s()));
                    }
                    assert(self.store.requests@ == m.store.requests@.push(
                        DeleteRequest { name: name@, was_exposed: false },
                    ));
                }
                match rd {
                    Err(e) => {
                        proof {
                            Self::lemma_wf_same_shape(m, *self);
                        }
                        return Err(e);
                    },
                    Ok(()) => {
                        self.drives.remove(i);
                        proof {
                            Self::lemma_wf_delete(m, *self, i as int, name@);
                            m.drives@.remove_ensures(i as int);
                            a.drives@.remove_ensures(i as int);
                            assert(self.drives@ =~= a.drives@.remove(i as int));
                        }
                        Ok(acts)
                    },
                }
            },
            None => {
                proof {
                    assert forall|j: int|
                        0 <= j < self.drives@.len() && (#[trigger] self.drives@[j]).name_s()
                            == name@ implies !self.drives@[j].is_external() by {
                        assert(a.has_drive(name@));
                        assert(false);
                    }
                    self.lemma_device_not_exposed(name@);
                }
                let ghost m = *self;
                let rd = self.store.delete(name, &self.gadget, false, out.store_ok);
                match rd {
                    Err(e) => {
                        proof {
                            Self::lemma_wf_same_shape(m, *self);
                        }
                        Err(e)
                    },
                    Ok(()) => {
                        proof {
                            assert forall|j: int|
                                0 <= j < m.drives@.len() implies (#[trigger] m.drives@[
                            j]).name_s() != name@ by {
                                if m.drives@[j].name_s() == name@ {
                                    assert(a.has_drive(name@));
                                }
                            }
                            Self::lemma_wf_store_shrunk(m, *self, name@);
                        }
                        Ok(Vec::new())
                    },
                }
            },
        }
    }

    /// What handling `SmbSharePartition` establishes: with the wireless
    /// capability the partition name joins the shared set; without it
    /// the action degrades to a no-op.
    pub open spec fn share_panel_post(a: PIso, b: PIso, nm: Seq<char>) -> bool {
        &&& Self::core_unchanged(a, b)
        &&& b.flipped == a.flipped
        &&& if a.has_wifi {
            &&& b.shares@.len() == a.shares@.len() + 1
            &&& b.shares@.drop_last() == a.shares@
            &&& b.shares@.last()@ == nm
        } else {
            b.shares == a.shares
        }
    }

    /// What handling `SmbRemoveShare` establishes: with the wireless
    /// capability every share of the partition name leaves the shared
    /// set; without it the action degrades to a no-op.
    pub open spec fn unshare_panel_post(a: PIso, b: PIso, nm: Seq<char>) -> bool {
        &&& Self::core_unchanged(a, b)
        &&& b.flipped == a.flipped
        &&& if a.has_wifi {
            b.shares@ == remove_all(a.shares@, nm)
        } else {
            b.shares == a.shares
        }
    }

    /// Adds a network share for the named partition to the panel state.
    fn handle_smb_share(&mut self, nm: &String)
        requires
            old(self).wf(),
        ensures
            final(self).wf(),
            final(self).has_wifi == old(self).has_wifi,
            final(self).sort_drives == old(self).sort_drives,
            Self::share_panel_post(*old(self), *final(self), nm@),
    {
        if self.has_wifi {
            self.shares.push(nm.clone());
            proof {
                assert(self.shares@.drop_last() =~= old(self).shares@);
            }
        }
        proof {
            Self::lemma_wf_same_shape(*old(self), *self);
        }
    }

    /// Removes every network share of the named partition from the
    /// panel state.
    fn handle_smb_unshare(&mut self, nm: &String)
        requires
            old(self).wf(),
        ensures
            final(self).wf(),
            final(self).has_wifi == old(self).has_wifi,
            final(self).sort_drives == old(self).sort_drives,
            Self::unshare_panel_post(*old(self), *final(self), nm@),
    {
        if !self.has_wifi {
            return ;
        }
        let ghost pre = self.shares@;
        let mut kept: Vec<String> = Vec::new();
        let mut i: usize = 0;
        while i < self.shares.len()
            invariant
                i <= self.shares@.len(),
                self.shares@ == pre,
                kept@ == remove_all(pre.subrange(0, i as int), nm@),
            decreases self.shares@.len() - i,
        {
            proof {
                assert(pre.subrange(0, i + 1 as int).drop_last() =~= pre.subrange(0, i as int));
                assert(pre.subrange(0, i + 1 as int).last() == pre[i as int]);
            }
            if !(self.shares[i] == *nm) {
                let s = self.shares[i].clone();
                kept.push(s);
            }
            i = i + 1;
        }
        proof {
            assert(pre.subrange(0, pre.len() as int) =~= pre);
        }
        self.shares = kept;
        proof {
            Self::lemma_wf_same_shape(*old(self), *self);
        }
    }

    /// What handling one action establishes, by variant: exactly the
    /// new state and the emitted follow-up actions on success, and
    /// exactly the error and the state it leaves on failure. Toggling
    /// the display and the share-panel actions always succeed; the
    /// drive actions succeed or fail precisely as their inputs and the
    /// external outcomes dictate.
    pub open spec fn action_post(
        a: PIso,
        b: PIso,
        action: Action,
        out: Outcomes,
        r: Result<Seq<Action>, PisoError>,
    ) -> bool {
        match action {
            Action::FlipDisplay => Self::core_unchanged(a, b) && b.shares == a.shares && b.flipped
                == !a.flipped && r == Ok::<Seq<Action>, PisoError>(Seq::<Action>::empty()),
            Action::CreateDrive(v) => Self::create_post(a, b, v, out.mount_ok, r),
            Action::SnapshotDrive(nm) => Self::snapshot_post(a, b, nm@, out, r),
            Action::DeleteDrive(nm) => Self::delete_post(a, b, nm@, out, r),
            Action::SmbSharePartition(nm) => Self::share_panel_post(a, b, nm@) && (r matches
                Ok(acts) && acts.len() == 0),
            Action::SmbRemoveShare(nm) => Self::unshare_panel_post(a, b, nm@) && (r matches
                Ok(acts) && acts.len() == 0),
        }
    }

    /// Applies one action's side effect against the drives, the store,
    /// the gadget and the panels, and emits the follow-up actions —
    /// exactly the network-share actions of the drive concerned, and
    /// none for the actions whose handling emits nothing.
    pub fn do_action(&mut self, action: &Action, out: Outcomes) -> (r: Result<Handled, PisoError>)
        requires
            old(self).wf(),
        ensures
            final(self).wf(),
            final(self).has_wifi == old(self).has_wifi,
            final(self).sort_drives == old(self).sort_drives,
            // the store never receives a delete request for a volume
            // still registered as a LUN
            old(self).store.never_deleted_exposed() ==> final(self).store.never_deleted_exposed(),
            (r matches Ok(p) ==> p.0),
            (r matches Ok(p) ==> forall|i: int|
                0 <= i < p.1@.len() ==> (#[trigger] p.1@[i]).is_share()),
            (action.rank() == 0 ==> (r matches Ok(p) ==> p.1@.len() == 0)),
            Self::action_post(
                *old(self),
                *final(self),
                *action,
                out,
                match r {
                    Ok(p) => Ok::<Seq<Action>, PisoError>(p.1@),
                    Err(e) => Err::<Seq<Action>, PisoError>(e),
                },
            ),
    {
        let ghost a = *old(self);
        match action {
            Action::FlipDisplay => {
                self.flipped = !self.flipped;
                proof {
                    Self::lemma_wf_same_shape(a, *self);
                }
                Ok((true, Vec::new()))
            },
            Action::CreateDrive(v) => {
                match self.handle_create(v, out.mount_ok) {
                    Ok(acts) => {
                        proof {
                            Self::lemma_acts_are_shares(a, *self, v.name@, acts@);
                        }
                        Ok((true, acts))
                    },
                    Err(e) => Err(e),
                }
            },
            Action::SnapshotDrive(nm) => {
                match self.handle_snapshot(nm, out) {
                    Ok(acts) => {
                        proof {
                            Self::lemma_acts_are_shares(a, *self, snap_name_spec(nm@), acts@);
                        }
                        Ok((true, acts))
                    },
                    Err(e) => Err(e),
                }
            },
            Action::DeleteDrive(nm) => {
                match self.handle_delete(nm, out) {
                    Ok(acts) => {
                        proof {
                            if a.has_drive(nm@) {
                                let i = a.drive_index(nm@);
                                let d = a.drives@[i];
                                if a.has_wifi && d.is_internal() {
                                    assert(share_actions_ok(acts@, d.mount_paths_of(), true));
                                    assert forall|j: int| 0 <= j < acts@.len() implies (
                                    #[trigger] acts@[j]).is_share() by {
                                        assert(share_action_at(
                                            acts@[j],
                                            d.mount_paths_of()[j],
                                            true,
                                        ));
                                    }
                                }
                            }
                        }
                        Ok((true, acts))
                    },
                    Err(e) => Err(e),
                }
            },
            Action::SmbSharePartition(nm) => {
                self.handle_smb_share(nm);
                Ok((true, Vec::new()))
            },
            Action::SmbRemoveShare(nm) => {
                self.handle_smb_unshare(nm);
                Ok((true, Vec::new()))
            },
        }
    }

    /// The follow-up actions a create or snapshot emits are share
    /// actions, one per mount path.
    proof fn lemma_acts_are_shares(a: PIso, b: PIso, nm: Seq<char>, acts: Seq<Action>)
        requires
            a.has_wifi ==> share_actions_ok(
                acts,
                mount_paths_spec(nm, b.drives@.last().volume.n_parts as nat),
                false,
            ),
            !a.has_wifi ==> acts.len() == 0,
        ensures
            forall|i: int| 0 <= i < acts.len() ==> (#[trigger] acts[i]).is_share(),
    {
        if a.has_wifi {
            assert forall|i: int| 0 <= i < acts.len() implies (#[trigger] acts[i]).is_share() by {
                assert(share_action_at(
                    acts[i],
                    mount_paths_spec(nm, b.drives@.last().volume.n_parts as nat)[i],
                    false,
                ));
            }
        }
    }

    /// Translates a raw input event for the root widget. The root
    /// recognizes no event itself — navigation and selection live with
    /// the focused child widgets — so propagation always continues.
    pub fn on_event(&mut self, event: &Event) -> (r: Result<Handled, PisoError>)
        ensures
            *final(self) == *old(self),
            r matches Ok(p) && p.0 == false && p.1@.len() == 0,
    {
        match event {
            _ => Ok((false, Vec::new())),
        }
    }
}

} // verus!
