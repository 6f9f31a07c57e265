use piso::action::{Action, Event, Outcomes, PisoError};
use piso::gadget::Gadget;
use piso::piso::PIso;
use piso::strutil;
use piso::vdrive::{MountState, VirtualDrive};
use piso::volume::{Volume, VolumeStore};
use piso::dispatch::WidgetId;

fn vol(name: &str, n_parts: usize) -> Volume {
    Volume { name: name.to_string(), n_parts }
}

fn mount_paths(p: &PIso, idx: usize) -> Vec<String> {
    match &p.drives[idx].state {
        MountState::Internal(info) => info.part_mount_paths.clone(),
        _ => panic!("drive is not Internal"),
    }
}

#[test]
fn decimal_rendering() {
    assert_eq!(strutil::u64_to_dec(0), "0");
    assert_eq!(strutil::u64_to_dec(7), "7");
    assert_eq!(strutil::u64_to_dec(105), "105");
    assert_eq!(strutil::part_name(12), "part12");
}

#[test]
fn mount_path_derivation() {
    let paths = strutil::derive_mount_paths("backup", 2);
    assert_eq!(paths, vec!["/mnt/backup/part1".to_string(), "/mnt/backup/part2".to_string()]);
    assert_eq!(strutil::derive_mount_paths("x", 0).len(), 0);
}

#[test]
fn file_name_extraction() {
    assert_eq!(strutil::file_name("/mnt/backup/part1"), "part1");
    assert_eq!(strutil::file_name("plain"), "plain");
    assert_eq!(strutil::file_name("a/b/"), "");
}

#[test]
fn lexicographic_compare() {
    assert!(strutil::str_lex_le("alpha", "beta"));
    assert!(!strutil::str_lex_le("beta", "alpha"));
    assert!(strutil::str_lex_le("abc", "abc"));
    assert!(strutil::str_lex_le("ab", "abc"));
}

#[test]
fn startup_drives_begin_internal() {
    let p = PIso::new(vec![vol("backup", 1)], false, false);
    assert_eq!(p.drives.len(), 1);
    assert_eq!(p.drives[0].name().as_str(), "backup");
    assert_eq!(mount_paths(&p, 0), vec!["/mnt/backup/part1".to_string()]);
    assert!(p.gadget.luns.is_empty());
}

#[test]
fn create_drive_emits_share_action() {
    let mut p = PIso::new(vec![], true, false);
    let v = p.store.create("backup".to_string(), 1, true).unwrap();
    let (handled, acts) = p.do_action(&Action::CreateDrive(v), Outcomes::all_ok()).unwrap();
    assert!(handled);
    assert_eq!(acts, vec![Action::SmbSharePartition("part1".to_string())]);
    assert_eq!(p.drives.len(), 1);
    assert_eq!(p.drives[0].name().as_str(), "backup");
    assert_eq!(mount_paths(&p, 0), vec!["/mnt/backup/part1".to_string()]);
}

#[test]
fn create_drive_without_wifi_emits_nothing() {
    let mut p = PIso::new(vec![], false, false);
    let v = p.store.create("backup".to_string(), 1, true).unwrap();
    let (handled, acts) = p.do_action(&Action::CreateDrive(v), Outcomes::all_ok()).unwrap();
    assert!(handled);
    assert!(acts.is_empty());
}

#[test]
fn create_drive_mount_failure_adds_nothing() {
    let mut p = PIso::new(vec![], true, false);
    let v = p.store.create("backup".to_string(), 1, true).unwrap();
    let out = Outcomes { mount_ok: false, ..Outcomes::all_ok() };
    assert_eq!(p.do_action(&Action::CreateDrive(v), out), Err(PisoError::MountFailed));
    assert!(p.drives.is_empty());
    assert_eq!(p.store.vols.len(), 1);
}

#[test]
fn expose_unmount_failure_keeps_internal_and_no_lun() {
    let mut p = PIso::new(vec![vol("backup", 1)], false, false);
    let before = mount_paths(&p, 0);
    let out = Outcomes { unmount_ok: false, ..Outcomes::all_ok() };
    assert_eq!(p.expose_drive(0, out), Err(PisoError::UnmountFailed));
    assert_eq!(mount_paths(&p, 0), before);
    assert!(p.gadget.luns.is_empty());
}

#[test]
fn expose_rejected_reconfiguration_leaves_no_orphan() {
    let mut p = PIso::new(vec![vol("backup", 1)], false, false);
    let out = Outcomes { lun_ok: false, ..Outcomes::all_ok() };
    assert_eq!(p.expose_drive(0, out), Err(PisoError::GadgetRejected));
    assert!(p.gadget.luns.is_empty());
    assert!(matches!(p.drives[0].state, MountState::Unmounted));
}

#[test]
fn double_expose_is_rejected() {
    let mut p = PIso::new(vec![vol("backup", 1)], false, false);
    assert_eq!(p.expose_drive(0, Outcomes::all_ok()), Ok(()));
    assert!(matches!(p.drives[0].state, MountState::External(_)));
    assert_eq!(p.gadget.luns.len(), 1);
    assert_eq!(p.expose_drive(0, Outcomes::all_ok()), Err(PisoError::InvalidState));
    assert!(matches!(p.drives[0].state, MountState::External(_)));
    assert_eq!(p.gadget.luns.len(), 1);
}

#[test]
fn expose_unexpose_roundtrip_restores_paths() {
    let mut p = PIso::new(vec![vol("backup", 2)], false, false);
    let before = mount_paths(&p, 0);
    assert_eq!(p.expose_drive(0, Outcomes::all_ok()), Ok(()));
    assert_eq!(p.unexpose_drive(0, Outcomes::all_ok()), Ok(()));
    assert_eq!(mount_paths(&p, 0), before);
    assert!(p.gadget.luns.is_empty());
}

#[test]
fn delete_external_drive_removes_lun_before_store_delete() {
    let mut p = PIso::new(vec![vol("backup", 1)], true, false);
    assert_eq!(p.expose_drive(0, Outcomes::all_ok()), Ok(()));
    let (handled, acts) =
        p.do_action(&Action::DeleteDrive("backup".to_string()), Outcomes::all_ok()).unwrap();
    assert!(handled);
    assert!(acts.is_empty(), "an External drive has no shares to remove");
    assert!(p.drives.is_empty());
    assert!(p.gadget.luns.is_empty());
    assert!(p.store.vols.is_empty());
}

#[test]
fn delete_internal_drive_emits_unshare_actions() {
    let mut p = PIso::new(vec![vol("backup", 1)], true, false);
    let (handled, acts) =
        p.do_action(&Action::DeleteDrive("backup".to_string()), Outcomes::all_ok()).unwrap();
    assert!(handled);
    assert_eq!(acts, vec![Action::SmbRemoveShare("part1".to_string())]);
    assert!(p.drives.is_empty());
    assert!(p.store.vols.is_empty());
}

#[test]
fn delete_unmount_failure_keeps_everything() {
    let mut p = PIso::new(vec![vol("backup", 1)], false, false);
    let out = Outcomes { unmount_ok: false, ..Outcomes::all_ok() };
    assert_eq!(
        p.do_action(&Action::DeleteDrive("backup".to_string()), out),
        Err(PisoError::UnmountFailed)
    );
    assert_eq!(p.drives.len(), 1);
    assert!(matches!(p.drives[0].state, MountState::Internal(_)));
    assert_eq!(p.store.vols.len(), 1);
}

#[test]
fn delete_store_failure_keeps_drive_in_collection() {
    let mut p = PIso::new(vec![vol("backup", 1)], false, false);
    let out = Outcomes { store_ok: false, ..Outcomes::all_ok() };
    assert_eq!(
        p.do_action(&Action::DeleteDrive("backup".to_string()), out),
        Err(PisoError::StoreFailed)
    );
    assert_eq!(p.drives.len(), 1, "the drive leaves the collection only after the store delete");
    assert!(matches!(p.drives[0].state, MountState::Unmounted));
    assert_eq!(p.store.vols.len(), 1);
}

#[test]
fn delete_unknown_drive_reports_not_found() {
    let mut p = PIso::new(vec![], false, false);
    assert_eq!(
        p.do_action(&Action::DeleteDrive("missing".to_string()), Outcomes::all_ok()),
        Err(PisoError::VolumeNotFound)
    );
}

#[test]
fn snapshot_creates_suffixed_drive() {
    let mut p = PIso::new(vec![vol("data", 2)], false, false);
    let (handled, acts) =
        p.do_action(&Action::SnapshotDrive("data".to_string()), Outcomes::all_ok()).unwrap();
    assert!(handled);
    assert!(acts.is_empty());
    assert_eq!(p.drives.len(), 2);
    assert_eq!(p.drives[1].name().as_str(), "data-snap");
    assert_eq!(
        mount_paths(&p, 1),
        vec!["/mnt/data-snap/part1".to_string(), "/mnt/data-snap/part2".to_string()]
    );
    assert_eq!(p.store.vols.len(), 2);
    assert_eq!(
        p.do_action(&Action::SnapshotDrive("data".to_string()), Outcomes::all_ok()),
        Err(PisoError::VolumeExists)
    );
}

#[test]
fn snapshot_of_missing_volume_fails() {
    let mut p = PIso::new(vec![], false, false);
    assert_eq!(
        p.do_action(&Action::SnapshotDrive("ghostly".to_string()), Outcomes::all_ok()),
        Err(PisoError::VolumeNotFound)
    );
}

#[test]
fn flip_display_toggles() {
    let mut p = PIso::new(vec![], false, false);
    assert!(!p.flipped);
    let (handled, acts) = p.do_action(&Action::FlipDisplay, Outcomes::all_ok()).unwrap();
    assert!(handled && acts.is_empty());
    assert!(p.flipped);
    p.do_action(&Action::FlipDisplay, Outcomes::all_ok()).unwrap();
    assert!(!p.flipped);
}

#[test]
fn share_actions_require_wifi_and_local_mount() {
    let d = VirtualDrive::new(vol("backup", 1));
    assert_eq!(PIso::share_drive(&d, false, false), Ok(vec![]));
    assert_eq!(PIso::share_drive(&d, false, true), Err(PisoError::NotMountedInternal));
    assert_eq!(PIso::share_drive(&d, true, true), Ok(vec![]));
}

#[test]
fn smb_actions_degrade_without_wifi() {
    let mut p = PIso::new(vec![], false, false);
    let (handled, acts) =
        p.do_action(&Action::SmbSharePartition("part1".to_string()), Outcomes::all_ok()).unwrap();
    assert!(handled && acts.is_empty());
    assert!(p.shares.is_empty());
}

#[test]
fn smb_share_and_remove_update_panel() {
    let mut p = PIso::new(vec![], true, false);
    p.do_action(&Action::SmbSharePartition("part1".to_string()), Outcomes::all_ok()).unwrap();
    p.do_action(&Action::SmbSharePartition("part2".to_string()), Outcomes::all_ok()).unwrap();
    assert_eq!(p.shares, vec!["part1".to_string(), "part2".to_string()]);
    p.do_action(&Action::SmbRemoveShare("part1".to_string()), Outcomes::all_ok()).unwrap();
    assert_eq!(p.shares, vec!["part2".to_string()]);
}

#[test]
fn dispatch_is_lossless() {
    let mut p = PIso::new(vec![], true, false);
    let v = p.store.create("backup".to_string(), 1, true).unwrap();
    let initial = vec![Action::CreateDrive(v), Action::FlipDisplay];
    let (report, _) = p.dispatch(WidgetId::NewDriveControl, initial, Outcomes::all_ok());
    assert!(report.error.is_none());
    assert_eq!(
        report.handled_log,
        vec![
            Action::CreateDrive(vol("backup", 1)),
            Action::FlipDisplay,
            Action::SmbSharePartition("part1".to_string()),
        ],
        "the follow-up share action is processed after the event's own actions, before dispatch ends"
    );
    assert!(p.flipped);
    assert_eq!(p.shares, vec!["part1".to_string()]);
}

#[test]
fn dispatch_aborts_on_handler_failure() {
    let mut p = PIso::new(vec![], false, false);
    let initial = vec![Action::DeleteDrive("missing".to_string()), Action::FlipDisplay];
    let (report, _) = p.dispatch(WidgetId::Root, initial, Outcomes::all_ok());
    assert_eq!(report.error, Some(PisoError::VolumeNotFound));
    assert!(report.handled_log.is_empty());
    assert!(!p.flipped, "actions after the failing one are not applied");
}

#[test]
fn dispatch_delete_unshares_through_panel() {
    let mut p = PIso::new(vec![], true, false);
    let v = p.store.create("backup".to_string(), 1, true).unwrap();
    let (report, _) = p.dispatch(WidgetId::Root, vec![Action::CreateDrive(v)], Outcomes::all_ok());
    assert!(report.error.is_none());
    assert_eq!(p.shares, vec!["part1".to_string()]);
    let (report, _) = p.dispatch(
        WidgetId::Root,
        vec![Action::DeleteDrive("backup".to_string())],
        Outcomes::all_ok(),
    );
    assert!(report.error.is_none());
    assert!(p.shares.is_empty());
    assert!(p.drives.is_empty());
    assert!(p.store.vols.is_empty());
}

#[test]
fn children_follow_ordering_policy() {
    let p = PIso::new(vec![vol("zeta", 1), vol("alpha", 1)], false, false);
    assert_eq!(p.children(), vec![0, 1]);
    let q = PIso::new(vec![vol("zeta", 1), vol("alpha", 1)], false, true);
    assert_eq!(q.children(), vec![1, 0]);
}

#[test]
fn root_ignores_raw_events() {
    let mut p = PIso::new(vec![], false, false);
    for ev in [Event::Up, Event::Down, Event::Select, Event::Back] {
        let (handled, acts) = p.on_event(&ev).unwrap();
        assert!(!handled && acts.is_empty());
    }
}

#[test]
fn store_create_rejects_duplicates() {
    let mut store = VolumeStore::new(vec![vol("a", 1)]);
    let gadget = Gadget::new();
    assert_eq!(store.create("a".to_string(), 1, true), Err(PisoError::VolumeExists));
    assert_eq!(store.create("b".to_string(), 1, false), Err(PisoError::StoreFailed));
    assert!(store.create("b".to_string(), 1, true).is_ok());
    assert_eq!(store.delete(&"b".to_string(), &gadget, true, true), Err(PisoError::VolumeBusy));
    assert_eq!(store.delete(&"b".to_string(), &gadget, false, true), Ok(()));
    assert_eq!(store.delete(&"b".to_string(), &gadget, false, true), Err(PisoError::VolumeNotFound));
}
