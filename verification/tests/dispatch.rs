use rmxt::dispatch::{
    build_rows, confirm_tidy, decide_remove, trash_insert, List, RemoveAction, TargetKind,
};
use rmxt::store::{TrashEntry, TrashError, TrashStore};

fn s(x: &str) -> String {
    x.to_string()
}

#[test]
fn missing_target_is_reported() {
    let a = decide_remove(TargetKind::Missing, false, false, false, false);
    assert_eq!(a, RemoveAction::ReportMissing);
    let b = decide_remove(TargetKind::Missing, true, true, true, true);
    assert_eq!(b, RemoveAction::ReportMissing);
}

#[test]
fn directory_without_recursive_is_reported_and_skipped() {
    let a = decide_remove(TargetKind::Directory, false, false, false, false);
    assert_eq!(a, RemoveAction::ReportIsDirectory);
}

#[test]
fn force_silences_the_report_but_still_skips() {
    let a = decide_remove(TargetKind::Directory, false, true, false, false);
    assert_eq!(a, RemoveAction::SkipSilently);
}

#[test]
fn directory_with_recursive_goes_to_trash() {
    let a = decide_remove(TargetKind::Directory, true, false, false, false);
    assert_eq!(a, RemoveAction::MoveToTrash);
}

#[test]
fn empty_dir_flag_removes_directory_directly() {
    let a = decide_remove(TargetKind::Directory, false, false, true, false);
    assert_eq!(a, RemoveAction::RemoveEmptyDir);
    let b = decide_remove(TargetKind::Directory, true, true, true, true);
    assert_eq!(b, RemoveAction::RemoveEmptyDir);
}

#[test]
fn permanent_flag_bypasses_the_trash() {
    let a = decide_remove(TargetKind::File, false, false, false, true);
    assert_eq!(a, RemoveAction::DeleteFile);
    let b = decide_remove(TargetKind::Directory, true, false, false, true);
    assert_eq!(b, RemoveAction::DeleteDirRecursive);
}

#[test]
fn plain_file_goes_to_trash() {
    let a = decide_remove(TargetKind::File, false, false, false, false);
    assert_eq!(a, RemoveAction::MoveToTrash);
    let b = decide_remove(TargetKind::File, false, false, true, false);
    assert_eq!(b, RemoveAction::MoveToTrash);
}

#[test]
fn remove_then_list_then_recover() {
    let mut store = TrashStore::new();
    let r = trash_insert(&mut store, &s("/tmp/a.txt"), 1000, &s("20240101_120000"));
    assert_eq!(r, Ok(s("a.txt")));
    let entries = store.enumerate();
    assert_eq!(entries.len(), 1);
    assert_eq!(entries[0].name, "a.txt");
    assert_eq!(entries[0].original_location, "/tmp/a.txt");
    assert_eq!(entries[0].deleted_at, 1000);
    let restored = store.restore_one(&s("a.txt"), false).unwrap();
    assert_eq!(restored.original_location, "/tmp/a.txt");
    assert_eq!(store.len(), 0);
}

#[test]
fn inserting_a_fresh_name_adds_exactly_one_entry() {
    let mut store = TrashStore::new();
    trash_insert(&mut store, &s("/x/one.txt"), 1, &s("ts")).unwrap();
    let before = store.len();
    trash_insert(&mut store, &s("/x/two.txt"), 2, &s("ts")).unwrap();
    assert_eq!(store.len(), before + 1);
    let matching: Vec<&TrashEntry> =
        store.enumerate().iter().filter(|e| e.name == "two.txt").collect();
    assert_eq!(matching.len(), 1);
    assert_eq!(matching[0].original_location, "/x/two.txt");
}

#[test]
fn conflicting_insert_does_not_overwrite() {
    let mut store = TrashStore::new();
    trash_insert(&mut store, &s("/a/note.txt"), 1, &s("20240101_120000")).unwrap();
    let r = trash_insert(&mut store, &s("/b/note.txt"), 2, &s("20240101_120000"));
    assert_eq!(r, Ok(s("note_20240101_120000.txt")));
    let entries = store.enumerate();
    assert_eq!(entries.len(), 2);
    assert_eq!(entries[0].name, "note.txt");
    assert_eq!(entries[0].original_location, "/a/note.txt");
    assert_eq!(entries[0].deleted_at, 1);
}

#[test]
fn two_same_named_files_are_both_recoverable() {
    let mut store = TrashStore::new();
    let first = trash_insert(&mut store, &s("/home/user/note.txt"), 100, &s("20240101_120000"))
        .unwrap();
    let second = trash_insert(&mut store, &s("/tmp/note.txt"), 200, &s("20240101_120000"))
        .unwrap();
    assert_eq!(first, "note.txt");
    assert_eq!(second, "note_20240101_120000.txt");
    assert_eq!(store.len(), 2);
    let e2 = store.restore_one(&second, false).unwrap();
    assert_eq!(e2.original_location, "/tmp/note.txt");
    let e1 = store.restore_one(&first, false).unwrap();
    assert_eq!(e1.original_location, "/home/user/note.txt");
    assert_eq!(store.len(), 0);
}

#[test]
fn directory_with_recursive_is_held_under_its_name() {
    let a = decide_remove(TargetKind::Directory, true, false, false, false);
    assert_eq!(a, RemoveAction::MoveToTrash);
    let mut store = TrashStore::new();
    let r = trash_insert(&mut store, &s("/tmp/dir"), 50, &s("ts"));
    assert_eq!(r, Ok(s("dir")));
    let entries = store.enumerate();
    assert_eq!(entries.len(), 1);
    assert_eq!(entries[0].name, "dir");
    assert_eq!(entries[0].original_location, "/tmp/dir");
}

#[test]
fn path_without_filename_is_refused() {
    let mut store = TrashStore::new();
    let r = trash_insert(&mut store, &s("/tmp/"), 1, &s("ts"));
    assert_eq!(r, Err(TrashError::InvalidName));
    assert_eq!(store.len(), 0);
}

#[test]
fn confirmation_accepts_yes_only() {
    assert!(confirm_tidy("yes"));
    assert!(confirm_tidy("YES"));
    assert!(confirm_tidy("  Yes\n"));
    assert!(confirm_tidy("\tyEs \r\n"));
    assert!(!confirm_tidy("no"));
    assert!(!confirm_tidy(""));
    assert!(!confirm_tidy("y"));
    assert!(!confirm_tidy("yess"));
    assert!(!confirm_tidy("y es"));
}

#[test]
fn list_row_keeps_its_fields() {
    let row = List::new(s("a.txt"), s("/tmp/a.txt"), s("2024-01-01 12:00:00"));
    assert_eq!(row.name, "a.txt");
    assert_eq!(row.original_location, "/tmp/a.txt");
    assert_eq!(row.deleted_at, "2024-01-01 12:00:00");
}

#[test]
fn build_rows_pairs_entries_with_times() {
    let entries = vec![
        TrashEntry { name: s("a"), original_location: s("/x/a"), deleted_at: 1 },
        TrashEntry { name: s("b"), original_location: s("/x/b"), deleted_at: 2 },
    ];
    let times = vec![s("t1"), s("t2")];
    let rows = build_rows(&entries, &times);
    assert_eq!(rows.len(), 2);
    assert_eq!(rows[0].name, "a");
    assert_eq!(rows[0].original_location, "/x/a");
    assert_eq!(rows[0].deleted_at, "t1");
    assert_eq!(rows[1].name, "b");
    assert_eq!(rows[1].deleted_at, "t2");
}
