use rmxt::store::{TrashEntry, TrashError, TrashStore};

fn entry(name: &str, location: &str, deleted_at: i64) -> TrashEntry {
    TrashEntry {
        name: name.to_string(),
        original_location: location.to_string(),
        deleted_at,
    }
}

#[test]
fn new_store_is_empty() {
    let store = TrashStore::new();
    assert_eq!(store.len(), 0);
    assert!(store.enumerate().is_empty());
}

#[test]
fn from_entries_keeps_first_of_each_name() {
    let store = TrashStore::from_entries(vec![
        entry("a.txt", "/x/a.txt", 1),
        entry("b.txt", "/x/b.txt", 2),
        entry("a.txt", "/y/a.txt", 3),
    ]);
    assert_eq!(store.len(), 2);
    let entries = store.enumerate();
    assert_eq!(entries[0].name, "a.txt");
    assert_eq!(entries[0].original_location, "/x/a.txt");
    assert_eq!(entries[1].name, "b.txt");
}

#[test]
fn insert_appends_entry() {
    let mut store = TrashStore::new();
    store.insert(entry("a.txt", "/tmp/a.txt", 10));
    store.insert(entry("b.txt", "/tmp/b.txt", 20));
    let entries = store.enumerate();
    assert_eq!(entries.len(), 2);
    assert_eq!(entries[0].name, "a.txt");
    assert_eq!(entries[1].name, "b.txt");
    assert_eq!(entries[1].deleted_at, 20);
}

#[test]
fn enumerate_is_idempotent() {
    let mut store = TrashStore::new();
    store.insert(entry("a.txt", "/tmp/a.txt", 10));
    store.insert(entry("b.txt", "/tmp/b.txt", 20));
    let first: Vec<String> = store.enumerate().iter().map(|e| e.name.clone()).collect();
    let second: Vec<String> = store.enumerate().iter().map(|e| e.name.clone()).collect();
    assert_eq!(first, second);
}

#[test]
fn lookup_and_contains() {
    let mut store = TrashStore::new();
    store.insert(entry("a.txt", "/tmp/a.txt", 10));
    assert_eq!(store.lookup(&"a.txt".to_string()), Some(0));
    assert_eq!(store.lookup(&"b.txt".to_string()), None);
    assert!(store.contains_name(&"a.txt".to_string()));
    assert!(!store.contains_name(&"b.txt".to_string()));
}

#[test]
fn remove_by_name_removes_only_that_entry() {
    let mut store = TrashStore::new();
    store.insert(entry("a.txt", "/tmp/a.txt", 10));
    store.insert(entry("b.txt", "/tmp/b.txt", 20));
    let removed = store.remove_by_name(&"a.txt".to_string()).unwrap();
    assert_eq!(removed.original_location, "/tmp/a.txt");
    assert_eq!(store.len(), 1);
    assert_eq!(store.enumerate()[0].name, "b.txt");
    assert!(store.remove_by_name(&"a.txt".to_string()).is_none());
}

#[test]
fn entries_within_and_expired_split_by_window() {
    let now: i64 = 100 * 86400;
    let mut store = TrashStore::new();
    store.insert(entry("old.txt", "/tmp/old.txt", now - 40 * 86400));
    store.insert(entry("new.txt", "/tmp/new.txt", now - 5 * 86400));
    let within = store.entries_within(now, 30);
    assert_eq!(within.len(), 1);
    assert_eq!(within[0].name, "new.txt");
    let expired = store.entries_expired(now, 30);
    assert_eq!(expired.len(), 1);
    assert_eq!(expired[0].name, "old.txt");
}

#[test]
fn tidy_purges_only_expired_entries() {
    let now: i64 = 100 * 86400;
    let mut store = TrashStore::new();
    store.insert(entry("old.txt", "/tmp/old.txt", now - 40 * 86400));
    store.insert(entry("new.txt", "/tmp/new.txt", now - 5 * 86400));
    let purged = store.tidy(now, 30);
    assert_eq!(purged.len(), 1);
    assert_eq!(purged[0].name, "old.txt");
    let entries = store.enumerate();
    assert_eq!(entries.len(), 1);
    assert_eq!(entries[0].name, "new.txt");
}

#[test]
fn tidy_at_boundary_purges_the_exact_cutoff_entry() {
    let now: i64 = 1_000_000_000;
    let mut store = TrashStore::new();
    store.insert(entry("at.txt", "/t/at.txt", now - 30 * 86400));
    store.insert(entry("just_in.txt", "/t/just_in.txt", now - 30 * 86400 + 1));
    let purged = store.tidy(now, 30);
    assert_eq!(purged.len(), 1);
    assert_eq!(purged[0].name, "at.txt");
    assert_eq!(store.enumerate()[0].name, "just_in.txt");
}

#[test]
fn restore_one_hands_back_the_entry() {
    let mut store = TrashStore::new();
    store.insert(entry("a.txt", "/tmp/a.txt", 10));
    let e = store.restore_one(&"a.txt".to_string(), false).unwrap();
    assert_eq!(e.original_location, "/tmp/a.txt");
    assert_eq!(store.len(), 0);
}

#[test]
fn restore_one_unknown_name_is_not_found() {
    let mut store = TrashStore::new();
    let r = store.restore_one(&"nope.txt".to_string(), false);
    assert_eq!(r.unwrap_err(), TrashError::NotFound);
}

#[test]
fn restore_one_existing_destination_is_a_conflict() {
    let mut store = TrashStore::new();
    store.insert(entry("a.txt", "/tmp/a.txt", 10));
    let r = store.restore_one(&"a.txt".to_string(), true);
    assert_eq!(r.unwrap_err(), TrashError::RestoreConflict);
    assert_eq!(store.len(), 1);
    assert_eq!(store.enumerate()[0].name, "a.txt");
}

#[test]
fn purge_one_removes_held_entry() {
    let mut store = TrashStore::new();
    store.insert(entry("a.txt", "/tmp/a.txt", 10));
    let e = store.purge_one(&"a.txt".to_string()).unwrap();
    assert_eq!(e.name, "a.txt");
    assert_eq!(store.len(), 0);
}

#[test]
fn purge_one_refuses_names_not_held() {
    let mut store = TrashStore::new();
    store.insert(entry("a.txt", "/tmp/a.txt", 10));
    let r = store.purge_one(&"b.txt".to_string());
    assert_eq!(r.unwrap_err(), TrashError::NotFound);
    assert_eq!(store.len(), 1);
}
