use rmxt::conflict::{contains_name, reserve};

fn strings(xs: &[&str]) -> Vec<String> {
    xs.iter().map(|s| s.to_string()).collect()
}

#[test]
fn free_name_is_kept() {
    let occupied = strings(&["other.txt"]);
    let r = reserve(&"note.txt".to_string(), &"20240101_120000".to_string(), &occupied);
    assert_eq!(r, "note.txt");
}

#[test]
fn taken_name_gets_timestamp_keeping_extension() {
    let occupied = strings(&["note.txt"]);
    let r = reserve(&"note.txt".to_string(), &"20240101_120000".to_string(), &occupied);
    assert_eq!(r, "note_20240101_120000.txt");
}

#[test]
fn timestamped_name_taken_too_gets_counter() {
    let occupied = strings(&["note.txt", "note_20240101_120000.txt"]);
    let r = reserve(&"note.txt".to_string(), &"20240101_120000".to_string(), &occupied);
    assert_eq!(r, "note_20240101_120000-1.txt");
}

#[test]
fn counters_count_up() {
    let occupied = strings(&[
        "note.txt",
        "note_20240101_120000.txt",
        "note_20240101_120000-1.txt",
        "note_20240101_120000-2.txt",
    ]);
    let r = reserve(&"note.txt".to_string(), &"20240101_120000".to_string(), &occupied);
    assert_eq!(r, "note_20240101_120000-3.txt");
}

#[test]
fn name_without_extension() {
    let occupied = strings(&["README"]);
    let r = reserve(&"README".to_string(), &"20240101_120000".to_string(), &occupied);
    assert_eq!(r, "README_20240101_120000");
}

#[test]
fn hidden_file_without_stem_split() {
    let occupied = strings(&[".bashrc"]);
    let r = reserve(&".bashrc".to_string(), &"20240101_120000".to_string(), &occupied);
    assert_eq!(r, ".bashrc_20240101_120000");
}

#[test]
fn result_never_collides_with_occupied() {
    let occupied = strings(&["a.txt", "a_x.txt", "a_x-1.txt", "a_x-2.txt"]);
    let r = reserve(&"a.txt".to_string(), &"x".to_string(), &occupied);
    assert!(!occupied.contains(&r));
    assert_eq!(r, "a_x-3.txt");
}

#[test]
fn contains_name_checks_contents() {
    let names = strings(&["a", "b"]);
    assert!(contains_name(&names, &"a".to_string()));
    assert!(!contains_name(&names, &"c".to_string()));
}
