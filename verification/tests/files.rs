use scriv::files::{list_contents, list_lines, normalize_entries, partition_missing, partition_remove};
use scriv::files::{migration_note, needs_migration};

fn owned(items: &[&str]) -> Vec<String> {
    items.iter().map(|s| s.to_string()).collect()
}

#[test]
fn normalize_sorts_alphabetically() {
    assert_eq!(
        normalize_entries(&owned(&["~/z/file.txt", "~/a/file.txt", "~/m/file.txt"])),
        owned(&["~/a/file.txt", "~/m/file.txt", "~/z/file.txt"])
    );
}

#[test]
fn normalize_removes_duplicates() {
    assert_eq!(
        normalize_entries(&owned(&["~/b.txt", "~/a.txt", "~/b.txt"])),
        owned(&["~/a.txt", "~/b.txt"])
    );
}

#[test]
fn normalize_trims_whitespace() {
    assert_eq!(
        normalize_entries(&owned(&[" ~/b.txt ", " ~/a.txt "])),
        owned(&["~/a.txt", "~/b.txt"])
    );
}

#[test]
fn normalize_drops_blank_lines() {
    assert_eq!(
        normalize_entries(&owned(&["~/a.txt", "   ", "", "~/b.txt"])),
        owned(&["~/a.txt", "~/b.txt"])
    );
}

#[test]
fn partition_splits_kept_and_removed() {
    let lines = owned(&["a", "b", "c", "d"]);
    let (kept, removed) = partition_remove(&lines, &owned(&["b", "d"]));
    assert_eq!(kept, owned(&["a", "c"]));
    assert_eq!(removed, owned(&["b", "d"]));
}

#[test]
fn partition_ignores_unmatched_targets() {
    let lines = owned(&["a", "b"]);
    let (kept, removed) = partition_remove(&lines, &owned(&["x"]));
    assert_eq!(kept, owned(&["a", "b"]));
    assert!(removed.is_empty());
}

#[test]
fn partition_missing_splits_on_what_is_still_there() {
    let lines = owned(&["a", "b", "c", "d"]);
    let (kept, missing) = partition_missing(&lines, |line: &str| line == "a" || line == "c");
    assert_eq!(kept, owned(&["a", "c"]));
    assert_eq!(missing, owned(&["b", "d"]));
}

#[test]
fn partition_missing_finds_nothing_when_every_file_is_there() {
    let lines = owned(&["a", "b"]);
    let (kept, missing) = partition_missing(&lines, |_: &str| true);
    assert_eq!(kept, lines);
    assert!(missing.is_empty());
}

#[test]
fn normalizing_twice_changes_nothing() {
    let once = normalize_entries(&owned(&[" c", "a", "b ", "a", ""]));
    assert_eq!(normalize_entries(&once), once);
}

#[test]
fn a_list_is_written_one_normalized_entry_per_line() {
    assert_eq!(
        list_contents(&owned(&["~/b.txt", "~/a.txt", "~/b.txt", "  "])),
        "~/a.txt\n~/b.txt\n"
    );
    assert_eq!(list_contents(&owned(&["  "])), "");
}

#[test]
fn written_text_reads_back_as_the_normalized_list() {
    let text = list_contents(&owned(&["~/b.txt", "~/a.txt", "~/b.txt", "  "]));
    assert_eq!(list_lines(&text), owned(&["~/a.txt", "~/b.txt"]));
    assert_eq!(list_lines("a\r\nb"), owned(&["a", "b"]));
    assert!(list_lines("").is_empty());
}

#[test]
fn a_removed_line_that_appears_twice_is_removed_twice() {
    let (kept, removed) = partition_remove(&owned(&["a", "b", "a"]), &owned(&["a"]));
    assert_eq!(kept, owned(&["b"]));
    assert_eq!(removed, owned(&["a", "a"]));
}

#[test]
fn the_kf_list_is_migrated_once_and_reported() {
    assert!(needs_migration(false, true));
    assert!(!needs_migration(true, true));
    assert!(!needs_migration(false, false));
    assert_eq!(migration_note(3, "/c/kf/config"), "migrated 3 entries from /c/kf/config");
}
