use scriv::files::partition_remove;
use scriv::cmd::file::{listed, prune_question, status_row};
use scriv::cmd::history::{ls_row, no_commands, no_history};
use scriv::history::Entry;
use scriv::cmd::file::control_refusal;
use scriv::cmd::file::add_entry;

#[test]
fn an_entry_is_marked_by_whether_its_file_is_there() {
    assert_eq!(status_row("/a", true, false), "✓ /a");
    assert_eq!(status_row("/a", false, false), "✗ /a");
    assert_eq!(status_row("/a", true, true), "\x1b[32m✓ /a\x1b[0m");
    assert_eq!(status_row("/a", false, true), "\x1b[31m✗ /a\x1b[0m");
}

#[test]
fn a_filtered_listing_shows_only_its_side() {
    assert!(listed(true, false, false));
    assert!(!listed(true, true, false));
    assert!(listed(false, true, false));
    assert!(!listed(false, false, true));
    assert!(listed(true, false, true));
}

#[test]
fn prune_asks_about_entries_by_count() {
    assert_eq!(prune_question(1), "Remove 1 entry from the list?");
    assert_eq!(prune_question(4), "Remove 4 entries from the list?");
}

#[test]
fn a_history_row_folds_the_command_and_dates_it_with_status() {
    let entry = Entry {
        cmd: "git commit -m 'a\nb'".to_string(),
        when: Some(900),
    };
    assert_eq!(ls_row(&entry, 0, false), "git commit -m 'a ⏎ b'");
    assert_eq!(ls_row(&entry, 0, true), "1970-01-01 00:15  git commit -m 'a ⏎ b'");
}

#[test]
fn a_missing_history_says_where_it_looked() {
    assert_eq!(
        no_history("/h/fish_history"),
        "no fish history at /h/fish_history — set `[history] file` if yours is somewhere else"
    );
    assert_eq!(no_commands("/h/x"), "no commands in /h/x");
}

#[test]
fn a_path_holding_a_control_character_is_refused_with_its_name() {
    assert_eq!(control_refusal("~/notes/a.md"), None);
    assert_eq!(
        control_refusal("a\nb").unwrap(),
        "the known-files list is one path per line, so it cannot hold a path containing a newline"
    );
    assert!(control_refusal("a\tb").unwrap().ends_with("a tab"));
    assert!(control_refusal("a\u{1b}b").unwrap().ends_with("the control character U+001B"));
    assert!(control_refusal("a\u{9f}").unwrap().ends_with("U+009F"));
}

#[test]
fn an_entry_is_recorded_once() {
    let lines = vec!["~/a".to_string()];
    assert_eq!(add_entry(lines.clone(), "~/b"), Ok(vec!["~/a".to_string(), "~/b".to_string()]));
    assert_eq!(add_entry(lines, "~/a"), Err("entry already exists in the known-files list".to_string()));
}

#[test]
fn removing_an_entry_undoes_adding_it() {
    let lines = vec!["~/a".to_string(), "/etc/hosts".to_string()];
    let added = add_entry(lines.clone(), "~/b").unwrap();
    let (kept, removed) = partition_remove(&added, &["~/b".to_string()]);
    assert_eq!(kept, lines);
    assert_eq!(removed, vec!["~/b".to_string()]);
}
