use scriv::cmd::branch::preview_command;
use scriv::cmd::branch::{deletable, items, narrow, rm_items, status_rows};
use scriv::git::{classify, BranchKind, Filter, RefLine};
use scriv::cmd::branch::{deletion_question, deletion_rows, deletions_failed, forced};

fn branches() -> Vec<scriv::git::Branch> {
    classify(&[
        RefLine {
            refname: "refs/heads/main".into(),
            head: true,
            symref: String::new(),
            upstream: "origin/main".into(),
            date: "2 hours ago".into(),
            subject: "init".into(),
        },
        RefLine {
            refname: "refs/remotes/origin/main".into(),
            head: false,
            symref: String::new(),
            upstream: String::new(),
            date: "2 hours ago".into(),
            subject: "init".into(),
        },
        RefLine {
            refname: "refs/remotes/origin/feature".into(),
            head: false,
            symref: String::new(),
            upstream: String::new(),
            date: "3 days ago".into(),
            subject: "wip".into(),
        },
    ])
}

#[test]
fn rows_mark_head_and_return_the_branch_name() {
    let items = items(&branches());
    assert!(items[0].label.starts_with("* main"));
    assert_eq!(items[0].value(), "main");
    assert!(items[1].label.starts_with("  origin/feature"));
    assert_eq!(items[1].value(), "origin/feature");
}

#[test]
fn rows_are_coloured_by_kind() {
    let items = items(&branches());
    assert_eq!(items[0].color, Some(BranchKind::Both.color()));
    assert_eq!(items[1].color, Some(BranchKind::Remote.color()));
}

#[test]
fn branch_columns_align() {
    let items = items(&branches());
    assert_eq!(items[0].label.find("init"), items[1].label.find("wip"));
}

#[test]
fn branch_column_width_counts_characters_not_bytes() {
    let rows = classify(&[RefLine {
        refname: "refs/heads/café".into(),
        head: false,
        symref: String::new(),
        upstream: String::new(),
        date: "now".into(),
        subject: "one".into(),
    }]);
    let label = &items(&rows)[0].label;
    assert!(
        label.starts_with("  café  now"),
        "column padded past the longest name: {label:?}"
    );
}

#[test]
fn only_local_branches_that_are_not_checked_out_are_offered_for_deletion() {
    let here = branches();
    let offered: Vec<&str> = deletable(&here).iter().map(|b| b.name.as_str()).collect();
    assert_eq!(offered, Vec::<&str>::new(), "main is checked out here");

    let mut branches = branches();
    branches[0].head = false;
    let offered: Vec<&str> = deletable(&branches)
        .iter()
        .map(|b| b.name.as_str())
        .collect();
    assert_eq!(offered, vec!["main"], "a remote branch was offered");
}

#[test]
fn the_deletion_rows_say_what_git_can_see_has_landed() {
    let mut branches = branches();
    branches[0].head = false;
    let merged = vec!["main".to_string()];

    let rows = rm_items(&branches, &merged);
    assert!(rows[0].label.contains("merged"), "{}", rows[0].label);
    assert_eq!(rows[0].color, Some(2), "a landed branch is not green");
    assert_eq!(rows[0].value(), "main");

    let rows = rm_items(&branches, &Vec::new());
    assert!(rows[0].label.contains("not merged"), "{}", rows[0].label);
    assert_eq!(rows[0].color, Some(3));
}

#[test]
fn a_status_row_carries_the_kind_tag() {
    let rows = status_rows(&branches());
    assert_eq!(rows[0], "* main            both    2 hours ago  init");
    assert_eq!(rows[1], "  origin/feature  remote  3 days ago   wip");
}

#[test]
fn an_empty_side_names_itself() {
    let only_remote = vec![branches().remove(1)];
    assert_eq!(narrow(only_remote, Filter::Local).unwrap_err(), "no local branches found");
    assert_eq!(narrow(Vec::new(), Filter::All).unwrap_err(), "no branches found");
    assert_eq!(narrow(branches(), Filter::Remote).unwrap().len(), 2);
    assert_eq!(narrow(branches(), Filter::Local).unwrap().len(), 1);
}

#[test]
fn what_is_about_to_be_deleted_is_shown_in_one_column() {
    let targets = vec!["feature".to_string(), "x".to_string()];
    let merged = vec!["x".to_string()];
    let rows = deletion_rows(&targets, &merged);
    assert_eq!(rows[0], ("feature  not merged".to_string(), 3));
    assert_eq!(rows[1], ("x        merged".to_string(), 2));
    assert!(forced(&merged, "feature"));
    assert!(!forced(&merged, "x"));
    assert_eq!(deletion_question(1), "Delete 1 branch?");
    assert_eq!(deletion_question(2), "Delete 2 branches?");
    assert_eq!(deletions_failed(1, 2), "1 of 2 branches could not be deleted");
}

#[test]
fn preview_logs_the_branch_with_authors() {
    let cmd = preview_command(&branches()[1]);
    assert!(cmd.contains(" log "), "{cmd}");
    assert!(cmd.contains("%an"), "author is what the preview is for: {cmd}");
    assert!(cmd.ends_with("'origin/feature' --"), "{cmd}");
    assert!(cmd.contains("--no-optional-locks"), "{cmd}");
    assert!(cmd.contains("--max-count=30"), "unbounded log: {cmd}");
}
