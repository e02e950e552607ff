use scriv::cmd::worktree::{items, removable, slug, tree_path, Columns};
use scriv::git::{mark_current, parse_worktrees, Worktree};

fn unchanged(path: &str) -> String {
    path.to_string()
}

fn worktrees() -> Vec<Worktree> {
    mark_current(
        parse_worktrees(
            "worktree /home/u/dev/scriv\n\
             HEAD 950547ef3af47b2e60406bd23e530bdb1e226c6e\n\
             branch refs/heads/main\n\
             \n\
             worktree /home/u/dev/scriv/.trees/worktrees/feat\n\
             HEAD 32bb788aa1c04d9ee4d1e5a8b0e0b8d1c2f3a4b5\n\
             branch refs/heads/feat/x\n",
        ),
        Some("/home/u/dev/scriv"),
        unchanged,
    )
}

#[test]
fn rows_mark_the_current_tree_and_return_its_path() {
    let items = items(&worktrees(), "/home/u");
    assert!(items[0].label.starts_with("* main"), "{}", items[0].label);
    assert!(items[1].label.starts_with("  feat/x"), "{}", items[1].label);
    assert_eq!(items[0].value(), "/home/u/dev/scriv");
    assert_eq!(items[0].color, Some(2), "the current tree is green");
    assert_eq!(items[1].color, None);
}

#[test]
fn rows_show_a_collapsed_path_and_return_an_absolute_one() {
    let items = items(&worktrees(), "/home/u");
    assert!(items[0].label.ends_with("~/dev/scriv"), "{}", items[0].label);
    assert_eq!(items[0].value(), "/home/u/dev/scriv");
}

#[test]
fn worktree_columns_align() {
    let items = items(&worktrees(), "/home/u");
    assert_eq!(
        items[0].label.find("~/dev/scriv"),
        items[1].label.find("~/dev/scriv"),
        "the path column is ragged: {:?}",
        items.iter().map(|i| &i.label).collect::<Vec<_>>(),
    );
}

#[test]
fn the_tag_column_appears_only_when_a_tree_carries_a_tag() {
    let plain = worktrees();
    let untagged = Columns::of(&plain).row(&plain[0], "~/p");
    assert_eq!(untagged, "* main    ~/p", "main is padded to `feat/x`");

    let mut tagged = plain;
    tagged[1].locked = true;
    let columns = Columns::of(&tagged);
    assert_eq!(columns.row(&tagged[1], "~/q"), "  feat/x  locked  ~/q");
    assert!(
        columns.row(&tagged[0], "~/p").len() > untagged.len(),
        "the untagged row did not make room for the tag column",
    );
}

#[test]
fn worktree_column_width_counts_characters_not_bytes() {
    let rows = parse_worktrees(
        "worktree /home/u/café\nHEAD abc\nbranch refs/heads/café\n\
         worktree /home/u/b\nHEAD def\nbranch refs/heads/b\n",
    );
    let label = &items(&rows, "/home/u")[0].label;
    assert!(
        label.starts_with("  café  ~/café"),
        "column padded past the longest name: {label:?}",
    );
}

#[test]
fn a_branch_becomes_one_directory_rather_than_a_nest() {
    assert_eq!(slug("feat/x"), "feat-x");
    assert_eq!(slug("release/1.2/rc"), "release-1.2-rc");
    assert_eq!(slug("main"), "main");
}

#[test]
fn a_relative_root_puts_the_tree_beside_the_checkout() {
    let path = tree_path("/home/u/dev/github.com/me/scriv", ".worktrees", "feat/x");
    assert_eq!(path, "/home/u/dev/github.com/me/scriv/.worktrees/feat-x");
}

#[test]
fn an_absolute_root_keeps_each_repository_apart() {
    let path = tree_path("/home/u/dev/github.com/me/scriv", "/home/u/dev/worktrees", "main");
    assert_eq!(path, "/home/u/dev/worktrees/scriv/main");
}

#[test]
fn neither_the_main_tree_nor_the_one_you_are_in_is_offered_for_removal() {
    let mut trees = worktrees();
    trees[1].current = true;
    assert!(
        removable(&trees).is_empty(),
        "offered a tree git would refuse to remove"
    );

    let trees = worktrees();
    let offered: Vec<&str> = removable(&trees)
        .iter()
        .map(|w| w.branch.as_str())
        .collect();
    assert_eq!(offered, vec!["feat/x"], "the main tree was offered");
}

#[test]
fn an_absolute_root_with_no_repository_name_takes_the_slug_directly() {
    assert_eq!(tree_path("/", "/trees", "a/b"), "/trees/a-b");
    assert_eq!(tree_path("/src/app/", "/trees", "main"), "/trees/app/main");
}
