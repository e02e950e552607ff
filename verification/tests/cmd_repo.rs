use scriv::cmd::repo::{
    clone_row, destination, empty_message, no_root_message, owner_of, target, CloneView, Target, Widths,
};
use scriv::gh::{Repo, Visibility};
use scriv::note::Tint;
use scriv::cmd::repo::check_slug;
use scriv::cmd::repo::{slug_destination, split_slug};
use scriv::cmd::repo::{cloned_line, clones_failed, owner_row, present_line};

fn repos() -> Vec<Repo> {
    vec![
        Repo {
            full_name: "acme/billing-api".to_string(),
            description: Some("Meters usage".to_string()),
            visibility: "private".to_string(),
            archived: false,
            fork: false,
            language: Some("Rust".to_string()),
            pushed_at: "2026-07-27T09:12:33Z".to_string(),
        },
        Repo {
            full_name: "acme/old-thing".to_string(),
            description: None,
            visibility: "public".to_string(),
            archived: true,
            fork: true,
            language: None,
            pushed_at: "2024-01-02T00:00:00Z".to_string(),
        },
    ]
}

fn tinted(row: &str, tint: &Tint) -> String {
    row.chars()
        .skip(tint.range.start)
        .take(tint.range.end - tint.range.start)
        .collect::<String>()
}

fn tint_of(row: &str, tints: &[Tint], color: u8) -> Option<String> {
    tints.iter().find(|t| t.color == color).map(|t| tinted(row, t))
}

#[test]
fn open_acts_on_the_repository_you_are_in() {
    let here = "/home/u/dev/github.com/acme/billing-api".to_string();
    assert_eq!(target(Some(here.clone()), false), Target::Here(here));
}

#[test]
fn open_selects_outside_a_repository_or_on_request() {
    assert_eq!(target(None, false), Target::Select);
    assert_eq!(target(None, true), Target::Select);
    let here = "/home/u/dev/github.com/acme/billing-api".to_string();
    assert_eq!(target(Some(here), true), Target::Select);
}

#[test]
fn destination_matches_the_discovery_layout() {
    let root = "/home/u/dev/github.com";
    let dest = destination(root, "joakimen", "scriv");
    assert_eq!(dest, "/home/u/dev/github.com/joakimen/scriv");
    assert_eq!(
        owner_of(root, &dest).as_deref(),
        Some("joakimen"),
        "clone destination and discovery disagree",
    );
}

#[test]
fn the_advice_for_a_missing_root_depends_on_there_being_a_config() {
    let path = "/home/u/.config/scriv/config.toml";

    let written = no_root_message(path, true);
    assert!(written.contains("[repo] root"), "{written}");
    assert!(
        !written.contains("config init"),
        "advises a command that refuses to run: {written}"
    );

    let absent = no_root_message(path, false);
    assert!(absent.contains("scriv config init"), "{absent}");
}

#[test]
fn an_owner_with_nothing_to_show_names_the_archive_filter() {
    assert!(empty_message("acme", false).contains("--archived"));
    assert!(!empty_message("acme", true).contains("--archived"));
}

#[test]
fn the_mark_on_an_existing_clone_is_green_and_only_the_mark() {
    let widths = Widths::of(&repos());
    let row = clone_row(&repos()[0], true, &widths);
    assert_eq!(tint_of(&row.mark, &row.mark_tints, 2).as_deref(), Some("✓"));
}

#[test]
fn an_uncloned_repository_carries_no_mark() {
    let widths = Widths::of(&repos());
    let row = clone_row(&repos()[0], false, &widths);
    assert!(!row.mark.contains('✓'), "{:?}", row.mark);
    assert!(row.mark_tints.is_empty());
}

#[test]
fn only_the_visibility_word_takes_the_visibility_colour() {
    let widths = Widths::of(&repos());
    let row = clone_row(&repos()[0], false, &widths);
    let color = Visibility::Private.color().unwrap();
    assert_eq!(tint_of(&row.rest, &row.rest_tints, color).as_deref(), Some("private"));
}

#[test]
fn the_other_tags_are_left_uncoloured() {
    let widths = Widths::of(&repos());
    let row = clone_row(&repos()[1], false, &widths);
    assert!(row.rest.contains("archived fork"), "{:?}", row.rest);
    assert!(
        row.rest_tints.is_empty(),
        "a public repository is left bare: {:?}",
        row.rest
    );
}

#[test]
fn the_row_carries_the_last_push_date_before_the_description() {
    let widths = Widths::of(&repos());
    let row = clone_row(&repos()[0], false, &widths);
    let pushed = row.rest.find("2026-07-27").expect(&row.rest);
    let description = row.rest.find("Meters usage").expect(&row.rest);
    assert!(pushed < description, "{:?}", row.rest);
}

#[test]
fn the_columns_line_up() {
    let widths = Widths::of(&repos());
    let rows: Vec<String> = repos()
        .iter()
        .map(|repo| clone_row(repo, false, &widths).rest)
        .collect();
    let at = |row: &str, needle: &str| row.find(needle).map(|i| row[..i].chars().count());
    assert_eq!(at(&rows[0], "2026-07-27"), at(&rows[1], "2024-01-02"), "{rows:?}");
}

#[test]
fn an_internal_repository_that_is_archived_tints_its_word_after_archived() {
    let mut r = repos().remove(1);
    r.visibility = "internal".to_string();
    let widths = Widths::of(std::slice::from_ref(&r));
    let row = clone_row(&r, false, &widths);
    assert_eq!(tint_of(&row.rest, &row.rest_tints, 5).as_deref(), Some("internal"));
    assert_eq!(row.rest, "  archived internal fork  2024-01-02");
}

#[test]
fn the_clone_views_are_all_then_missing() {
    assert_eq!(CloneView::of(0), CloneView::All);
    assert_eq!(CloneView::of(1), CloneView::Missing);
    assert!(CloneView::All.shows(true));
    assert!(!CloneView::Missing.shows(true));
    assert!(CloneView::Missing.shows(false));
}

#[test]
fn a_path_outside_the_root_names_no_owner() {
    assert_eq!(owner_of("/r", "/other/x/y"), None);
    assert_eq!(owner_of("/r/", "/r/acme/site").as_deref(), Some("acme"));
    assert_eq!(owner_of("/r", "/r/"), None);
    assert_eq!(owner_of("/r", "/rx/acme"), None);
}

fn strings(v: &[&str]) -> Vec<String> {
    v.iter().map(|s| s.to_string()).collect()
}

#[test]
fn owners_come_from_the_config_then_the_disk_then_github_each_once() {
    let known = strings(&["acme", "me"]);
    let local = strings(&["zeta", ".cache", "Acme", "beta", "alpha"]);
    let asked = strings(&["ME", "orgx", ""]);
    let owners = scriv::cmd::repo::owner_candidates(&known, local, &asked);
    assert_eq!(owners, strings(&["acme", "me", "alpha", "beta", "zeta", "orgx"]));
}

#[test]
fn owners_on_disk_sort_case_aside() {
    let sorted = scriv::cmd::repo::sort_owners(strings(&["b", "C", "a", "B2"]));
    assert_eq!(sorted, strings(&["a", "b", "B2", "C"]));
}

#[test]
fn a_slug_github_could_not_issue_is_refused_with_what_is_allowed() {
    assert_eq!(check_slug("acme/api"), Ok(()));
    assert_eq!(check_slug("acme"), Ok(()));
    let refused = check_slug("-rf").unwrap_err();
    assert_eq!(
        refused,
        "`-rf` is not a GitHub owner or owner/repo name — those are letters, digits, `-`, `_` and `.`, and do not begin with `-`"
    );
    assert!(check_slug("acme/../x").is_err());
}

#[test]
fn a_slug_splits_into_owner_and_name_and_lands_under_the_root() {
    assert_eq!(split_slug("acme/api"), ("acme".to_string(), "api".to_string()));
    assert_eq!(split_slug("api"), (String::new(), "api".to_string()));
    assert_eq!(slug_destination("/r", "acme/api"), "/r/acme/api");
}

#[test]
fn clone_messages_name_the_repository_and_where_it_is() {
    assert_eq!(owner_row("acme", Some("work")), "acme  (work)");
    assert_eq!(owner_row("me", None), "me");
    assert_eq!(cloned_line("acme/api", "/r/acme/api"), "cloned acme/api -> /r/acme/api");
    assert_eq!(present_line("acme/api", "/r/acme/api"), "already present, skipping: acme/api (/r/acme/api)");
    assert_eq!(clones_failed(2, 5), "2 of 5 clones failed");
}

#[test]
fn splits_owner_and_name() {
    let repos = repos();
    assert_eq!(repos[0].owner(), "acme");
    assert_eq!(repos[0].name(), "billing-api");
    assert_eq!(repos[0].language(), "Rust");
    assert_eq!(repos[0].pushed_date(), "2026-07-27");
}

#[test]
fn tags_only_mark_the_unusual() {
    let repos = repos();
    assert_eq!(repos[0].tags(), vec!["private"]);
    assert_eq!(repos[1].tags(), vec!["archived", "fork"]);
}

#[test]
fn an_empty_root_puts_the_clone_under_the_owner() {
    assert_eq!(destination("", "joakimen", "scriv"), "joakimen/scriv");
}
