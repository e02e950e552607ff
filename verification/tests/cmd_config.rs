use scriv::binding::actions;
use scriv::cmd::config::{
    failures, gh_state, plural, render_check, resolve_on_path, summary, version_number, Check, Status,
    TEMPLATE,
};

#[test]
fn the_template_names_every_action_there_is() {
    for action in actions() {
        assert!(
            TEMPLATE.contains(&format!("\"{}\"", action.id)),
            "`{}` is in no table a user can read",
            action.id
        );
    }
}

#[test]
fn every_status_is_a_distinct_shape_not_a_colour() {
    let glyphs: Vec<&str> = [Status::Pass, Status::Warn, Status::Fail]
        .iter()
        .map(|s| s.glyph())
        .collect();
    let mut unique = glyphs.clone();
    unique.sort_unstable();
    unique.dedup();
    assert_eq!(unique.len(), glyphs.len(), "two statuses look alike");

    let plain = render_check(&Check::fail("repo root", "not set"), 9);
    assert_eq!(plain, "  ✗ repo root  not set");
    assert!(!plain.contains('\x1b'), "colour leaked into a plain report");
}

#[test]
fn names_are_padded_into_one_column() {
    let rows = [
        render_check(&Check::ok("gh", "found"), 9),
        render_check(&Check::ok("repo root", "/tmp"), 9),
    ];
    let column = |row: &str| row.rfind("  ").map(|i| i + 2);
    assert_eq!(column(&rows[0]), column(&rows[1]), "{rows:?}");
}

#[test]
fn a_check_with_nothing_to_add_is_the_tick_and_the_name() {
    let row = render_check(&Check::ok("config file", ""), 9);
    assert_eq!(row, "  ✓ config file");
}

#[test]
fn the_summary_counts_what_is_left_to_do() {
    let clear = [Check::ok("git", ""), Check::ok("gh", "")];
    let (line, tint) = summary(&clear.iter().collect::<Vec<_>>());
    assert_eq!(line, "2 checks · all clear");
    assert_eq!(tint, Status::Pass.color());

    let mixed = [
        Check::ok("git", ""),
        Check::warn("gh", "not on PATH"),
        Check::fail("repo root", "not set"),
    ];
    let (line, tint) = summary(&mixed.iter().collect::<Vec<_>>());
    assert_eq!(line, "3 checks · 1 failed · 1 to look at");
    assert_eq!(tint, Status::Fail.color());
    assert_eq!(failures(&mixed), 1);
}

#[test]
fn an_unauthenticated_gh_is_a_warning_that_names_the_way_out() {
    let (status, detail) = gh_state("2.97.0", false);
    assert_eq!(status, Status::Warn, "a login nobody has is not fatal");
    assert!(detail.contains("gh auth login"), "{detail}");
    assert!(detail.contains("2.97.0"), "the version went missing: {detail}");

    let (status, detail) = gh_state("2.97.0", true);
    assert_eq!(status, Status::Pass);
    assert!(!detail.contains("gh auth login"), "{detail}");
}

#[test]
fn a_version_line_is_reported_as_the_version() {
    assert_eq!(version_number("git version 2.51.0").as_deref(), Some("2.51.0"));
    assert_eq!(version_number("bat 0.26.1").as_deref(), Some("0.26.1"));
    assert_eq!(
        version_number("gh version 2.97.0 (2026-07-31)").as_deref(),
        Some("2.97.0")
    );
    assert_eq!(
        version_number("2026.8.3 macos-arm64 (2026-08-07)").as_deref(),
        Some("2026.8.3")
    );
    assert_eq!(version_number("ripgrep v15.2.0").as_deref(), Some("15.2.0"));
    assert_eq!(version_number("usage: ps [-AaCcEefhjlMmrSTvwXx]"), None);
}

#[test]
fn path_lookup_takes_the_first_match_in_order() {
    let found = resolve_on_path("gh", Some("/a:/b:/c"), |p: &str| p == "/b/gh" || p == "/c/gh");
    assert_eq!(found.as_deref(), Some("/b/gh"));
}

#[test]
fn path_lookup_reports_nothing_when_it_is_not_there() {
    assert_eq!(resolve_on_path("gh", Some("/a:/b"), |_: &str| false), None);
    assert_eq!(resolve_on_path("gh", None, |_: &str| true), None);
    assert_eq!(resolve_on_path("gh", Some("::"), |p: &str| p == "gh"), None);
}

#[test]
fn a_program_with_a_separator_is_used_as_it_stands() {
    assert_eq!(
        resolve_on_path("/opt/bin/hx", Some("/usr/bin"), |p: &str| p == "/opt/bin/hx").as_deref(),
        Some("/opt/bin/hx")
    );
    assert_eq!(resolve_on_path("/opt/bin/hx", Some("/usr/bin"), |_: &str| false), None);
}

#[test]
fn a_count_takes_the_noun_its_number_calls_for() {
    assert_eq!(plural(1, "check", "checks"), "1 check");
    assert_eq!(plural(0, "check", "checks"), "0 checks");
    assert_eq!(plural(12, "check", "checks"), "12 checks");
}

#[test]
fn only_a_failure_colours_the_name() {
    assert_eq!(Status::Fail.name_color(), Some(1));
    assert_eq!(Status::Warn.name_color(), None);
    assert_eq!(Status::Pass.name_color(), None);
    assert_eq!(Status::Warn.color(), 3);
}

#[test]
fn warnings_do_not_fail_the_run() {
    let checks = vec![
        Check::ok("git", "git version 2.51.0"),
        Check::warn("gh", "not on PATH"),
    ];
    assert_eq!(failures(&checks), 0);

    let broken = vec![Check::fail("repo root", "not set"), checks[1].clone()];
    assert_eq!(failures(&broken), 1);
}
