use scriv::history::{stamp, STAMP_WIDTH, history_path, one_line, parse, recent_first, unescape, Entry, NEWLINE_GLYPH};

fn home() -> String {
    "/home/u".to_string()
}

#[test]
fn the_default_history_file_is_fishs_own() {
    assert_eq!(
        history_path(None, None, &home()),
        "/home/u/.local/share/fish/fish_history"
    );
}

#[test]
fn xdg_data_home_moves_the_history_file() {
    assert_eq!(
        history_path(None, Some("/data"), &home()),
        "/data/fish/fish_history"
    );
}

#[test]
fn a_configured_file_wins_and_expands_home() {
    assert_eq!(
        history_path(Some("~/hist/work_history"), Some("/data"), &home()),
        "/home/u/hist/work_history"
    );
}

#[test]
fn a_blank_configured_file_falls_back_to_the_default() {
    assert_eq!(
        history_path(Some("   "), None, &home()),
        "/home/u/.local/share/fish/fish_history"
    );
}

const SAMPLE: &str = "- cmd: git status\n  when: 1000\n\
                      - cmd: cargo test\n  when: 2000\n  paths:\n    - src/lib.rs\n\
                      - cmd: echo hi\n  when: 3000\n  added_when: 2999\n";

#[test]
fn entries_come_back_in_the_order_fish_stored_them() {
    let entries = parse(SAMPLE);
    assert_eq!(
        entries.iter().map(|e| e.cmd.as_str()).collect::<Vec<_>>(),
        vec!["git status", "cargo test", "echo hi"]
    );
    assert_eq!(entries[1].when, Some(2000));
}

#[test]
fn indented_keys_are_not_commands() {
    assert_eq!(parse(SAMPLE).len(), 3);
}

#[test]
fn an_entry_without_a_timestamp_survives() {
    let entries = parse("- cmd: ls\n");
    assert_eq!(entries.len(), 1);
    assert_eq!(entries[0].when, None);
}

#[test]
fn blank_commands_are_dropped() {
    assert!(parse("- cmd: \n  when: 1\n- cmd:    \n").is_empty());
}

#[test]
fn a_line_continuation_round_trips() {
    let entries = parse("- cmd: curl -X POST \\\\\\n  --data @body.json\n");
    assert_eq!(entries[0].cmd, "curl -X POST \\\n  --data @body.json");
}

#[test]
fn an_unrecognised_escape_keeps_its_backslash() {
    assert_eq!(unescape(r"grep '\d\t'"), r"grep '\d\t'");
}

#[test]
fn a_trailing_backslash_is_kept() {
    assert_eq!(unescape(r"echo \"), r"echo \");
}

#[test]
fn a_leading_space_in_the_command_is_preserved() {
    assert_eq!(parse("- cmd:  ls -la\n")[0].cmd, " ls -la");
}

#[test]
fn the_newest_run_of_each_command_comes_first() {
    let entries =
        parse("- cmd: ls\n  when: 1\n- cmd: git status\n  when: 2\n- cmd: ls\n  when: 3\n");
    let recent = recent_first(entries);
    assert_eq!(
        recent.iter().map(|e| e.cmd.as_str()).collect::<Vec<_>>(),
        vec!["ls", "git status"]
    );
    assert_eq!(recent[0].when, Some(3));
}

#[test]
fn dedup_keeps_every_distinct_command_in_recency_order() {
    let entries: Vec<Entry> = ["a", "b", "a", "c", "b", "a"]
        .iter()
        .enumerate()
        .map(|(i, cmd)| Entry {
            cmd: (*cmd).to_string(),
            when: Some(i as i64),
        })
        .collect();

    let got = recent_first(entries);
    assert_eq!(
        got.iter().map(|e| e.cmd.as_str()).collect::<Vec<_>>(),
        vec!["a", "b", "c"],
        "not ordered by the most recent run of each command"
    );
    assert_eq!(
        got.iter().map(|e| e.when).collect::<Vec<_>>(),
        vec![Some(5), Some(4), Some(3)]
    );
}

#[test]
fn an_empty_history_dedups_to_nothing() {
    assert!(recent_first(Vec::new()).is_empty());
}

#[test]
fn a_multiline_command_folds_onto_one_row() {
    assert_eq!(one_line("git commit -m 'a\nb'"), "git commit -m 'a ⏎ b'");
}

#[test]
fn folding_a_command_leaves_a_visible_mark() {
    assert!(one_line("a\nb").contains(NEWLINE_GLYPH));
}

#[test]
fn control_characters_never_reach_a_row() {
    assert_eq!(one_line("echo \x1b[31mred\x07"), "echo [31mred");
    assert_eq!(one_line("a\tb"), "a b");
}

#[test]
fn a_when_that_is_not_a_number_leaves_the_entry_undated() {
    let entries = parse("- cmd: ls\n  when: soon\n- cmd: pwd\n  when:  -42 \n");
    assert_eq!(entries[0].when, None);
    assert_eq!(entries[1].when, Some(-42));
}

#[test]
fn a_when_before_any_command_is_ignored() {
    let entries = parse("  when: 5\n- cmd: ls\n");
    assert_eq!(entries.len(), 1);
    assert_eq!(entries[0].when, None);
}

#[test]
fn an_escaped_backslash_and_newline_unescape() {
    assert_eq!(unescape(r"a\\b\nc"), "a\\b\nc");
}

#[test]
fn a_carriage_return_ending_a_line_is_not_drawn() {
    assert_eq!(one_line("a\r\nb"), "a ⏎ b");
    assert_eq!(one_line(""), "");
}

/// Seven hours east of UTC, in seconds.
const BANGKOK: i32 = 7 * 3600;

#[test]
fn a_stamp_is_the_local_date_and_time() {
    assert_eq!(stamp(Some(1785394626), BANGKOK), "2026-07-30 13:57");
}

#[test]
fn the_offset_moves_the_wall_clock() {
    let instant = Some(1785394626);
    assert_eq!(stamp(instant, 0), "2026-07-30 06:57");
    let west = -8 * 3600;
    assert_eq!(stamp(instant, west), "2026-07-29 22:57");
}

#[test]
fn an_undated_entry_still_fills_the_column() {
    let blank = stamp(None, BANGKOK);
    assert_eq!(blank.len(), STAMP_WIDTH);
    assert!(blank.trim().is_empty(), "{blank:?}");
    assert_eq!(stamp(Some(1785394626), BANGKOK).len(), STAMP_WIDTH);
}

#[test]
fn an_absurd_timestamp_renders_blank_rather_than_panicking() {
    assert!(stamp(Some(i64::MAX), BANGKOK).trim().is_empty());
    assert!(stamp(Some(i64::MIN), BANGKOK).trim().is_empty());
}
