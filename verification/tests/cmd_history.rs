use scriv::cmd::history::items;
use scriv::history::Entry;

fn entries() -> Vec<Entry> {
    vec![
        Entry {
            cmd: "git status".into(),
            when: Some(900),
        },
        Entry {
            cmd: "git commit -m 'a\nb'".into(),
            when: None,
        },
    ]
}

const UTC: i32 = 0;

#[test]
fn rows_fold_onto_one_line_but_return_the_real_command() {
    let items = items(&entries(), UTC);
    assert_eq!(items[1].label, "git commit -m 'a ⏎ b'");
    assert_eq!(items[1].value(), "git commit -m 'a\nb'");
}

#[test]
fn the_date_is_shown_beside_the_command_but_not_matched() {
    let items = items(&entries(), UTC);
    assert_eq!(items[0].prefix.as_deref(), Some("1970-01-01 00:15  "));
    assert_eq!(items[0].label, "git status");
    assert!(!items[0].label.contains("1970"), "the date is searchable");
}

#[test]
fn an_undated_row_holds_the_date_column_open() {
    let items = items(&entries(), UTC);
    let (dated, undated) = (items[0].prefix.as_deref().unwrap(), items[1].prefix.as_deref().unwrap());
    assert_eq!(dated.len(), undated.len());
    assert!(undated.trim().is_empty(), "{undated:?}");
}

#[test]
fn a_folded_row_and_an_untouched_one_both_return_the_command() {
    let items = items(&entries(), UTC);
    assert_eq!(items[0].value(), "git status");
    assert_eq!(items[1].value(), "git commit -m 'a\nb'");
}
