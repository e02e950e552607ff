use indexmap::IndexMap;
use scriv::binding::{example_aliases, example_bindings};
use scriv::cmd::config::TEMPLATE;
use scriv::cmd::report::{note_columns, render_report, report, Env, Row, Value, DEFAULT};
use scriv::config::Config;

/// The key `line` sets, if it sets one: `root = "~/dev"` is `root`.
fn template_key(line: &str) -> Option<&str> {
    line.split_once(" = ")
        .map(|(name, _)| name)
        .filter(|name| !name.is_empty() && name.chars().all(|c| c.is_ascii_lowercase() || c == '_'))
}

fn env() -> Env<'static> {
    Env {
        config_path: "~/.config/scriv/config.toml".to_string(),
        config_exists: true,
        history_path: "~/.local/share/fish/fish_history".to_string(),
        editor: Some("nvim"),
    }
}

fn keys(rows: &[Row]) -> Vec<&str> {
    rows.iter()
        .filter_map(|row| match row {
            Row::Setting { key, .. } => Some(key.as_str()),
            _ => None,
        })
        .collect()
}

fn table(entries: &[(&str, &str)]) -> IndexMap<String, String> {
    entries
        .iter()
        .map(|(k, v)| (k.to_string(), v.to_string()))
        .collect()
}

/// The starter config's example tables, written out.
fn with_examples() -> Config {
    let mut cfg = Config::default();
    cfg.shell.bindings = Some(table(&example_bindings()));
    cfg.shell.aliases = Some(table(&example_aliases()));
    cfg
}

#[test]
fn every_setting_the_starter_config_names_is_printed() {
    let rows = report(&with_examples(), &env());
    let printed = keys(&rows);

    for line in TEMPLATE.lines() {
        let Some(key) = template_key(line.strip_prefix("# ").unwrap_or(line)) else {
            continue;
        };
        assert!(
            printed
                .iter()
                .any(|shown| *shown == key || shown.starts_with(&format!("{key}."))),
            "`{key}` is in the starter config but not in `config print`: {printed:?}"
        );
    }
}

#[test]
fn the_default_key_bindings_and_aliases_are_printed() {
    let rows = report(&with_examples(), &env());
    let printed = keys(&rows);

    for (trigger, _) in example_bindings().iter().chain(example_aliases().iter()) {
        assert!(printed.contains(trigger), "`{trigger}` is not in {printed:?}");
    }
    let lines = render_report(&rows).join("\n");
    assert!(
        lines.contains("Select a repository and cd into it"),
        "a binding was printed without saying what it does:\n{lines}"
    );
}

#[test]
fn a_binding_that_names_nothing_is_shown_and_marked() {
    let mut cfg = Config::default();
    cfg.shell.bindings = Some(table(&[("f6", "repo-jump")]));
    let rows = report(&cfg, &env());
    let lines = render_report(&rows);

    let line = lines.iter().find(|l| l.contains("f6")).expect("no f6 row");
    assert!(line.contains("repo-jump"), "{line}");
    assert!(line.contains("no such action"), "{line}");
    let broken = rows.iter().any(|row| {
        matches!(row, Row::Setting { key, value: Value::Broken(id), .. } if key == "f6" && id == "repo-jump")
    });
    assert!(broken);
}

#[test]
fn a_value_scriv_chose_is_marked_and_one_the_user_chose_is_not() {
    let mut cfg = Config::default();
    cfg.selector.height = "20".to_string();
    let lines = render_report(&report(&cfg, &env()));

    let row = |key: &str| {
        lines
            .iter()
            .find(|line| line.trim_start().starts_with(key))
            .unwrap_or_else(|| panic!("no `{key}` row in {lines:#?}"))
            .clone()
    };
    assert!(!row("height").contains(DEFAULT), "{}", row("height"));
    assert!(row("preview_window").contains(DEFAULT), "{}", row("preview_window"));
    assert!(row("ignore").contains(DEFAULT), "{}", row("ignore"));
}

#[test]
fn a_missing_config_file_says_so_once_rather_than_on_every_row() {
    let lines = render_report(&report(
        &Config::default(),
        &Env {
            config_exists: false,
            ..env()
        },
    ));

    assert!(lines[0].contains("not found"), "{:?}", lines[0]);
    assert_eq!(lines.iter().filter(|l| l.contains("not found")).count(), 1, "{lines:#?}");
}

#[test]
fn keys_line_up_in_one_column_and_carry_no_colour_when_it_is_off() {
    let lines = render_report(&report(&with_examples(), &env()));
    let settings: Vec<&String> = lines.iter().filter(|line| line.starts_with("  ")).collect();

    let value_column = |line: &str| {
        let rest = &line[2..];
        let gap = rest.find("  ")?;
        let padded = &rest[gap..];
        Some(2 + gap + padded.len() - padded.trim_start().len())
    };
    let first = value_column(settings[0]);
    assert!(first.is_some(), "{:?}", settings[0]);
    for line in &settings {
        assert_eq!(value_column(line), first, "{line}");
        assert!(!line.contains('\x1b'), "colour leaked into a plain report");
    }
}

#[test]
fn an_unset_root_and_an_empty_list_say_so() {
    let rows = report(&Config::default(), &env());
    let value = |key: &str| {
        rows.iter()
            .find_map(|row| match row {
                Row::Setting { key: k, value, note } if k == key => Some((value, note.clone())),
                _ => None,
            })
            .unwrap_or_else(|| panic!("no `{key}` row"))
    };
    let (root, note) = value("root");
    assert!(matches!(root, Value::Missing("(unset)")));
    assert_eq!(note, "`repo` and `repo clone` have nowhere to look");
    assert!(matches!(value("extra").0, Value::Missing("(none)")));
    assert!(matches!(value("labels").0, Value::Missing("(none)")));
    assert_eq!(value("display").0.text(), "relative");
    assert_eq!(value("preview").0.text(), "true");
    assert_eq!(value("ignore").0.text(), "node_modules, vendor, dist, build, target");
}

#[test]
fn the_editor_row_says_where_it_came_from() {
    let lines = render_report(&report(&Config::default(), &Env { editor: None, ..env() }));
    let last = lines.last().unwrap();
    assert!(last.contains("(unset)"), "{last}");
    assert!(last.contains("`scriv edit` has nothing to open files with"), "{last}");
    let lines = render_report(&report(&Config::default(), &env()));
    assert!(lines.last().unwrap().contains("nvim"));
}

#[test]
fn notes_line_up_within_their_group_only() {
    let rows = vec![
        Row::Heading { title: "[a]".to_string(), note: String::new() },
        Row::Setting { key: "k".to_string(), value: Value::Given("long value".to_string()), note: "n".to_string() },
        Row::Setting { key: "kk".to_string(), value: Value::Given("v".to_string()), note: "m".to_string() },
        Row::Blank,
        Row::Heading { title: "[b]".to_string(), note: "note".to_string() },
        Row::Setting { key: "x".to_string(), value: Value::Given("vv".to_string()), note: "o".to_string() },
    ];
    assert_eq!(note_columns(&rows), vec![10, 10, 10, 10, 2, 2]);
    let lines = render_report(&rows);
    assert_eq!(lines[0], "[a]");
    assert_eq!(lines[1], "  k   long value  n");
    assert_eq!(lines[2], "  kk  v           m");
    assert_eq!(lines[3], "");
    assert_eq!(lines[4], "[b]  note");
    assert_eq!(lines[5], "  x   vv  o");
}
