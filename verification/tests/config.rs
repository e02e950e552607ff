use scriv::config::{
    default_ignored_dirs, files_path, legacy_kf_path, resolve_config_path, resolve_editor,
    split_editor, RepoDisplay, SelectorConfig,
};

fn never(_: &str) -> bool {
    false
}

const HOME: &str = "/home/user";

#[test]
fn flag_takes_precedence() {
    let got = resolve_config_path(
        Some("~/custom.toml"),
        Some("/env.toml"),
        Some("/xdg"),
        HOME,
        never,
    );
    assert_eq!(got, "/home/user/custom.toml");
}

#[test]
fn env_beats_xdg_and_home() {
    let got = resolve_config_path(None, Some("/env.toml"), Some("/xdg"), HOME, never);
    assert_eq!(got, "/env.toml");
}

#[test]
fn xdg_beats_home() {
    let got = resolve_config_path(None, None, Some("/xdg"), HOME, never);
    assert_eq!(got, "/xdg/scriv/config.toml");
}

#[test]
fn falls_back_to_home_config() {
    let got = resolve_config_path(None, None, None, HOME, never);
    assert_eq!(got, "/home/user/.config/scriv/config.toml");
}

#[test]
fn prefers_toml_over_legacy_json() {
    let got = resolve_config_path(None, None, None, HOME, |_: &str| true);
    assert_eq!(got, "/home/user/.config/scriv/config.toml");
}

#[test]
fn uses_legacy_json_when_only_it_exists() {
    let json = "/home/user/.config/scriv/config.json";
    let got = resolve_config_path(None, None, None, HOME, |p: &str| p == json);
    assert_eq!(got, json);
}

#[test]
fn ignores_empty_env_values() {
    let got = resolve_config_path(Some(""), Some(""), Some(""), HOME, never);
    assert_eq!(got, "/home/user/.config/scriv/config.toml");
}

#[test]
fn files_list_sits_beside_the_config() {
    assert_eq!(
        files_path("/home/user/.config/scriv/config.toml"),
        "/home/user/.config/scriv/files"
    );
}

#[test]
fn files_list_handles_bare_config_name() {
    assert_eq!(files_path("config.toml"), "./files");
}

#[test]
fn legacy_kf_path_follows_xdg() {
    assert_eq!(legacy_kf_path(None, HOME), "/home/user/.config/kf/config");
    assert_eq!(legacy_kf_path(Some("/xdg"), HOME), "/xdg/kf/config");
}

#[test]
fn editor_precedence_prefers_visual() {
    assert_eq!(
        resolve_editor(Some("code"), Some("vi")).as_deref(),
        Some("code")
    );
    assert_eq!(resolve_editor(None, Some("vi")).as_deref(), Some("vi"));
    assert_eq!(resolve_editor(None, None), None);
}

#[test]
fn editor_ignores_blank_values() {
    assert_eq!(
        resolve_editor(Some("  "), Some("vi")).as_deref(),
        Some("vi")
    );
    assert_eq!(resolve_editor(Some(""), None), None);
    assert_eq!(resolve_editor(Some(" hx "), None).as_deref(), Some("hx"));
}

#[test]
fn splits_editor_into_program_and_args() {
    assert_eq!(split_editor("nvim"), vec!["nvim"]);
    assert_eq!(split_editor("code -w"), vec!["code", "-w"]);
    assert_eq!(split_editor("  nvim   -p  "), vec!["nvim", "-p"]);
}

#[test]
fn the_defaults_are_the_documented_ones() {
    let selector = SelectorConfig::default();
    assert_eq!(selector.height, "50%");
    assert!(selector.preview);
    assert_eq!(selector.preview_window, "right:50%");
    assert_eq!(RepoDisplay::default(), RepoDisplay::Relative);
    assert_eq!(RepoDisplay::Tilde.as_str(), "tilde");
    assert_eq!(
        default_ignored_dirs(),
        vec!["node_modules", "vendor", "dist", "build", "target"]
    );
}

#[test]
fn a_config_at_the_root_lists_files_beside_it() {
    assert_eq!(files_path("/config.toml"), "/files");
    assert_eq!(files_path("a/b/config.toml/"), "a/b/files");
}

// --- reading a parsed config ------------------------------------------------

use indexmap::IndexMap;
use scriv::config::{
    config_from_json, config_from_toml, legacy_paths_error, migration_hint, selector_from, Config,
    HistoryConfig, Labels, LegacyPaths, PathEntry, RawSelector, RawToml, RepoConfig, ShellConfig,
};

fn entry(path: &str, depth: usize) -> PathEntry {
    PathEntry {
        path: path.into(),
        depth,
    }
}

fn labels(pairs: &[(&str, &[&str])]) -> Labels {
    pairs
        .iter()
        .map(|(label, owners)| {
            (
                label.to_string(),
                owners.iter().map(|o| o.to_string()).collect::<Vec<_>>(),
            )
        })
        .collect::<IndexMap<String, Vec<String>>>()
}

fn strings(items: &[&str]) -> Vec<String> {
    items.iter().map(|s| s.to_string()).collect()
}

/// The value an empty `config.toml` parses to.
fn raw() -> RawToml {
    RawToml {
        repo: RepoConfig::default(),
        history: HistoryConfig::default(),
        selector: RawSelector::default(),
        shell: ShellConfig::default(),
        root: None,
        extra: None,
        owners: None,
        ignore: None,
        editor: None,
        paths: None,
        picker: None,
    }
}

fn parsed(raw: RawToml) -> Config {
    config_from_toml(raw).unwrap()
}

fn refused(raw: RawToml) -> String {
    config_from_toml(raw).unwrap_err()
}

#[test]
fn parses_root_extra_and_labels() {
    let mut r = raw();
    r.repo.root = Some("~/dev/github.com".to_string());
    r.repo.extra = strings(&["~/bin"]);
    r.repo.labels = labels(&[("personal", &["joakimen"]), ("work", &["capralifecycle", "nsbno"])]);
    let cfg = parsed(r);
    assert_eq!(cfg.repo.root.as_deref(), Some("~/dev/github.com"));
    assert_eq!(cfg.repo.extra, vec!["~/bin".to_string()]);
    assert_eq!(
        cfg.repo.labels.keys().collect::<Vec<_>>(),
        vec!["personal", "work"]
    );
}

#[test]
fn labels_accept_a_subtable_header_too() {
    let mut r = raw();
    r.repo.root = Some("~/src".to_string());
    r.repo.labels = labels(&[("work", &["acme"])]);
    let cfg = parsed(r);
    assert_eq!(cfg.repo.root.as_deref(), Some("~/src"));
    assert_eq!(cfg.repo.label_of("acme"), Some("work"));
}

#[test]
fn keys_after_inline_labels_stay_repo_keys() {
    let mut r = raw();
    r.repo.labels = labels(&[("work", &["acme"])]);
    r.repo.ignore = strings(&["node_modules"]);
    let cfg = parsed(r);
    assert_eq!(cfg.repo.ignore, vec!["node_modules".to_string()]);
    assert_eq!(cfg.repo.label_of("acme"), Some("work"));
}

#[test]
fn a_label_spans_several_owners() {
    let mut r = raw();
    r.repo.labels = labels(&[("work", &["capralifecycle", "nsbno"])]);
    let cfg = parsed(r);
    assert_eq!(cfg.repo.label_of("capralifecycle"), Some("work"));
    assert_eq!(cfg.repo.label_of("nsbno"), Some("work"));
    assert_eq!(cfg.repo.label_of("joakimen"), None);
}

#[test]
fn owner_lookup_ignores_case() {
    let mut r = raw();
    r.repo.labels = labels(&[("work", &["CapraLifecycle"])]);
    let cfg = parsed(r);
    assert_eq!(cfg.repo.label_of("capralifecycle"), Some("work"));
    assert_eq!(cfg.repo.label_of("CAPRALIFECYCLE"), Some("work"));
}

#[test]
fn known_owners_follow_label_order() {
    let mut r = raw();
    r.repo.labels = labels(&[("work", &["acme", "acme-labs"]), ("personal", &["me"])]);
    let cfg = parsed(r);
    assert_eq!(cfg.repo.known_owners(), vec!["acme", "acme-labs", "me"]);
}

#[test]
fn empty_toml_has_no_root() {
    let cfg = parsed(raw());
    assert_eq!(cfg.repo.root, None);
    assert!(cfg.repo.extra.is_empty());
    assert!(cfg.repo.labels.is_empty());
    assert_eq!(cfg.repo.ignore, default_ignored_dirs());
    assert_eq!(cfg.repo.display, RepoDisplay::Relative);
}

#[test]
fn legacy_paths_config_is_rejected_with_a_migration() {
    let mut groups: IndexMap<String, Vec<PathEntry>> = IndexMap::new();
    groups.insert(
        "personal".to_string(),
        vec![entry("~/dev/github.com/joakimen", 1), entry("~/bin", 0)],
    );
    groups.insert("work".to_string(), vec![entry("~/dev/github.com/capralifecycle", 1)]);
    let mut r = raw();
    r.paths = Some(LegacyPaths::Grouped(groups));
    let err = refused(r);

    assert!(err.contains("old `paths` format"), "{err}");
    assert!(err.contains("[repo]"), "{err}");
    assert!(err.contains(r#"root = "~/dev/github.com""#), "{err}");
    assert!(
        err.contains(r#"labels = { personal = ["joakimen"], work = ["capralifecycle"] }"#),
        "{err}"
    );
    assert!(err.contains(r#"extra = ["~/bin"]"#), "{err}");
}

#[test]
fn migration_selects_the_most_common_root() {
    let paths = LegacyPaths::Grouped(
        [
            (
                "a".to_string(),
                vec![entry("~/odd/one-off", 1), entry("~/dev/github.com/x", 1)],
            ),
            ("b".to_string(), vec![entry("~/dev/github.com/y", 1)]),
        ]
        .into_iter()
        .collect(),
    );
    assert!(
        migration_hint(&paths).contains(r#"root = "~/dev/github.com""#),
        "{}",
        migration_hint(&paths)
    );
}

#[test]
fn migration_handles_an_ungrouped_list() {
    let hint = migration_hint(&LegacyPaths::Flat(vec![
        entry("~/dev/github.com/joakimen", 1),
        entry("~/bin", 0),
    ]));
    assert!(hint.contains(r#"root = "~/dev/github.com""#), "{hint}");
    assert!(hint.contains(r#"extra = ["~/bin"]"#), "{hint}");
}

#[test]
fn legacy_json_is_rejected_with_a_migration() {
    let err = config_from_json(vec![entry("~/dev/github.com/joakimen", 1)]).unwrap_err();
    assert!(err.contains("old `paths` format"), "{err}");
    assert!(err.contains(r#"root = "~/dev/github.com""#), "{err}");
}

#[test]
fn flat_layout_is_rejected_with_a_migration() {
    let mut r = raw();
    r.root = Some("~/dev/github.com".to_string());
    r.extra = Some(strings(&["~/bin"]));
    r.ignore = Some(strings(&["target"]));
    r.editor = Some("nvim".to_string());
    r.owners = Some(labels(&[("work", &["acme"])]));
    r.selector.height = Some("30%".to_string());
    r.selector.display = Some(RepoDisplay::Tilde);
    let err = refused(r);

    assert!(err.contains("old flat layout"), "{err}");
    assert!(err.contains("[repo]"), "{err}");
    assert!(err.contains(r#"root = "~/dev/github.com""#), "{err}");
    assert!(err.contains(r#"extra = ["~/bin"]"#), "{err}");
    assert!(err.contains(r#"ignore = ["target"]"#), "{err}");
    assert!(err.contains(r#"display = "tilde""#), "{err}");
    assert!(err.contains(r#"labels = { work = ["acme"] }"#), "{err}");
    assert!(err.contains("$EDITOR"), "{err}");
}

#[test]
fn a_picker_table_is_rejected_with_its_new_name() {
    let mut r = raw();
    r.picker = Some(RawSelector {
        height: Some("30%".to_string()),
        preview: Some(false),
        preview_window: Some("down:40%".to_string()),
        display: None,
    });
    let err = refused(r);

    assert!(err.contains("`[picker]`"), "{err}");
    assert!(err.contains("[selector]"), "{err}");
    assert!(err.contains(r#"height = "30%""#), "{err}");
    assert!(err.contains("preview = false"), "{err}");
    assert!(err.contains(r#"preview_window = "down:40%""#), "{err}");
}

#[test]
fn a_picker_table_carrying_display_says_where_display_went() {
    let mut r = raw();
    r.picker = Some(RawSelector {
        display: Some(RepoDisplay::Tilde),
        ..RawSelector::default()
    });
    let err = refused(r);
    assert!(err.contains("`[picker]`"), "{err}");
    assert!(err.contains("[repo]"), "{err}");
}

#[test]
fn each_superseded_key_is_detected_alone() {
    let olds: Vec<(&str, RawToml)> = vec![
        ("root", {
            let mut r = raw();
            r.root = Some("~/src".to_string());
            r
        }),
        ("extra", {
            let mut r = raw();
            r.extra = Some(strings(&["~/bin"]));
            r
        }),
        ("ignore", {
            let mut r = raw();
            r.ignore = Some(strings(&["target"]));
            r
        }),
        ("editor", {
            let mut r = raw();
            r.editor = Some("nvim".to_string());
            r
        }),
        ("owners", {
            let mut r = raw();
            r.owners = Some(labels(&[("work", &["acme"])]));
            r
        }),
        ("display", {
            let mut r = raw();
            r.selector.display = Some(RepoDisplay::Tilde);
            r
        }),
    ];
    for (old, r) in olds {
        let err = refused(r);
        assert!(err.contains("old flat layout"), "{old} accepted: {err}");
    }
}

#[test]
fn the_current_layout_is_not_mistaken_for_the_old_one() {
    let mut r = raw();
    r.repo.root = Some("~/src".to_string());
    r.repo.display = RepoDisplay::Tilde;
    r.selector.height = Some("30%".to_string());
    r.selector.preview = Some(false);
    let cfg = parsed(r);
    assert_eq!(cfg.repo.display, RepoDisplay::Tilde);
    assert_eq!(cfg.selector.height, "30%");
    assert!(!cfg.selector.preview);
}

#[test]
fn parses_selector_height() {
    let mut r = raw();
    r.selector.height = Some("30%".to_string());
    assert_eq!(parsed(r).selector.height, "30%");
}

#[test]
fn parses_repo_display_mode() {
    let mut r = raw();
    r.repo.display = RepoDisplay::Tilde;
    assert_eq!(parsed(r).repo.display, RepoDisplay::Tilde);
}

#[test]
fn repo_display_defaults_to_relative() {
    assert_eq!(parsed(raw()).repo.display, RepoDisplay::Relative);
    assert_eq!(RepoConfig::default().display, RepoDisplay::Relative);
}

#[test]
fn parses_preview_settings() {
    let mut r = raw();
    r.selector.preview = Some(false);
    r.selector.preview_window = Some("down:40%".to_string());
    let cfg = parsed(r);
    assert!(!cfg.selector.preview);
    assert_eq!(cfg.selector.preview_window, "down:40%");
}

#[test]
fn preview_defaults_to_on_at_the_right() {
    let cfg = parsed(raw());
    assert!(cfg.selector.preview);
    assert_eq!(cfg.selector.preview_window, "right:50%");
}

#[test]
fn selector_height_defaults_to_50pct() {
    assert_eq!(parsed(raw()).selector.height, "50%");
    assert_eq!(selector_from(RawSelector::default()).height, "50%");
}

#[test]
fn toml_preserves_explicit_empty_ignore() {
    let mut r = raw();
    r.repo.ignore = Vec::new();
    assert!(parsed(r).repo.ignore.is_empty());
}

#[test]
fn a_paths_key_is_refused_before_a_picker_table() {
    let mut r = raw();
    r.paths = Some(LegacyPaths::Flat(vec![entry("~/bin", 0)]));
    r.picker = Some(RawSelector::default());
    r.root = Some("~/src".to_string());
    let err = refused(r);
    assert!(err.starts_with("this config uses the old `paths` format"), "{err}");
}

#[test]
fn a_flat_hint_is_written_out_exactly() {
    let hint = migration_hint(&LegacyPaths::Flat(vec![
        entry("~/dev/github.com/joakimen", 1),
        entry("~/bin", 0),
        entry("/x", 1),
    ]));
    assert_eq!(
        hint,
        "[repo]\nroot = \"~/dev/github.com\"\nextra = [\"~/bin\", \"/x\"]\nlabels = { personal = [\"joakimen\"] }\n"
    );
}

#[test]
fn a_tie_between_roots_goes_to_the_last_named() {
    let hint = migration_hint(&LegacyPaths::Flat(vec![
        entry("~/a/x", 1),
        entry("~/b/y", 1),
    ]));
    assert!(hint.starts_with("[repo]\nroot = \"~/b\"\n"), "{hint}");
}

#[test]
fn no_entries_give_the_default_root_and_nothing_else() {
    assert_eq!(
        migration_hint(&LegacyPaths::Flat(Vec::new())),
        "[repo]\nroot = \"~/dev/github.com\"\n"
    );
}

#[test]
fn the_paths_refusal_indents_the_replacement() {
    let err = legacy_paths_error(&LegacyPaths::Flat(vec![entry("~/bin", 0)]));
    assert!(
        err.contains("\n\n    [repo]\n    root = \"~/dev/github.com\"\n    extra = [\"~/bin\"]\n\n`extra` is for"),
        "{err}"
    );
}

#[test]
fn a_quote_in_a_path_is_escaped() {
    let hint = migration_hint(&LegacyPaths::Flat(vec![entry("a\"b", 0)]));
    assert!(hint.contains(r#"extra = ["a\"b"]"#), "{hint}");
}
