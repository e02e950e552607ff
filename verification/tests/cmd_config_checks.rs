use scriv::config::Config;
use indexmap::IndexMap;
use scriv::binding::{example_bindings, resolve};
use scriv::cmd::config::{
    check_listing, collect, config_check, Found, Probe, discovery_check, editor_check, editor_on_path, editor_program, files_check,
    gh_check, history_check, init_paths, init_refusal, installed, root_checks, shell_check, tool_check, wants_discovery, Check, FileRead,
    Section, Status,
};
use scriv::config::{RepoConfig, ShellConfig};

fn table(entries: &[(&str, &str)]) -> IndexMap<String, String> {
    entries
        .iter()
        .map(|(k, v)| (k.to_string(), v.to_string()))
        .collect()
}

#[test]
fn a_binding_that_names_nothing_fails_the_shell_row() {
    let sound_config = ShellConfig {
        bindings: Some(table(&example_bindings())),
        aliases: None,
    };
    let sound = shell_check(&sound_config);
    assert_eq!(sound.status, Status::Pass);
    assert!(sound.detail.contains("10 key bindings"), "{}", sound.detail);
    assert_eq!(sound.detail, "10 key bindings, 0 aliases");

    let broken_config = ShellConfig {
        bindings: Some(table(&[("f6", "repo-jump")])),
        aliases: None,
    };
    let broken = shell_check(&broken_config);
    assert_eq!(broken.status, Status::Fail);
    assert!(broken.detail.contains("f6"), "{}", broken.detail);
    assert!(broken.detail.contains("repo-jump"), "{}", broken.detail);
    assert_eq!(
        broken.detail,
        "`f6` names `repo-jump` — no such action, and `scriv init` refuses until there is"
    );
}

#[test]
fn an_alias_naming_nothing_is_listed_after_the_bindings() {
    let cfg = ShellConfig {
        bindings: Some(table(&[("f6", "nope"), ("f1", "repo-open")])),
        aliases: Some(table(&[("x", "gone"), ("fe", "edit")])),
    };
    let c = shell_check(&cfg);
    assert_eq!(c.status, Status::Fail);
    assert_eq!(
        c.detail,
        "`f6` names `nope`, `x` names `gone` — no such action, and `scriv init` refuses until there is"
    );
    let one = shell_check(&ShellConfig {
        bindings: None,
        aliases: Some(table(&[("fe", "edit")])),
    });
    assert_eq!(one.detail, "0 key bindings, 1 alias");
}

#[test]
fn a_tool_reports_its_version_or_what_its_absence_costs() {
    let git = tool_check("git", true, Some("git version 2.51.0"), true, "needed");
    assert_eq!((git.status, git.detail.as_str()), (Status::Pass, "2.51.0"));
    let quiet = tool_check("ps", true, Some("usage: ps [-A]"), true, "needed");
    assert_eq!(quiet.detail, "installed");
    let silent = tool_check("ps", true, None, true, "needed");
    assert_eq!(silent.detail, "installed");
    let missing = tool_check("git", false, None, true, "`branch` cannot work without it");
    assert_eq!(missing.status, Status::Fail);
    assert_eq!(missing.detail, "not on PATH — `branch` cannot work without it");
    let optional = tool_check("bat", false, None, false, "previews fall back");
    assert_eq!(optional.status, Status::Warn);
    assert_eq!(installed(Some("ripgrep v15.2.0")), "15.2.0");
}

#[test]
fn gh_missing_is_a_warning_and_gh_present_names_its_version() {
    let missing = gh_check(false, None, false);
    assert_eq!(missing.status, Status::Warn);
    assert_eq!(
        missing.detail,
        "not on PATH — only `pr` and `repo clone`/`open` need it (https://cli.github.com)"
    );
    let ok = gh_check(true, Some("gh version 2.97.0 (2026-07-31)"), true);
    assert_eq!((ok.status, ok.detail.as_str()), (Status::Pass, "2.97.0, authenticated"));
    let out = gh_check(true, Some("gh version 2.97.0"), false);
    assert_eq!(out.status, Status::Warn);
    assert!(out.detail.contains("gh auth login"));
}

#[test]
fn a_missing_config_file_is_a_warning_with_the_way_out() {
    assert_eq!(config_check(true, "/c/config.toml").status, Status::Pass);
    let c = config_check(false, "/c/config.toml");
    assert_eq!(c.status, Status::Warn);
    assert_eq!(c.detail, "/c/config.toml not found — run `scriv config init`");
}

#[test]
fn root_rows_follow_what_is_configured() {
    let mut repo = RepoConfig::default();
    let c = root_checks(&repo, "/home/u", false, &vec![]);
    assert_eq!(c.len(), 1);
    assert_eq!(c[0].status, Status::Fail);

    repo.extra = vec!["~/bin".to_string(), "/opt/x".to_string()];
    let c = root_checks(&repo, "/home/u", false, &vec![true, true]);
    assert_eq!(c[0].status, Status::Warn);
    assert_eq!(c[0].detail, "not set; only `extra` is searched");
    assert_eq!((c[1].name, c[1].status, c[1].detail.as_str()), ("repo extra", Status::Pass, "2 paths"));

    let c = root_checks(&repo, "/home/u", false, &vec![false, true]);
    assert_eq!(c[1].status, Status::Fail);
    assert_eq!(c[1].detail, "missing: ~/bin");

    repo.root = Some("~/dev".to_string());
    repo.extra = vec![];
    let c = root_checks(&repo, "/home/u", false, &vec![]);
    assert_eq!(c.len(), 1);
    assert_eq!(c[0].detail, "/home/u/dev is not a directory");
    let c = root_checks(&repo, "/home/u", true, &vec![]);
    assert_eq!((c[0].status, c[0].detail.as_str()), (Status::Pass, ""));
}

#[test]
fn discovery_runs_only_where_there_is_somewhere_sound_to_look() {
    let mut repo = RepoConfig::default();
    assert!(!wants_discovery(true, &repo));
    repo.root = Some("~/dev".to_string());
    assert!(wants_discovery(true, &repo));
    assert!(!wants_discovery(false, &repo));

    assert_eq!(discovery_check(Ok(0)).status, Status::Warn);
    assert_eq!(discovery_check(Ok(12)).detail, "12 found");
    let failed = discovery_check(Err("root path /x".to_string()));
    assert_eq!((failed.status, failed.detail.as_str()), (Status::Fail, "root path /x"));
}

#[test]
fn an_editor_is_looked_for_by_its_program_alone() {
    assert_eq!(editor_program("code -w"), "code");
    assert_eq!(editor_program("hx"), "hx");
    let found = editor_check(Some("code -w"), Some("/usr/bin/code"));
    assert_eq!((found.status, found.detail.as_str()), (Status::Pass, "/usr/bin/code"));
    let missing = editor_check(Some("code -w"), None);
    assert_eq!(missing.detail, "`code` is not on PATH");
    assert_eq!(missing.status, Status::Fail);
    let unset = editor_check(None, None);
    assert_eq!(unset.status, Status::Warn);
    let note = editor_on_path("note editor", "nvim", None);
    assert_eq!((note.name, note.detail.as_str()), ("note editor", "`nvim` is not on PATH"));
}

#[test]
fn the_history_row_counts_distinct_commands() {
    let text = "- cmd: ls\n  when: 1\n- cmd: ls\n  when: 2\n- cmd: pwd\n  when: 3\n".to_string();
    let c = history_check("~/h", &FileRead::Text(text));
    assert_eq!((c.status, c.detail.as_str()), (Status::Pass, "2 unique commands"));
    let gone = history_check("~/h", &FileRead::NotFound);
    assert_eq!(gone.status, Status::Warn);
    assert_eq!(gone.detail, "~/h not found — set `[history] file` if yours is elsewhere");
    let broken = history_check("~/h", &FileRead::Failed("denied".to_string()));
    assert_eq!((broken.status, broken.detail.as_str()), (Status::Fail, "~/h: denied"));
}

#[test]
fn the_files_row_says_how_much_is_left_on_disk() {
    let lines = vec!["~/a".to_string(), "~/b".to_string()];
    assert_eq!(files_check(Ok(&lines), 0).detail, "2 tracked");
    let some = files_check(Ok(&lines), 1);
    assert_eq!(some.status, Status::Warn);
    assert_eq!(some.detail, "2 tracked, 1 no longer on disk — see `scriv file ls --missing`");
    let none = files_check(Ok(&vec![]), 0);
    assert_eq!(none.detail, "none yet — add one with `scriv file add`");
    assert_eq!(files_check(Err("unreadable"), 0).status, Status::Fail);
}

#[test]
fn the_report_lists_sections_then_what_it_came_to() {
    let sections = vec![
        Section {
            title: "configuration",
            checks: vec![Check::ok("config file", ""), Check::fail("repo root", "not set")],
        },
        Section {
            title: "tools",
            checks: vec![Check::warn("gh", "not on PATH")],
        },
    ];
    let (lines, failed) = check_listing(&sections);
    assert_eq!(failed, 1);
    assert_eq!(
        lines,
        vec![
            "configuration",
            "  ✓ config file",
            "  ✗ repo root    not set",
            "",
            "tools",
            "  ! gh           not on PATH",
            "",
            "3 checks · 1 failed · 1 to look at",
        ]
    );
    let (_, failed) = check_listing(&vec![Section {
        title: "tools",
        checks: vec![Check::warn("gh", "x")],
    }]);
    assert_eq!(failed, 0, "a warning does not fail the run");
}

#[test]
fn init_writes_beside_the_resolved_config_and_overwrites_nothing_unasked() {
    assert_eq!(
        init_paths("/c/scriv/config.json"),
        ("/c/scriv/config.toml".to_string(), "/c/scriv/config.json".to_string())
    );
    assert_eq!(init_paths("config.toml"), ("./config.toml".to_string(), "./config.json".to_string()));
    assert_eq!(init_refusal(true, true, true, "/t", "/l"), None);
    assert_eq!(init_refusal(false, false, false, "/t", "/l"), None);
    assert_eq!(
        init_refusal(false, true, true, "/t", "/l").unwrap(),
        "configuration already exists at /t (pass --force to overwrite)"
    );
    assert_eq!(
        init_refusal(false, false, true, "/t", "/l").unwrap(),
        "a legacy JSON configuration already exists at /l; pass --force to write config.toml alongside it"
    );
}

#[test]
fn the_shell_row_passes_exactly_when_init_would_resolve() {
    let configs = vec![
        ShellConfig { bindings: None, aliases: None },
        ShellConfig { bindings: Some(table(&example_bindings())), aliases: None },
        ShellConfig { bindings: Some(table(&[("f6", "nope")])), aliases: None },
        ShellConfig { bindings: None, aliases: Some(table(&[("x", "gone")])) },
    ];
    for cfg in &configs {
        let passes = shell_check(cfg).status == Status::Pass;
        assert_eq!(passes, resolve(cfg).is_ok());
    }
}

fn nothing_found() -> Probe {
    Probe { found: false, first_line: None }
}

#[test]
fn the_report_is_configuration_then_tools_then_content() {
    let mut cfg = Config::default();
    cfg.repo.root = Some("~/dev".to_string());
    let found = Found {
        config_exists: true,
        config_path: "/c/config.toml".to_string(),
        root_is_dir: true,
        extra_is_dir: vec![],
        discovered: Some(Ok(3)),
        editor_found: Some("/usr/bin/nvim".to_string()),
        git: Probe { found: true, first_line: Some("git version 2.51.0".to_string()) },
        gh: nothing_found(),
        gh_authenticated: false,
        tools: (0..4).map(|_| nothing_found()).collect(),
        history_path: "~/h".to_string(),
        history: FileRead::NotFound,
        files: Ok(vec![]),
        files_missing: 0,
    };
    let sections = collect(&cfg, Some("nvim"), "/home/u", &found);
    let titles: Vec<&str> = sections.iter().map(|s| s.title).collect();
    assert_eq!(titles, vec!["configuration", "tools", "content"]);
    let names = |i: usize| sections[i].checks.iter().map(|c| c.name).collect::<Vec<_>>();
    assert_eq!(names(0), vec!["config file", "repo root", "repositories", "shell integration"]);
    assert_eq!(names(1), vec!["editor", "git", "gh", "bat", "rg", "ps", "mise"]);
    assert_eq!(names(2), vec!["fish history", "tracked files"]);
    assert_eq!(sections[0].checks[2].detail, "3 found");
    assert_eq!(sections[1].checks[1].detail, "2.51.0");
    assert_eq!(sections[1].checks[5].status, Status::Fail, "ps is required");
    assert_eq!(sections[1].checks[3].status, Status::Warn, "bat is not");

    let unset = Found { discovered: None, ..found };
    let sections = collect(&Config::default(), None, "/home/u", &unset);
    let names: Vec<&str> = sections[0].checks.iter().map(|c| c.name).collect();
    assert_eq!(names, vec!["config file", "repo root", "shell integration"], "nowhere to look, nothing discovered");
}
