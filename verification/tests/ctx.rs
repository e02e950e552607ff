use scriv::config::Config;
use scriv::logger::{Level, Logger};
use scriv::{Ctx, Reported};

fn ctx(visual: Option<&str>, editor: Option<&str>, note: Option<&str>, gh: Option<&str>) -> Ctx {
    Ctx::new(
        "/home/user",
        "/home/user/src",
        "/home/user/.config/scriv/config.toml",
        None,
        None,
        3600,
        visual,
        editor,
        note,
        gh,
        false,
        true,
        Config::empty(),
    )
}

#[test]
fn the_paths_resolve_beside_the_config_file() {
    let c = ctx(None, None, None, None);
    assert_eq!(c.files_path, "/home/user/.config/scriv/files");
    assert_eq!(c.legacy_kf_path, "/home/user/.config/kf/config");
    assert_eq!(c.history_path, "/home/user/.local/share/fish/fish_history");
    assert_eq!(c.home_str(), "/home/user");
    assert_eq!(c.pwd_str(), "/home/user/src");
    assert_eq!(c.utc_offset(), 3600);
    assert!(!c.color());
}

#[test]
fn the_editor_is_visual_then_editor_split_into_words() {
    let c = ctx(Some(" code -w "), Some("vi"), None, None);
    assert_eq!(c.editor_setting(), Some("code -w"));
    assert_eq!(c.editor().unwrap(), vec!["code".to_string(), "-w".to_string()]);
    assert_eq!(c.note_editor_setting(), Some("code -w"));
}

#[test]
fn no_editor_is_an_error_that_says_what_to_set() {
    let c = ctx(None, Some("  "), None, None);
    assert_eq!(c.editor_setting(), None);
    assert_eq!(c.editor().unwrap_err(), "no editor set — set $VISUAL or $EDITOR");
    assert_eq!(
        c.note_editor().unwrap_err(),
        "no editor set — set `[note] editor`, $VISUAL or $EDITOR"
    );
}

#[test]
fn the_note_editor_comes_first_for_notes() {
    let c = ctx(None, Some("nvim"), Some("  glow -p "), None);
    assert_eq!(c.note_editor_setting(), Some("glow -p"));
    assert_eq!(c.note_editor().unwrap(), vec!["glow".to_string(), "-p".to_string()]);
    assert_eq!(c.editor().unwrap(), vec!["nvim".to_string()]);
    let blank = ctx(None, Some("nvim"), Some("   "), None);
    assert_eq!(blank.note_editor_setting(), Some("nvim"));
}

#[test]
fn a_blank_gh_repo_names_nothing() {
    assert_eq!(ctx(None, None, None, Some("  ")).gh_repo(), None);
    assert_eq!(ctx(None, None, None, Some("acme/site")).gh_repo(), Some("acme/site"));
}

#[test]
fn a_reported_failure_names_the_status() {
    assert_eq!(Reported(2).message(), "subprocess exited with status 2");
    assert_eq!(Reported(-1).message(), "subprocess exited with status -1");
}

#[test]
fn warnings_always_print_and_the_rest_only_when_verbose() {
    let quiet = Logger::new(false);
    assert_eq!(quiet.line(Level::Warn, "x").as_deref(), Some("warn: x"));
    assert_eq!(quiet.line(Level::Info, "x"), None);
    assert_eq!(quiet.line(Level::Debug, "x"), None);
    let loud = Logger::new(true);
    assert_eq!(loud.line(Level::Info, "y").as_deref(), Some("info: y"));
    assert_eq!(loud.line(Level::Debug, "z").as_deref(), Some("debug: z"));
}
