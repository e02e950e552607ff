//! The resolved runtime environment every command is handed: the paths the
//! configuration resolves to, the editor, the repository `GH_REPO` names, and
//! the configuration itself. Reading the environment and the config file is
//! the caller's; what the values mean is decided here.

use vstd::prelude::*;

use crate::config::{
    editor_of, files_path, files_path_of, legacy_kf_path, legacy_kf_path_of, opt_view, resolve_editor,
    split_editor, words, Config,
};
use crate::history::{history_path, history_path_of};
use crate::logger::Logger;
use crate::text::{is_blank, trim, trim_str};

verus! {

/// A subprocess that already explained its own failure on stderr, with the
/// status it exited with. Propagated instead of a message so the command exits
/// with the child's status without restating what the user just read.
#[derive(Debug)]
pub struct Reported(pub i32);

impl Reported {
    /// What is said of it where something has to be said.
    pub fn message(&self) -> (r: String)
        ensures
            r@ == "subprocess exited with status "@ + crate::proc::int_text(self.0 as int),
    {
        let mut out = String::from_str("subprocess exited with status ");
        crate::proc::push_int(&mut out, self.0);
        out
    }
}

/// The command `scriv note edit` launches: `[note] editor`, trimmed, where it
/// is not blank; else the editor.
pub open spec fn note_editor_of(configured: Option<Seq<char>>, editor: Option<Seq<char>>) -> Option<
    Seq<char>,
> {
    match configured {
        Some(c) => if trim(c).len() > 0 {
            Some(trim(c))
        } else {
            editor
        },
        None => editor,
    }
}

/// `GH_REPO`, where it is set to something other than blanks.
pub open spec fn gh_repo_of(value: Option<Seq<char>>) -> Option<Seq<char>> {
    match value {
        Some(v) => if trim(v).len() > 0 {
            Some(v)
        } else {
            None
        },
        None => None,
    }
}

/// What a command to launch is, split into program and arguments; or why
/// there is none.
pub open spec fn command_of(setting: Option<Seq<char>>, unset: Seq<char>, empty: Seq<char>) -> Result<
    Seq<Seq<char>>,
    Seq<char>,
> {
    match setting {
        None => Err(unset),
        Some(c) => if words(c).len() == 0 {
            Err(empty)
        } else {
            Ok(words(c))
        },
    }
}

fn opt_string(o: Option<&str>) -> (r: Option<String>)
    ensures
        match r {
            Some(s) => o is Some && s@ == o->0@,
            None => o is None,
        },
{
    match o {
        Some(s) => Some(String::from_str(s)),
        None => None,
    }
}

fn opt_ref(o: &Option<String>) -> (r: Option<&str>)
    ensures
        opt_view(r) == match o {
            Some(s) => Some(s@),
            None => None::<Seq<char>>,
        },
{
    match o {
        Some(s) => Some(s.as_str()),
        None => None,
    }
}

/// Resolved runtime environment shared by every command, built once and
/// passed by reference so the commands stay free of environment lookups.
pub struct Ctx {
    home: String,
    pwd: String,
    /// The resolved config file (`config.toml`, or a legacy `config.json`).
    pub config_path: String,
    /// The known-files list, beside the config file.
    pub files_path: String,
    /// The standalone `kf` tool's config, read once to migrate its list.
    pub legacy_kf_path: String,
    /// fish's history file, which `scriv history` reads.
    pub history_path: String,
    /// This machine's offset from UTC in seconds, for dating history entries.
    utc_offset: i32,
    editor: Option<String>,
    note_editor: Option<String>,
    gh_repo: Option<String>,
    color: bool,
    pub config: Config,
    pub log: Logger,
}

impl Ctx {
    pub closed spec fn config_path_view(&self) -> Seq<char> {
        self.config_path@
    }

    pub closed spec fn files_path_view(&self) -> Seq<char> {
        self.files_path@
    }

    pub closed spec fn legacy_kf_path_view(&self) -> Seq<char> {
        self.legacy_kf_path@
    }

    pub closed spec fn history_path_view(&self) -> Seq<char> {
        self.history_path@
    }

    pub closed spec fn config_view(&self) -> Config {
        self.config
    }

    pub closed spec fn log_view(&self) -> Logger {
        self.log
    }

    pub closed spec fn home_view(&self) -> Seq<char> {
        self.home@
    }

    pub closed spec fn pwd_view(&self) -> Seq<char> {
        self.pwd@
    }

    pub closed spec fn offset_view(&self) -> i32 {
        self.utc_offset
    }

    pub closed spec fn editor_view(&self) -> Option<Seq<char>> {
        match self.editor {
            Some(e) => Some(e@),
            None => None,
        }
    }

    pub closed spec fn note_editor_view(&self) -> Option<Seq<char>> {
        match self.note_editor {
            Some(e) => Some(e@),
            None => None,
        }
    }

    pub closed spec fn gh_repo_view(&self) -> Option<Seq<char>> {
        match self.gh_repo {
            Some(e) => Some(e@),
            None => None,
        }
    }

    pub closed spec fn color_view(&self) -> bool {
        self.color
    }

    /// Resolve the environment around a loaded configuration: the known-files
    /// list beside the config file, the legacy `kf` list, fish's history file,
    /// the editor (`$VISUAL`, then `$EDITOR`), the note editor (`[note]
    /// editor` first) and `GH_REPO`.
    pub fn new(
        home: &str,
        pwd: &str,
        config_path: &str,
        xdg_env: Option<&str>,
        xdg_data_env: Option<&str>,
        utc_offset: i32,
        visual: Option<&str>,
        editor_env: Option<&str>,
        note_editor: Option<&str>,
        gh_repo_env: Option<&str>,
        color: bool,
        verbose: bool,
        config: Config,
    ) -> (r: Self)
        ensures
            r.home_view() == home@,
            r.pwd_view() == pwd@,
            r.config_path_view() == config_path@,
            r.files_path_view() == files_path_of(config_path@),
            r.legacy_kf_path_view() == legacy_kf_path_of(opt_view(xdg_env), home@),
            r.history_path_view() == history_path_of(
                match config.history.file {
                    Some(f) => Some(f@),
                    None => None,
                },
                opt_view(xdg_data_env),
                home@,
            ),
            r.offset_view() == utc_offset,
            r.editor_view() == editor_of(opt_view(visual), opt_view(editor_env)),
            r.note_editor_view() == note_editor_of(
                opt_view(note_editor),
                editor_of(opt_view(visual), opt_view(editor_env)),
            ),
            r.gh_repo_view() == gh_repo_of(opt_view(gh_repo_env)),
            r.color_view() == color,
            r.config_view() == config,
            r.log_view().is_verbose() == verbose,
    {
        let files = files_path(config_path);
        let kf = legacy_kf_path(xdg_env, home);
        let history = history_path(opt_ref(&config.history.file), xdg_data_env, home);
        let editor = resolve_editor(visual, editor_env);
        let note = match note_editor {
            Some(c) => {
                if !is_blank(c) {
                    Some(String::from_str(trim_str(c)))
                } else {
                    match &editor {
                        Some(e) => Some(e.clone()),
                        None => None,
                    }
                }
            },
            None => match &editor {
                Some(e) => Some(e.clone()),
                None => None,
            },
        };
        let gh = match gh_repo_env {
            Some(v) => if is_blank(v) {
                None
            } else {
                Some(String::from_str(v))
            },
            None => None,
        };
        Ctx {
            home: String::from_str(home),
            pwd: String::from_str(pwd),
            config_path: String::from_str(config_path),
            files_path: files,
            legacy_kf_path: kf,
            history_path: history,
            utc_offset,
            editor,
            note_editor: note,
            gh_repo: gh,
            color,
            config,
            log: Logger::new(verbose),
        }
    }

    /// Whether printed output carries ANSI colour.
    pub fn color(&self) -> (r: bool)
        ensures
            r == self.color_view(),
    {
        self.color
    }

    /// The resolved editor command, or `None` when nothing is set.
    pub fn editor_setting(&self) -> (r: Option<&str>)
        ensures
            opt_view(r) == self.editor_view(),
    {
        opt_ref(&self.editor)
    }

    /// The editor command to launch, split into program and arguments.
    pub fn editor(&self) -> (r: Result<Vec<String>, String>)
        ensures
            match r {
                Ok(v) => command_of(
                    self.editor_view(),
                    "no editor set — set $VISUAL or $EDITOR"@,
                    "the configured editor is empty"@,
                ) == Ok::<_, Seq<char>>(v@.map_values(|w: String| w@)),
                Err(e) => command_of(
                    self.editor_view(),
                    "no editor set — set $VISUAL or $EDITOR"@,
                    "the configured editor is empty"@,
                ) == Err::<Seq<Seq<char>>, _>(e@),
            },
    {
        match &self.editor {
            None => Err(String::from_str("no editor set — set $VISUAL or $EDITOR")),
            Some(command) => {
                let parts = split_editor(command.as_str());
                if parts.len() == 0 {
                    Err(String::from_str("the configured editor is empty"))
                } else {
                    Ok(parts)
                }
            },
        }
    }

    /// The command `scriv note edit` launches, or `None` when neither
    /// `[note] editor` nor the environment names one.
    pub fn note_editor_setting(&self) -> (r: Option<&str>)
        ensures
            opt_view(r) == self.note_editor_view(),
    {
        opt_ref(&self.note_editor)
    }

    /// The command `scriv note edit` launches, split into program and
    /// arguments.
    pub fn note_editor(&self) -> (r: Result<Vec<String>, String>)
        ensures
            match r {
                Ok(v) => command_of(
                    self.note_editor_view(),
                    "no editor set — set `[note] editor`, $VISUAL or $EDITOR"@,
                    "the configured note editor is empty"@,
                ) == Ok::<_, Seq<char>>(v@.map_values(|w: String| w@)),
                Err(e) => command_of(
                    self.note_editor_view(),
                    "no editor set — set `[note] editor`, $VISUAL or $EDITOR"@,
                    "the configured note editor is empty"@,
                ) == Err::<Seq<Seq<char>>, _>(e@),
            },
    {
        match &self.note_editor {
            None => Err(String::from_str("no editor set — set `[note] editor`, $VISUAL or $EDITOR")),
            Some(command) => {
                let parts = split_editor(command.as_str());
                if parts.len() == 0 {
                    Err(String::from_str("the configured note editor is empty"))
                } else {
                    Ok(parts)
                }
            },
        }
    }

    /// The repository `GH_REPO` names, if it names one.
    pub fn gh_repo(&self) -> (r: Option<&str>)
        ensures
            opt_view(r) == self.gh_repo_view(),
    {
        opt_ref(&self.gh_repo)
    }

    /// This machine's offset from UTC in seconds, resolved once at startup.
    pub fn utc_offset(&self) -> (r: i32)
        ensures
            r == self.offset_view(),
    {
        self.utc_offset
    }

    pub fn home_str(&self) -> (r: &str)
        ensures
            r@ == self.home_view(),
    {
        self.home.as_str()
    }

    pub fn pwd_str(&self) -> (r: &str)
        ensures
            r@ == self.pwd_view(),
    {
        self.pwd.as_str()
    }
}

} // verus!
