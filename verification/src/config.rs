//! Configuration: the settings a command reads, where the config file is
//! looked for, and which editor is launched.
//!
//! Path resolution takes the environment and home values as arguments, and
//! whether a file exists as a function, so the precedence rules are decisions
//! rather than lookups.

use vstd::prelude::*;

use indexmap::IndexMap;

use crate::path::{expand_home_dir, expanded_home_dir, join_path, join_path_str};
use crate::files::strs;
use crate::text::{
    chars_of, is_ws, join, join_strings, lines, lines_of, push_range, rfind_in, rsplit_once, string_of, trim,
    trimmed, ws,
};

verus! {

/// Overrides the resolved config file path when set.
pub const CONFIG_ENV_VAR: &'static str = "SCRIV_CONFIG";

/// Base directory for the default config location, per the XDG spec.
pub const XDG_ENV_VAR: &'static str = "XDG_CONFIG_HOME";

/// How deep below the repository root a repository sits: `<root>/<owner>/<repo>`.
pub const ROOT_DEPTH: usize = 2;

/// Stand-in label for a repository whose owner carries no configured label.
pub const UNLABELLED: &'static str = "-";

/// `[history]` — which shell history `scriv history` searches.
#[derive(Debug, Clone, PartialEq, Eq, Default)]
pub struct HistoryConfig {
    /// fish's history file, when it is not the default
    /// `$XDG_DATA_HOME/fish/fish_history`.
    pub file: Option<String>,
}

/// One entry of the `paths` key the config format before `root` had.
#[derive(Debug, Clone, PartialEq, Eq)]
pub struct PathEntry {
    pub path: String,
    pub depth: usize,
}

/// Settings for the fuzzy selector every command opens.
#[derive(Debug, Clone, PartialEq, Eq)]
pub struct SelectorConfig {
    /// Finder height, e.g. `"50%"` or `"20"`.
    pub height: String,
    /// Whether the selector shows a preview pane for the highlighted row.
    pub preview: bool,
    /// Preview pane layout, e.g. `"right:50%"`.
    pub preview_window: String,
}

impl Default for SelectorConfig {
    fn default() -> (r: Self)
        ensures
            r.height@ == "50%"@,
            r.preview,
            r.preview_window@ == "right:50%"@,
    {
        SelectorConfig {
            height: String::from_str("50%"),
            preview: true,
            preview_window: String::from_str("right:50%"),
        }
    }
}

/// How `repo ls`/`sel` renders each repository's path.
#[derive(Debug, Clone, Copy, PartialEq, Eq, Structural)]
pub enum RepoDisplay {
    /// Path relative to the search root it was found under. The default.
    Relative,
    /// Absolute path with the home directory collapsed to `~`.
    Tilde,
    /// The full absolute path.
    Full,
}

impl Default for RepoDisplay {
    fn default() -> (r: Self)
        ensures
            r == RepoDisplay::Relative,
    {
        RepoDisplay::Relative
    }
}

impl RepoDisplay {
    /// The name this mode is written under in the config file.
    pub fn as_str(self) -> (r: &'static str)
        ensures
            r@ == (match self {
                RepoDisplay::Relative => "relative"@,
                RepoDisplay::Tilde => "tilde"@,
                RepoDisplay::Full => "full"@,
            }),
    {
        match self {
            RepoDisplay::Relative => "relative",
            RepoDisplay::Tilde => "tilde",
            RepoDisplay::Full => "full",
        }
    }
}

// --- the editor -------------------------------------------------------------

/// The editor: `$VISUAL`, then `$EDITOR`, each trimmed, a blank one counting as
/// unset.
pub open spec fn editor_of(visual: Option<Seq<char>>, editor: Option<Seq<char>>) -> Option<Seq<char>> {
    let v = match visual {
        Some(v) => trim(v),
        None => Seq::empty(),
    };
    let e = match editor {
        Some(e) => trim(e),
        None => Seq::empty(),
    };
    if v.len() > 0 {
        Some(v)
    } else if e.len() > 0 {
        Some(e)
    } else {
        None
    }
}

pub open spec fn opt_view(o: Option<&str>) -> Option<Seq<char>> {
    match o {
        Some(s) => Some(s@),
        None => None,
    }
}

/// Select the editor `scriv edit` launches: `$VISUAL`, then `$EDITOR` — the
/// order every other terminal tool uses. Blank and whitespace-only values count
/// as unset: `EDITOR=""` is a common way to say "no editor".
pub fn resolve_editor(visual: Option<&str>, editor: Option<&str>) -> (r: Option<String>)
    ensures
        match r {
            Some(x) => editor_of(opt_view(visual), opt_view(editor)) == Some(x@),
            None => editor_of(opt_view(visual), opt_view(editor)) is None,
        },
{
    match visual {
        Some(v) => {
            let t = trimmed(v);
            if t.unicode_len() > 0 {
                return Some(t);
            }
        },
        None => {},
    }
    match editor {
        Some(e) => {
            let t = trimmed(e);
            if t.unicode_len() > 0 {
                return Some(t);
            }
        },
        None => {},
    }
    None
}

/// Reading text into words: the words finished so far, and the one being read.
pub open spec fn word_step(st: (Seq<Seq<char>>, Seq<char>), c: char) -> (Seq<Seq<char>>, Seq<char>) {
    if is_ws(c) {
        if st.1.len() > 0 {
            (st.0.push(st.1), Seq::empty())
        } else {
            st
        }
    } else {
        (st.0, st.1.push(c))
    }
}

pub open spec fn word_fold(s: Seq<char>) -> (Seq<Seq<char>>, Seq<char>)
    decreases s.len(),
{
    if s.len() == 0 {
        (Seq::empty(), Seq::empty())
    } else {
        word_step(word_fold(s.drop_last()), s.last())
    }
}

/// `str::split_whitespace`: the maximal runs of characters that are not
/// whitespace, in order.
pub open spec fn words(s: Seq<char>) -> Seq<Seq<char>> {
    let st = word_fold(s);
    if st.1.len() > 0 {
        st.0.push(st.1)
    } else {
        st.0
    }
}

/// The words of `s`.
pub fn split_words(s: &str) -> (r: Vec<String>)
    ensures
        r@.map_values(|w: String| w@) == words(s@),
{
    let v = chars_of(s);
    let mut done: Vec<String> = Vec::new();
    let mut cur = String::new();
    let mut i: usize = 0;
    while i < v.len()
        invariant
            v@ == s@,
            i <= v@.len(),
            (done@.map_values(|w: String| w@), cur@) == word_fold(v@.take(i as int)),
        decreases v@.len() - i,
    {
        assert(v@.take(i + 1).drop_last() =~= v@.take(i as int));
        assert(v@.take(i + 1).last() == v@[i as int]);
        let c = v[i];
        if ws(c) {
            if cur.unicode_len() > 0 {
                let ghost before = done@.map_values(|w: String| w@);
                let word = cur;
                cur = String::new();
                done.push(word);
                assert(done@.map_values(|w: String| w@) =~= before.push(word@));
            }
        } else {
            crate::text::push_char(&mut cur, c);
        }
        i += 1;
    }
    assert(v@.take(v@.len() as int) =~= v@);
    if cur.unicode_len() > 0 {
        let ghost before = done@.map_values(|w: String| w@);
        let word = cur;
        done.push(word);
        assert(done@.map_values(|w: String| w@) =~= before.push(word@));
    }
    done
}

/// Split an editor command into program and arguments on whitespace, so
/// `EDITOR="code -w"` spawns `code` with `-w`. Whitespace is the whole of the
/// syntax — no quoting, no escapes.
pub fn split_editor(command: &str) -> (r: Vec<String>)
    ensures
        r@.map_values(|w: String| w@) == words(command@),
{
    split_words(command)
}

// --- where the config lives -------------------------------------------------

/// `$XDG_CONFIG_HOME` when it is set and not empty, else `~/.config`.
pub open spec fn xdg_base_of(xdg: Option<Seq<char>>, home: Seq<char>) -> Seq<char> {
    match xdg {
        Some(x) => if x.len() > 0 {
            x
        } else {
            join_path(home, ".config"@)
        },
        None => join_path(home, ".config"@),
    }
}

/// The directory holding `config.toml` and `files`.
pub open spec fn config_dir_of(xdg: Option<Seq<char>>, home: Seq<char>) -> Seq<char> {
    join_path(xdg_base_of(xdg, home), "scriv"@)
}

fn xdg_base(xdg_env: Option<&str>, home: &str) -> (r: String)
    ensures
        r@ == xdg_base_of(opt_view(xdg_env), home@),
{
    match xdg_env {
        Some(x) => {
            if x.unicode_len() > 0 {
                return String::from_str(x);
            }
        },
        None => {},
    }
    join_path_str(home, ".config")
}

/// The directory holding `config.toml` and `files`: `$XDG_CONFIG_HOME/scriv`,
/// falling back to `~/.config/scriv`.
pub fn config_dir(xdg_env: Option<&str>, home: &str) -> (r: String)
    ensures
        r@ == config_dir_of(opt_view(xdg_env), home@),
{
    let base = xdg_base(xdg_env, home);
    join_path_str(base.as_str(), "scriv")
}

/// A flag or environment value that is set and not empty.
pub open spec fn given(o: Option<Seq<char>>) -> bool {
    o matches Some(s) && s.len() > 0
}

/// Resolve the config file path by precedence: explicit `flag` >
/// `SCRIV_CONFIG` > `config.toml` > legacy `config.json`, each of the first two
/// with a leading `~` expanded.
///
/// `present` reports whether a candidate path is present. When neither default
/// candidate is, the TOML path is returned so callers and error messages name
/// the file the user is expected to create. `present` is asked about the TOML
/// path first, and about the JSON path only when the TOML path is not there.
pub fn resolve_config_path<F: Fn(&str) -> bool>(
    flag: Option<&str>,
    scriv_env: Option<&str>,
    xdg_env: Option<&str>,
    home: &str,
    present: F,
) -> (r: String)
    requires
        forall|p: &str| #[trigger] present.requires((p,)),
    ensures
        given(opt_view(flag)) ==> r@ == expanded_home_dir(opt_view(flag).unwrap(), home@),
        !given(opt_view(flag)) && given(opt_view(scriv_env)) ==> r@ == expanded_home_dir(
            opt_view(scriv_env).unwrap(),
            home@,
        ),
        !given(opt_view(flag)) && !given(opt_view(scriv_env)) ==> {
            let toml = join_path(config_dir_of(opt_view(xdg_env), home@), "config.toml"@);
            let json = join_path(config_dir_of(opt_view(xdg_env), home@), "config.json"@);
            ||| (r@ == toml && exists|t: &str| t@ == toml && #[trigger] present.ensures((t,), true))
            ||| (r@ == json && exists|t: &str, j: &str|
                t@ == toml && j@ == json && #[trigger] present.ensures((t,), false)
                    && #[trigger] present.ensures((j,), true))
            ||| (r@ == toml && exists|t: &str, j: &str|
                t@ == toml && j@ == json && #[trigger] present.ensures((t,), false)
                    && #[trigger] present.ensures((j,), false))
        },
{
    match flag {
        Some(f) => {
            if f.unicode_len() > 0 {
                return expand_home_dir(f, home);
            }
        },
        None => {},
    }
    match scriv_env {
        Some(e) => {
            if e.unicode_len() > 0 {
                return expand_home_dir(e, home);
            }
        },
        None => {},
    }
    let dir = config_dir(xdg_env, home);
    let toml_path = join_path_str(dir.as_str(), "config.toml");
    let t = toml_path.as_str();
    let toml_there = present(t);
    if toml_there {
        assert(present.ensures((t,), true));
        return toml_path;
    }
    let json_path = join_path_str(dir.as_str(), "config.json");
    let j = json_path.as_str();
    let json_there = present(j);
    assert(present.ensures((t,), false));
    if json_there {
        assert(present.ensures((j,), true));
        return json_path;
    }
    assert(present.ensures((j,), false));
    toml_path
}

/// The directory `path` is in, as `Path::parent` reads it: what precedes the
/// last separator once trailing ones are dropped, `/` for an entry at the root,
/// and empty for a bare name. `None` for the root and for an empty path.
pub open spec fn parent_of(path: Seq<char>) -> Option<Seq<char>> {
    let t = trim_slashes(path);
    if t.len() == 0 {
        None
    } else {
        match rsplit_once(t, '/') {
            Some((dir, _)) => if trim_slashes(dir).len() == 0 {
                Some(seq!['/'])
            } else {
                Some(trim_slashes(dir))
            },
            None => Some(Seq::empty()),
        }
    }
}

/// `path` without its trailing separators.
pub open spec fn trim_slashes(path: Seq<char>) -> Seq<char>
    decreases path.len(),
{
    if path.len() > 0 && path.last() == '/' {
        trim_slashes(path.drop_last())
    } else {
        path
    }
}

pub(crate) fn slashless_end(v: &Vec<char>, hi: usize) -> (b: usize)
    requires
        hi <= v@.len(),
    ensures
        b <= hi,
        v@.subrange(0, b as int) == trim_slashes(v@.subrange(0, hi as int)),
{
    let mut i = hi;
    while i > 0 && v[i - 1] == '/'
        invariant
            i <= hi <= v@.len(),
            trim_slashes(v@.subrange(0, i as int)) == trim_slashes(v@.subrange(0, hi as int)),
        decreases i,
    {
        assert(v@.subrange(0, i as int).drop_last() =~= v@.subrange(0, i - 1));
        i -= 1;
    }
    i
}

/// The directory `path` is in — see [`parent_of`].
pub fn parent(path: &str) -> (r: Option<String>)
    ensures
        match r {
            Some(x) => parent_of(path@) == Some(x@),
            None => parent_of(path@) is None,
        },
{
    let v = chars_of(path);
    assert(v@.subrange(0, v@.len() as int) =~= v@);
    let end = slashless_end(&v, v.len());
    if end == 0 {
        return None;
    }
    let ghost t = v@.subrange(0, end as int);
    proof {
        t.index_of_last_ensures('/');
    }
    match crate::text::rfind_in(&v, 0, end, '/') {
        Some(k) => {
            assert(t.subrange(0, k as int) =~= v@.subrange(0, k as int));
            let d = slashless_end(&v, k);
            if d == 0 {
                let mut root = String::new();
                crate::text::push_char(&mut root, '/');
                assert(root@ =~= seq!['/']);
                Some(root)
            } else {
                Some(crate::text::string_of(&v, 0, d))
            }
        },
        None => Some(String::new()),
    }
}

pub open spec fn files_path_of(config_path: Seq<char>) -> Seq<char> {
    let dir = match parent_of(config_path) {
        Some(p) => if p.len() > 0 {
            p
        } else {
            seq!['.']
        },
        None => seq!['.'],
    };
    join_path(dir, "files"@)
}

/// The known-files list, kept beside the config file it belongs to: `files` in
/// the config file's directory, or in `.` for a config file with none.
pub fn files_path(config_path: &str) -> (r: String)
    ensures
        r@ == files_path_of(config_path@),
{
    let mut dot = String::new();
    crate::text::push_char(&mut dot, '.');
    assert(dot@ =~= seq!['.']);
    let dir = match parent(config_path) {
        Some(p) => if p.unicode_len() > 0 {
            p
        } else {
            dot
        },
        None => dot,
    };
    join_path_str(dir.as_str(), "files")
}

pub open spec fn legacy_kf_path_of(xdg: Option<Seq<char>>, home: Seq<char>) -> Seq<char> {
    join_path(join_path(xdg_base_of(xdg, home), "kf"@), "config"@)
}

/// The standalone `kf` tool's config location, read once to migrate its list.
pub fn legacy_kf_path(xdg_env: Option<&str>, home: &str) -> (r: String)
    ensures
        r@ == legacy_kf_path_of(opt_view(xdg_env), home@),
{
    let base = xdg_base(xdg_env, home);
    let kf = join_path_str(base.as_str(), "kf");
    join_path_str(kf.as_str(), "config")
}

/// The directory names repository search skips unless configured otherwise.
pub fn default_ignored_dirs() -> (r: Vec<String>)
    ensures
        r@.map_values(|d: String| d@) == seq!["node_modules"@, "vendor"@, "dist"@, "build"@, "target"@],
{
    let mut dirs: Vec<String> = Vec::new();
    dirs.push(String::from_str("node_modules"));
    dirs.push(String::from_str("vendor"));
    dirs.push(String::from_str("dist"));
    dirs.push(String::from_str("build"));
    dirs.push(String::from_str("target"));
    assert(dirs@.map_values(|d: String| d@) =~= seq![
        "node_modules"@,
        "vendor"@,
        "dist"@,
        "build"@,
        "target"@,
    ]);
    dirs
}

// --- ordered tables ---------------------------------------------------------

#[verifier::external_type_specification]
#[verifier::external_body]
#[verifier::reject_recursive_types(K)]
#[verifier::reject_recursive_types(V)]
#[verifier::reject_recursive_types(S)]
pub struct ExIndexMap<K, V, S>(IndexMap<K, V, S>);

/// Owner labels: a label to the GitHub owners it covers, in the order they
/// were written.
pub type Labels = IndexMap<String, Vec<String>>;

/// A `[shell]` table: a key or a name to the action it runs, in the order
/// written.
pub type Bindings = IndexMap<String, String>;

/// What a labels table holds, in order: each label and the owners it covers.
pub uninterp spec fn label_table(m: IndexMap<String, Vec<String>>) -> Seq<(Seq<char>, Seq<Seq<char>>)>;

/// What a `[shell]` table holds, in order: each key and the action it names.
pub uninterp spec fn binding_table(m: IndexMap<String, String>) -> Seq<(Seq<char>, Seq<char>)>;

/// What a table of counts holds, in order: each key and its count.
pub uninterp spec fn count_table(m: IndexMap<String, usize>) -> Seq<(Seq<char>, usize)>;

/// What a grouped legacy `paths` table holds, in order: each group and its
/// entries, as path and depth.
pub uninterp spec fn group_table(m: IndexMap<String, Vec<PathEntry>>) -> Seq<(Seq<char>, Seq<(Seq<char>, usize)>)>;

/// No key of a table comes twice.
pub open spec fn keys_distinct<V>(t: Seq<(Seq<char>, V)>) -> bool {
    forall|i: int, j: int| 0 <= i < j < t.len() ==> (#[trigger] t[i]).0 != (#[trigger] t[j]).0
}

/// Where `key` is in a table.
pub open spec fn key_index<V>(t: Seq<(Seq<char>, V)>, key: Seq<char>) -> Option<int> {
    t.map_values(|e: (Seq<char>, V)| e.0).index_of_first(key)
}

pub open spec fn entry_views(es: Seq<PathEntry>) -> Seq<(Seq<char>, usize)> {
    es.map_values(|e: PathEntry| (e.path@, e.depth))
}

/// `IndexMap::new`: an empty labels table.
#[verifier::external_body]
pub(crate) fn new_labels() -> (r: Labels)
    ensures
        label_table(r) == Seq::<(Seq<char>, Seq<Seq<char>>)>::empty(),
{
    IndexMap::new()
}

/// `IndexMap::iter` over a labels table: its entries, in order, each label
/// once, as the map keeps them.
#[verifier::external_body]
pub(crate) fn label_entries(m: &Labels) -> (r: Vec<(&String, &Vec<String>)>)
    ensures
        r@.map_values(|e: (&String, &Vec<String>)| (e.0@, crate::files::strs(e.1@)))
            == label_table(*m),
        keys_distinct(r@.map_values(|e: (&String, &Vec<String>)| (e.0@, crate::files::strs(e.1@)))),
{
    m.iter().collect()
}

/// `IndexMap::get` on a labels table: a copy of the owners filed under
/// `label`, if the label is there.
#[verifier::external_body]
fn label_owners(m: &Labels, label: &String) -> (r: Option<Vec<String>>)
    ensures
        match key_index(label_table(*m), label@) {
            Some(i) => r is Some && crate::files::strs(r->0@) == label_table(*m)[i].1,
            None => r is None,
        },
{
    m.get(label).cloned()
}

/// `IndexMap::insert` on a labels table: a label that is there keeps its place
/// and takes the new owners; a new label goes last.
#[verifier::external_body]
fn set_label(m: &mut Labels, label: String, owners: Vec<String>)
    ensures
        label_table(*final(m)) == (match key_index(label_table(*old(m)), label@) {
            Some(i) => label_table(*old(m)).update(i, (label@, crate::files::strs(owners@))),
            None => label_table(*old(m)).push((label@, crate::files::strs(owners@))),
        }),
{
    m.insert(label, owners);
}

/// The owner appended to the label's list where the label is already there,
/// else the label added last with this owner alone.
pub(crate) fn push_label(m: &mut Labels, label: String, owner: String)
    ensures
        label_table(*final(m)) == (match key_index(label_table(*old(m)), label@) {
            Some(i) => label_table(*old(m)).update(
                i,
                (label@, label_table(*old(m))[i].1.push(owner@)),
            ),
            None => label_table(*old(m)).push((label@, seq![owner@])),
        }),
{
    let mut owners = match label_owners(m, &label) {
        Some(v) => v,
        None => Vec::new(),
    };
    let ghost before = owners@;
    let ghost added = owner@;
    owners.push(owner);
    assert(crate::files::strs(owners@) =~= crate::files::strs(before).push(added));
    proof {
        if key_index(label_table(*m), label@) is None {
            assert(crate::files::strs(owners@) =~= seq![added]);
        }
    }
    set_label(m, label, owners);
}

/// `IndexMap::iter` over a `[shell]` table: its entries, in order, each key
/// once.
#[verifier::external_body]
pub(crate) fn binding_entries(m: &Bindings) -> (r: Vec<(&String, &String)>)
    ensures
        r@.map_values(|e: (&String, &String)| (e.0@, e.1@)) == binding_table(*m),
        keys_distinct(r@.map_values(|e: (&String, &String)| (e.0@, e.1@))),
{
    m.iter().collect()
}

/// `IndexMap::new`: an empty table of counts.
#[verifier::external_body]
pub(crate) fn new_counts() -> (r: IndexMap<String, usize>)
    ensures
        count_table(r) == Seq::<(Seq<char>, usize)>::empty(),
{
    IndexMap::new()
}

/// `IndexMap::get` on a table of counts: the count under `key`, if the key is
/// there.
#[verifier::external_body]
fn count_of(m: &IndexMap<String, usize>, key: &String) -> (r: Option<usize>)
    ensures
        r == (match key_index(count_table(*m), key@) {
            Some(i) => Some(count_table(*m)[i].1),
            None => None,
        }),
{
    m.get(key).copied()
}

/// `IndexMap::insert` on a table of counts: a key that is there keeps its
/// place and takes the new count; a new key goes last.
#[verifier::external_body]
fn set_count(m: &mut IndexMap<String, usize>, key: String, n: usize)
    ensures
        count_table(*final(m)) == (match key_index(count_table(*old(m)), key@) {
            Some(i) => count_table(*old(m)).update(i, (key@, n)),
            None => count_table(*old(m)).push((key@, n)),
        }),
{
    m.insert(key, n);
}

/// The key's count raised by one where it is there, else the key added last
/// with a count of one.
pub(crate) fn count_one(m: &mut IndexMap<String, usize>, key: String)
    requires
        forall|i: int| 0 <= i < count_table(*old(m)).len() ==> (#[trigger] count_table(*old(m))[i]).1 < usize::MAX,
    ensures
        count_table(*final(m)) == (match key_index(count_table(*old(m)), key@) {
            Some(i) => count_table(*old(m)).update(i, (key@, (count_table(*old(m))[i].1 + 1) as usize)),
            None => count_table(*old(m)).push((key@, 1usize)),
        }),
{
    proof {
        lemma_key_index(count_table(*m), key@);
    }
    let n: usize = match count_of(m, &key) {
        Some(c) => c + 1,
        None => 1,
    };
    set_count(m, key, n);
}

/// `IndexMap::into_iter` over a table of counts: its entries, in order.
#[verifier::external_body]
pub(crate) fn count_entries(m: IndexMap<String, usize>) -> (r: Vec<(String, usize)>)
    ensures
        r@.map_values(|e: (String, usize)| (e.0@, e.1)) == count_table(m),
{
    m.into_iter().collect()
}

/// `IndexMap::iter` over a grouped legacy table: its groups, in order, each
/// once.
#[verifier::external_body]
pub(crate) fn group_entries(m: &IndexMap<String, Vec<PathEntry>>) -> (r: Vec<(&String, &Vec<PathEntry>)>)
    ensures
        r@.map_values(|e: (&String, &Vec<PathEntry>)| (e.0@, entry_views(e.1@))) == group_table(*m),
        keys_distinct(r@.map_values(|e: (&String, &Vec<PathEntry>)| (e.0@, entry_views(e.1@)))),
{
    m.iter().collect()
}

// --- the configuration ------------------------------------------------------

/// `[shell]` — what `scriv init` binds: keys under `bindings`, names under
/// `aliases`. A table left out binds nothing.
#[derive(Debug, Default)]
pub struct ShellConfig {
    pub bindings: Option<Bindings>,
    pub aliases: Option<Bindings>,
}

/// `[repo]` — where repositories live and how they are labelled and rendered.
#[derive(Debug)]
pub struct RepoConfig {
    /// The directory holding `<owner>/<repo>` checkouts.
    pub root: Option<String>,
    /// Repositories outside the root, listed individually.
    pub extra: Vec<String>,
    /// Owner labels: a label to the GitHub owners it covers.
    pub labels: Labels,
    /// Directory names skipped while searching for repositories.
    pub ignore: Vec<String>,
    /// How repository paths are rendered.
    pub display: RepoDisplay,
}

impl Default for RepoConfig {
    fn default() -> (r: Self)
        ensures
            r.root is None,
            r.extra@.len() == 0,
            label_table(r.labels).len() == 0,
            crate::files::strs(r.ignore@) == seq!["node_modules"@, "vendor"@, "dist"@, "build"@, "target"@],
            r.display == RepoDisplay::Relative,
    {
        let ignore = default_ignored_dirs();
        assert(crate::files::strs(ignore@) == ignore@.map_values(|d: String| d@));
        RepoConfig {
            root: None,
            extra: Vec::new(),
            labels: new_labels(),
            ignore,
            display: RepoDisplay::Relative,
        }
    }
}

/// The first label whose owners include `owner`, ignoring ASCII case.
pub open spec fn label_for(t: Seq<(Seq<char>, Seq<Seq<char>>)>, owner: Seq<char>) -> Option<Seq<char>>
    decreases t.len(),
{
    if t.len() == 0 {
        None
    } else if exists|j: int| 0 <= j < t[0].1.len() && crate::text::eq_ascii_ci(#[trigger] t[0].1[j], owner) {
        Some(t[0].0)
    } else {
        label_for(t.drop_first(), owner)
    }
}

/// Every owner of a labels table, in label order.
pub open spec fn owners_of(t: Seq<(Seq<char>, Seq<Seq<char>>)>) -> Seq<Seq<char>>
    decreases t.len(),
{
    if t.len() == 0 {
        Seq::empty()
    } else {
        owners_of(t.drop_last()) + t.last().1
    }
}

impl RepoConfig {
    /// The label `owner` carries, or `None` when it has none. Matched
    /// case-insensitively: GitHub treats `CapraLifecycle` and `capralifecycle`
    /// as the same owner.
    pub fn label_of(&self, owner: &str) -> (r: Option<&str>)
        ensures
            match r {
                Some(l) => label_for(label_table(self.labels), owner@) == Some(l@),
                None => label_for(label_table(self.labels), owner@) is None,
            },
    {
        let es = label_entries(&self.labels);
        let ghost t = label_table(self.labels);
        let mut i: usize = 0;
        assert(t.skip(0) =~= t);
        while i < es.len()
            invariant
                t == label_table(self.labels),
                es@.map_values(|e: (&String, &Vec<String>)| (e.0@, crate::files::strs(e.1@))) == t,
                i <= t.len(),
                label_for(t, owner@) == label_for(t.skip(i as int), owner@),
            decreases t.len() - i,
        {
            let (label, owners) = es[i];
            assert(t[i as int] == (label@, crate::files::strs(owners@)));
            assert(t.skip(i as int)[0] == t[i as int]);
            assert(t.skip(i as int).drop_first() =~= t.skip(i + 1));
            let ghost ov = crate::files::strs(owners@);
            let mut j: usize = 0;
            let mut hit = false;
            while j < owners.len()
                invariant
                    ov == crate::files::strs(owners@),
                    j <= ov.len(),
                    hit == exists|k: int| 0 <= k < j && crate::text::eq_ascii_ci(#[trigger] ov[k], owner@),
                decreases ov.len() - j,
            {
                if crate::text::eq_ignore_case(owners[j].as_str(), owner) {
                    assert(crate::text::eq_ascii_ci(ov[j as int], owner@));
                    hit = true;
                }
                j += 1;
            }
            if hit {
                proof {
                    let k = choose|k: int| 0 <= k < j && crate::text::eq_ascii_ci(#[trigger] ov[k], owner@);
                    assert(t.skip(i as int)[0].1[k] == ov[k]);
                }
                return Some(label.as_str());
            }
            i += 1;
        }
        None
    }

    /// Every owner named in the config, in label order — the owners worth
    /// offering first when there is an owner to choose.
    pub fn known_owners(&self) -> (r: Vec<&str>)
        ensures
            r@.map_values(|o: &str| o@) == owners_of(label_table(self.labels)),
    {
        let es = label_entries(&self.labels);
        let ghost t = label_table(self.labels);
        let mut out: Vec<&str> = Vec::new();
        let mut i: usize = 0;
        while i < es.len()
            invariant
                t == label_table(self.labels),
                es@.map_values(|e: (&String, &Vec<String>)| (e.0@, crate::files::strs(e.1@))) == t,
                i <= t.len(),
                out@.map_values(|o: &str| o@) == owners_of(t.take(i as int)),
            decreases t.len() - i,
        {
            let (_, owners) = es[i];
            assert(t[i as int].1 == crate::files::strs(owners@));
            assert(t.take(i + 1).drop_last() =~= t.take(i as int));
            let ghost before = out@.map_values(|o: &str| o@);
            let mut j: usize = 0;
            while j < owners.len()
                invariant
                    j <= owners@.len(),
                    out@.map_values(|o: &str| o@) == before + crate::files::strs(owners@).take(j as int),
                decreases owners@.len() - j,
            {
                let ghost prev = out@;
                out.push(owners[j].as_str());
                assert(out@.map_values(|o: &str| o@) =~= prev.map_values(|o: &str| o@).push(owners@[j as int]@));
                assert(crate::files::strs(owners@).take(j + 1) =~= crate::files::strs(owners@).take(
                    j as int,
                ).push(owners@[j as int]@));
                assert(out@.map_values(|o: &str| o@) =~= before + crate::files::strs(owners@).take(
                    j + 1,
                ));
                j += 1;
            }
            assert(crate::files::strs(owners@).take(owners@.len() as int) =~= crate::files::strs(
                owners@,
            ));
            i += 1;
        }
        assert(t.take(t.len() as int) =~= t);
        out
    }
}

/// The whole configuration, each table where the command that reads it finds
/// it.
#[derive(Debug, Default)]
pub struct Config {
    pub repo: RepoConfig,
    pub history: HistoryConfig,
    pub selector: SelectorConfig,
    pub shell: ShellConfig,
}

impl Config {
    /// The config used when no config file exists. Repository discovery has
    /// nothing to search, but the known-files commands remain fully usable.
    pub fn empty() -> (r: Self)
        ensures
            r.repo.root is None,
            label_table(r.repo.labels).len() == 0,
            r.history.file is None,
            r.shell.bindings is None,
            r.shell.aliases is None,
    {
        Config {
            repo: RepoConfig::default(),
            history: HistoryConfig { file: None },
            selector: SelectorConfig::default(),
            shell: ShellConfig { bindings: None, aliases: None },
        }
    }
}


// --- replacing an old layout -----------------------------------------------

/// What `format!("{s:?}")` writes for a string: `<str as Debug>::fmt`, the
/// string between double quotes with its characters escaped as a Rust string
/// literal escapes them.
pub uninterp spec fn debug_str(s: Seq<char>) -> Seq<char>;

/// A character `<str as Debug>` writes as itself: printable ASCII other than
/// the double quote and the backslash.
pub open spec fn plain_char(c: char) -> bool {
    ' ' <= c <= '~' && c != '"' && c != '\\'
}

/// `<str as Debug>::fmt`: `s` quoted and escaped. Of a string of plain
/// characters it is stated exactly, as std documents it: the characters
/// between two double quotes. Which escape each other character gets is left
/// to the name.
#[verifier::external_body]
fn quoted(s: &str) -> (r: String)
    ensures
        r@ == debug_str(s@),
        (forall|i: int| 0 <= i < s@.len() ==> plain_char(#[trigger] s@[i])) ==> r@ == seq!['"'] + s@
            + seq!['"'],
{
    format!("{s:?}")
}

/// The name a display mode is written under.
pub open spec fn display_name(d: RepoDisplay) -> Seq<char> {
    match d {
        RepoDisplay::Relative => "relative"@,
        RepoDisplay::Tilde => "tilde"@,
        RepoDisplay::Full => "full"@,
    }
}

/// A list of strings as a TOML array's inside: each quoted, `, ` between.
pub open spec fn list_text(items: Seq<Seq<char>>) -> Seq<char> {
    join(items.map_values(|i: Seq<char>| debug_str(i)), ", "@)
}

/// Each label of a labels table as an inline-table entry.
pub open spec fn label_pairs(t: Seq<(Seq<char>, Seq<Seq<char>>)>) -> Seq<Seq<char>> {
    t.map_values(|p: (Seq<char>, Seq<Seq<char>>)| p.0 + " = ["@ + list_text(p.1) + "]"@)
}

/// A `[repo]` section as text the user can paste: `root` always, then each
/// key that has something to say. `labels` is an inline table, so pasting it
/// above other `[repo]` keys captures none of them.
pub open spec fn repo_section(
    root: Seq<char>,
    extra: Seq<Seq<char>>,
    ignore: Option<Seq<Seq<char>>>,
    display: Option<RepoDisplay>,
    labels: Seq<(Seq<char>, Seq<Seq<char>>)>,
) -> Seq<char> {
    "[repo]\nroot = "@ + debug_str(root) + "\n"@ + (if extra.len() > 0 {
        "extra = ["@ + list_text(extra) + "]\n"@
    } else {
        Seq::empty()
    }) + (match ignore {
        Some(i) => "ignore = ["@ + list_text(i) + "]\n"@,
        None => Seq::empty(),
    }) + (match display {
        Some(d) => "display = "@ + debug_str(display_name(d)) + "\n"@,
        None => Seq::empty(),
    }) + (if labels.len() > 0 {
        "labels = { "@ + join(label_pairs(labels), ", "@) + " }\n"@
    } else {
        Seq::empty()
    })
}

/// `items` quoted, `, ` between.
fn quoted_list(items: &Vec<String>) -> (r: String)
    ensures
        r@ == list_text(strs(items@)),
{
    let ghost want = strs(items@).map_values(|i: Seq<char>| debug_str(i));
    let mut parts: Vec<String> = Vec::new();
    let mut i: usize = 0;
    while i < items.len()
        invariant
            want == strs(items@).map_values(|i: Seq<char>| debug_str(i)),
            i <= items@.len(),
            parts@.map_values(|p: String| p@) == want.take(i as int),
        decreases items@.len() - i,
    {
        let ghost prev = parts@;
        parts.push(quoted(items[i].as_str()));
        assert(parts@.map_values(|p: String| p@) =~= prev.map_values(|p: String| p@).push(
            debug_str(items@[i as int]@),
        ));
        assert(want.take(i + 1) =~= want.take(i as int).push(want[i as int]));
        i += 1;
    }
    assert(want.take(items@.len() as int) =~= want);
    join_strings(&parts, ", ")
}

/// Each label of `labels` as an inline-table entry, `, ` between.
fn labels_text(labels: &Labels) -> (r: String)
    ensures
        r@ == join(label_pairs(label_table(*labels)), ", "@),
{
    let es = label_entries(labels);
    let ghost t = label_table(*labels);
    let ghost want = label_pairs(t);
    let mut pairs: Vec<String> = Vec::new();
    let mut k: usize = 0;
    while k < es.len()
        invariant
            t == label_table(*labels),
            want == label_pairs(t),
            es@.map_values(|e: (&String, &Vec<String>)| (e.0@, strs(e.1@))) == t,
            k <= t.len(),
            pairs@.map_values(|p: String| p@) == want.take(k as int),
        decreases t.len() - k,
    {
        let (label, owners) = es[k];
        assert(t[k as int] == (label@, strs(owners@)));
        let mut pair = String::from_str(label.as_str());
        pair.append(" = [");
        let l = quoted_list(owners);
        pair.append(l.as_str());
        pair.append("]");
        let ghost prev = pairs@;
        pairs.push(pair);
        assert(pairs@.map_values(|p: String| p@) =~= prev.map_values(|p: String| p@).push(
            want[k as int],
        ));
        assert(want.take(k + 1) =~= want.take(k as int).push(want[k as int]));
        k += 1;
    }
    assert(want.take(t.len() as int) =~= want);
    join_strings(&pairs, ", ")
}

/// Whether a labels table has no label.
fn no_labels(labels: &Labels) -> (r: bool)
    ensures
        r == (label_table(*labels).len() == 0),
{
    let es = label_entries(labels);
    es.len() == 0
}

/// Render a `[repo]` section, as text the user can paste.
#[verifier::spinoff_prover]
#[verifier::rlimit(40)]
fn render_repo_section(
    root: &str,
    extra: &Vec<String>,
    ignore: Option<&Vec<String>>,
    display: Option<RepoDisplay>,
    labels: &Labels,
) -> (r: String)
    ensures
        r@ == repo_section(
            root@,
            strs(extra@),
            match ignore {
                Some(i) => Some(strs(i@)),
                None => None,
            },
            display,
            label_table(*labels),
        ),
{
    let mut out = String::from_str("[repo]\nroot = ");
    let q = quoted(root);
    out.append(q.as_str());
    out.append("\n");
    let ghost a = out@;
    if extra.len() > 0 {
        out.append("extra = [");
        let l = quoted_list(extra);
        out.append(l.as_str());
        out.append("]\n");
    }
    let ghost b = out@;
    match ignore {
        Some(i) => {
            out.append("ignore = [");
            let l = quoted_list(i);
            out.append(l.as_str());
            out.append("]\n");
        },
        None => {},
    }
    let ghost c = out@;
    match display {
        Some(d) => {
            out.append("display = ");
            let name = d.as_str();
            let q = quoted(name);
            assert(name@ == display_name(d));
            out.append(q.as_str());
            out.append("\n");
        },
        None => {},
    }
    let ghost d = out@;
    if !no_labels(labels) {
        out.append("labels = { ");
        let j = labels_text(labels);
        out.append(j.as_str());
        out.append(" }\n");
    }
    proof {
        let ig = match ignore {
            Some(i) => Some(strs(i@)),
            None => None,
        };
        let x: Seq<char> = if strs(extra@).len() > 0 {
            "extra = ["@ + list_text(strs(extra@)) + "]\n"@
        } else {
            Seq::empty()
        };
        let y: Seq<char> = match ig {
            Some(i) => "ignore = ["@ + list_text(i) + "]\n"@,
            None => Seq::empty(),
        };
        let z: Seq<char> = match display {
            Some(dd) => "display = "@ + debug_str(display_name(dd)) + "\n"@,
            None => Seq::empty(),
        };
        let w: Seq<char> = if label_table(*labels).len() > 0 {
            "labels = { "@ + join(label_pairs(label_table(*labels)), ", "@) + " }\n"@
        } else {
            Seq::empty()
        };
        assert(a =~= "[repo]\nroot = "@ + debug_str(root@) + "\n"@);
        assert(b =~= a + x);
        assert(c =~= b + y);
        assert(d =~= c + z);
        assert(out@ =~= d + w);
    }
    out
}


/// The `paths` key from the config format that preceded `root`: either grouped
/// (`[[paths.work]]`) or a bare list (`[[paths]]`).
#[derive(Debug)]
pub enum LegacyPaths {
    Grouped(IndexMap<String, Vec<PathEntry>>),
    Flat(Vec<PathEntry>),
}

/// The entries of a grouped table, each with the group it sits in.
pub open spec fn grouped_entries(t: Seq<(Seq<char>, Seq<(Seq<char>, usize)>)>) -> Seq<
    (Option<Seq<char>>, (Seq<char>, usize)),
>
    decreases t.len(),
{
    if t.len() == 0 {
        Seq::empty()
    } else {
        grouped_entries(t.drop_last()) + t.last().1.map_values(
            |e: (Seq<char>, usize)| (Some(t.last().0), e),
        )
    }
}

/// Every entry of an old `paths` key, in order, with its label; a bare list
/// has none.
pub open spec fn legacy_entries(p: LegacyPaths) -> Seq<(Option<Seq<char>>, (Seq<char>, usize))> {
    match p {
        LegacyPaths::Grouped(m) => grouped_entries(group_table(m)),
        LegacyPaths::Flat(es) => entry_views(es@).map_values(
            |e: (Seq<char>, usize)| (None::<Seq<char>>, e),
        ),
    }
}

/// Flatten to (label, entry) pairs; a bare list has no label.
fn legacy_entry_list(paths: &LegacyPaths) -> (r: Vec<(Option<&str>, &PathEntry)>)
    ensures
        r@.map_values(|e: (Option<&str>, &PathEntry)| (opt_view(e.0), (e.1.path@, e.1.depth)))
            == legacy_entries(*paths),
{
    let mut out: Vec<(Option<&str>, &PathEntry)> = Vec::new();
    match paths {
        LegacyPaths::Grouped(groups) => {
            let gs = group_entries(groups);
            let ghost t = group_table(*groups);
            let mut g: usize = 0;
            while g < gs.len()
                invariant
                    t == group_table(*groups),
                    gs@.map_values(|e: (&String, &Vec<PathEntry>)| (e.0@, entry_views(e.1@))) == t,
                    g <= t.len(),
                    out@.map_values(
                        |e: (Option<&str>, &PathEntry)| (opt_view(e.0), (e.1.path@, e.1.depth)),
                    ) == grouped_entries(t.take(g as int)),
                decreases t.len() - g,
            {
                let (name, es) = gs[g];
                assert(t[g as int] == (name@, entry_views(es@)));
                assert(t.take(g + 1).drop_last() =~= t.take(g as int));
                let ghost before = out@.map_values(
                    |e: (Option<&str>, &PathEntry)| (opt_view(e.0), (e.1.path@, e.1.depth)),
                );
                let ghost tail = entry_views(es@).map_values(
                    |e: (Seq<char>, usize)| (Some(name@), e),
                );
                let mut k: usize = 0;
                while k < es.len()
                    invariant
                        k <= es@.len(),
                        tail == entry_views(es@).map_values(|e: (Seq<char>, usize)| (Some(name@), e)),
                        out@.map_values(
                            |e: (Option<&str>, &PathEntry)| (opt_view(e.0), (e.1.path@, e.1.depth)),
                        ) == before + tail.take(k as int),
                    decreases es@.len() - k,
                {
                    let ghost prev = out@;
                    out.push((Some(name.as_str()), &es[k]));
                    assert(out@.map_values(
                        |e: (Option<&str>, &PathEntry)| (opt_view(e.0), (e.1.path@, e.1.depth)),
                    ) =~= prev.map_values(
                        |e: (Option<&str>, &PathEntry)| (opt_view(e.0), (e.1.path@, e.1.depth)),
                    ).push(tail[k as int]));
                    assert(tail.take(k + 1) =~= tail.take(k as int).push(tail[k as int]));
                    k += 1;
                }
                assert(tail.take(es@.len() as int) =~= tail);
                g += 1;
            }
            assert(t.take(t.len() as int) =~= t);
        },
        LegacyPaths::Flat(es) => {
            let ghost want = entry_views(es@).map_values(|e: (Seq<char>, usize)| (None::<Seq<char>>, e));
            let mut k: usize = 0;
            while k < es.len()
                invariant
                    k <= es@.len(),
                    want == entry_views(es@).map_values(|e: (Seq<char>, usize)| (None::<Seq<char>>, e)),
                    out@.map_values(
                        |e: (Option<&str>, &PathEntry)| (opt_view(e.0), (e.1.path@, e.1.depth)),
                    ) == want.take(k as int),
                decreases es@.len() - k,
            {
                let ghost prev = out@;
                out.push((None, &es[k]));
                assert(out@.map_values(
                    |e: (Option<&str>, &PathEntry)| (opt_view(e.0), (e.1.path@, e.1.depth)),
                ) =~= prev.map_values(
                    |e: (Option<&str>, &PathEntry)| (opt_view(e.0), (e.1.path@, e.1.depth)),
                ).push(want[k as int]));
                assert(want.take(k + 1) =~= want.take(k as int).push(want[k as int]));
                k += 1;
            }
            assert(want.take(es@.len() as int) =~= want);
        },
    }
    out
}


/// The root and owner an old entry encodes: `<root>/<owner>` at depth 1, both
/// parts non-empty. Any other entry encodes none.
pub open spec fn owner_split(e: (Seq<char>, usize)) -> Option<(Seq<char>, Seq<char>)> {
    if e.1 == 1 {
        match rsplit_once(e.0, '/') {
            Some(p) => if p.0.len() > 0 && p.1.len() > 0 {
                Some(p)
            } else {
                None
            },
            None => None,
        }
    } else {
        None
    }
}

/// A table of counts after one more `key`: its count raised, or the key added
/// last with a count of one.
pub open spec fn count_step(t: Seq<(Seq<char>, usize)>, key: Seq<char>) -> Seq<(Seq<char>, usize)> {
    match key_index(t, key) {
        Some(i) => t.update(i, (key, (t[i].1 + 1) as usize)),
        None => t.push((key, 1usize)),
    }
}

/// A labels table after one more owner under `label`.
pub open spec fn label_step(
    t: Seq<(Seq<char>, Seq<Seq<char>>)>,
    label: Seq<char>,
    owner: Seq<char>,
) -> Seq<(Seq<char>, Seq<Seq<char>>)> {
    match key_index(t, label) {
        Some(i) => t.update(i, (label, t[i].1.push(owner))),
        None => t.push((label, seq![owner])),
    }
}

/// How many old entries name each root, roots in the order first named.
pub open spec fn roots_of(es: Seq<(Option<Seq<char>>, (Seq<char>, usize))>) -> Seq<(Seq<char>, usize)>
    decreases es.len(),
{
    if es.len() == 0 {
        Seq::empty()
    } else {
        let p = roots_of(es.drop_last());
        match owner_split(es.last().1) {
            Some(s) => count_step(p, s.0),
            None => p,
        }
    }
}

/// The label an old entry's owner goes under: its group, else `personal`.
pub open spec fn label_or_personal(l: Option<Seq<char>>) -> Seq<char> {
    match l {
        Some(l) => l,
        None => "personal"@,
    }
}

/// The owners the old entries name, under their labels, in the order named.
pub open spec fn labels_of(es: Seq<(Option<Seq<char>>, (Seq<char>, usize))>) -> Seq<
    (Seq<char>, Seq<Seq<char>>),
>
    decreases es.len(),
{
    if es.len() == 0 {
        Seq::empty()
    } else {
        let p = labels_of(es.drop_last());
        match owner_split(es.last().1) {
            Some(s) => label_step(p, label_or_personal(es.last().0), s.1),
            None => p,
        }
    }
}

/// The paths of the old entries that encode no owner, in order.
pub open spec fn extras_of(es: Seq<(Option<Seq<char>>, (Seq<char>, usize))>) -> Seq<Seq<char>>
    decreases es.len(),
{
    if es.len() == 0 {
        Seq::empty()
    } else {
        let p = extras_of(es.drop_last());
        match owner_split(es.last().1) {
            Some(_) => p,
            None => p.push(es.last().1.0),
        }
    }
}

/// Whether `t[i]` has the largest count among the first `n` entries of `t`,
/// and no later one of them has as large a count.
pub open spec fn last_max_in(t: Seq<(Seq<char>, usize)>, n: int, i: int) -> bool {
    &&& 0 <= i < n <= t.len()
    &&& forall|j: int| 0 <= j < n ==> (#[trigger] t[j]).1 <= t[i].1
    &&& forall|j: int| i < j < n ==> (#[trigger] t[j]).1 < t[i].1
}

/// The most common root, the last named of those tied; `~/dev/github.com`
/// when there is none.
pub open spec fn chosen_root(t: Seq<(Seq<char>, usize)>) -> Seq<char> {
    if t.len() == 0 {
        "~/dev/github.com"@
    } else {
        t[choose|i: int| last_max_in(t, t.len() as int, i)].0
    }
}

/// The `[repo]` section that replaces an old `paths` key.
pub open spec fn hint_of(p: LegacyPaths) -> Seq<char> {
    let es = legacy_entries(p);
    repo_section(chosen_root(roots_of(es)), extras_of(es), None, None, labels_of(es))
}

/// At most one entry is the last of the largest.
proof fn lemma_last_max_unique(t: Seq<(Seq<char>, usize)>, n: int, i: int, k: int)
    requires
        last_max_in(t, n, i),
        last_max_in(t, n, k),
    ensures
        i == k,
{
    if i < k {
        assert(t[k].1 < t[i].1);
        assert(t[i].1 <= t[k].1);
    } else if k < i {
        assert(t[i].1 < t[k].1);
        assert(t[k].1 <= t[i].1);
    }
}

/// Where `key` is in a table: its first place, or nowhere.
proof fn lemma_key_index<V>(t: Seq<(Seq<char>, V)>, key: Seq<char>)
    ensures
        match key_index(t, key) {
            Some(i) => 0 <= i < t.len() && t[i].0 == key,
            None => forall|j: int| 0 <= j < t.len() ==> (#[trigger] t[j]).0 != key,
        },
{
    let ks = t.map_values(|e: (Seq<char>, V)| e.0);
    ks.index_of_first_ensures(key);
    if key_index(t, key) is None {
        assert forall|j: int| 0 <= j < t.len() implies (#[trigger] t[j]).0 != key by {
            assert(ks[j] == t[j].0);
        }
    }
}

/// No count of `roots_of(es)` exceeds the number of entries.
proof fn lemma_roots_bounded(es: Seq<(Option<Seq<char>>, (Seq<char>, usize))>)
    ensures
        forall|k: int| 0 <= k < roots_of(es).len() ==> (#[trigger] roots_of(es)[k]).1 <= es.len(),
    decreases es.len(),
{
    if es.len() > 0 {
        lemma_roots_bounded(es.drop_last());
        let p = roots_of(es.drop_last());
        match owner_split(es.last().1) {
            Some(s) => {
                let key = s.0;
                lemma_key_index(p, key);
                match key_index(p, key) {
                    Some(i) => {
                        assert forall|k: int| 0 <= k < roots_of(es).len() implies (#[trigger] roots_of(es)[k]).1
                            <= es.len() by {
                            if k != i {
                                assert(roots_of(es)[k] == p[k]);
                            }
                        }
                    },
                    None => {
                        assert forall|k: int| 0 <= k < roots_of(es).len() implies (#[trigger] roots_of(es)[k]).1
                            <= es.len() by {
                            if k < p.len() {
                                assert(roots_of(es)[k] == p[k]);
                            }
                        }
                    },
                }
            },
            None => {},
        }
    }
}

/// The most common root of a table of counts, the last named of those tied;
/// `~/dev/github.com` when the table is empty.
fn choose_root(counts: Vec<(String, usize)>) -> (r: String)
    ensures
        r@ == chosen_root(counts@.map_values(|e: (String, usize)| (e.0@, e.1))),
{
    let ghost t = counts@.map_values(|e: (String, usize)| (e.0@, e.1));
    if counts.len() == 0 {
        return String::from_str("~/dev/github.com");
    }
    let mut best: usize = 0;
    let mut j: usize = 1;
    while j < counts.len()
        invariant
            t == counts@.map_values(|e: (String, usize)| (e.0@, e.1)),
            1 <= j <= t.len(),
            last_max_in(t, j as int, best as int),
        decreases t.len() - j,
    {
        assert(t[j as int].1 == counts@[j as int].1 && t[best as int].1 == counts@[best as int].1);
        if counts[j].1 >= counts[best].1 {
            best = j;
        }
        j += 1;
    }
    proof {
        let c = choose|i: int| last_max_in(t, t.len() as int, i);
        lemma_last_max_unique(t, t.len() as int, c, best as int);
    }
    counts[best].0.clone()
}

/// Turn an old `paths` config into the config that replaces it, as text the
/// user can paste.
///
/// The old format encoded the owner in the path (`~/dev/github.com/joakimen`
/// at depth 1): one root, and which owners carry which label. An entry that
/// does not fit that shape (`~/bin` at depth 0) becomes an `extra` path.
pub fn migration_hint(paths: &LegacyPaths) -> (r: String)
    ensures
        r@ == hint_of(*paths),
{
    let es = legacy_entry_list(paths);
    let ghost all = legacy_entries(*paths);
    let mut roots = new_counts();
    let mut labels = new_labels();
    let mut extra: Vec<String> = Vec::new();
    let mut i: usize = 0;
    while i < es.len()
        invariant
            all == legacy_entries(*paths),
            es@.map_values(|e: (Option<&str>, &PathEntry)| (opt_view(e.0), (e.1.path@, e.1.depth)))
                == all,
            i <= all.len(),
            count_table(roots) == roots_of(all.take(i as int)),
            label_table(labels) == labels_of(all.take(i as int)),
            strs(extra@) == extras_of(all.take(i as int)),
        decreases all.len() - i,
    {
        let (label, entry) = es[i];
        assert(all[i as int] == (opt_view(label), (entry.path@, entry.depth)));
        assert(all.take(i + 1).drop_last() =~= all.take(i as int));
        assert(all.take(i + 1).last() == all[i as int]);
        proof {
            lemma_roots_bounded(all.take(i as int));
        }
        let mut done = false;
        if entry.depth == 1 {
            let v = chars_of(entry.path.as_str());
            assert(v@.subrange(0, v@.len() as int) =~= v@);
            proof {
                v@.index_of_last_ensures('/');
            }
            match rfind_in(&v, 0, v.len(), '/') {
                Some(k) => {
                    if k > 0 && k + 1 < v.len() {
                        let root = string_of(&v, 0, k);
                        let owner = string_of(&v, k + 1, v.len());
                        count_one(&mut roots, root);
                        let l = match label {
                            Some(l) => String::from_str(l),
                            None => String::from_str("personal"),
                        };
                        push_label(&mut labels, l, owner);
                        done = true;
                    }
                },
                None => {},
            }
        }
        if !done {
            let ghost prev = extra@;
            extra.push(entry.path.clone());
            assert(strs(extra@) =~= strs(prev).push(entry.path@));
        }
        i += 1;
    }
    assert(all.take(all.len() as int) =~= all);
    let ghost t = count_table(roots);
    let counts = count_entries(roots);
    let root = choose_root(counts);
    render_repo_section(root.as_str(), &extra, None, None, &labels)
}


/// `text` with each non-empty line indented by four spaces.
pub open spec fn indented(text: Seq<char>) -> Seq<char> {
    join(
        lines(text).map_values(|l: Seq<char>| if l.len() == 0 { l } else { "    "@ + l }),
        "\n"@,
    )
}

/// Indent each non-empty line of `text` by four spaces.
fn indent(text: &str) -> (r: String)
    ensures
        r@ == indented(text@),
{
    let ls = lines_of(text);
    let ghost want = lines(text@).map_values(
        |l: Seq<char>| if l.len() == 0 { l } else { "    "@ + l },
    );
    let mut parts: Vec<String> = Vec::new();
    let mut i: usize = 0;
    while i < ls.len()
        invariant
            ls@.map_values(|p: Vec<char>| p@) == lines(text@),
            want == lines(text@).map_values(|l: Seq<char>| if l.len() == 0 { l } else { "    "@ + l }),
            i <= ls@.len(),
            parts@.map_values(|p: String| p@) == want.take(i as int),
        decreases ls@.len() - i,
    {
        let l = &ls[i];
        assert(l@ == lines(text@)[i as int]);
        let mut piece = String::new();
        if l.len() > 0 {
            piece.append("    ");
            push_range(&mut piece, l, 0, l.len());
            assert(l@.subrange(0, l@.len() as int) =~= l@);
        }
        assert(piece@ =~= want[i as int]);
        let ghost prev = parts@;
        parts.push(piece);
        assert(parts@.map_values(|p: String| p@) =~= prev.map_values(|p: String| p@).push(want[i as int]));
        assert(want.take(i + 1) =~= want.take(i as int).push(want[i as int]));
        i += 1;
    }
    assert(want.take(ls@.len() as int) =~= want);
    join_strings(&parts, "\n")
}

/// What `scriv` says of a config still written in the old `paths` format,
/// around the `[repo]` section that replaces it.
pub open spec fn paths_refusal(hint: Seq<char>) -> Seq<char> {
    "this config uses the old `paths` format, which scriv no longer reads.\n\nRepositories now live under one root as `<owner>/<repo>`, and labels name owners rather than paths. Rewrite the `paths` section as:\n\n"@
        + indented(hint) + "\n\n`extra` is for repositories outside the root; drop the key if there are none."@
}

/// The error raised for a config still written in the old `paths` format.
pub fn legacy_paths_error(paths: &LegacyPaths) -> (r: String)
    ensures
        r@ == paths_refusal(hint_of(*paths)),
{
    let hint = migration_hint(paths);
    let body = indent(hint.as_str());
    let mut out = String::from_str(
        "this config uses the old `paths` format, which scriv no longer reads.\n\nRepositories now live under one root as `<owner>/<repo>`, and labels name owners rather than paths. Rewrite the `paths` section as:\n\n",
    );
    out.append(body.as_str());
    out.append("\n\n`extra` is for repositories outside the root; drop the key if there are none.");
    out
}

/// `[selector]` as written, including the `display` key that moved to
/// `[repo]`. Every field is optional, so an absent one takes
/// [`SelectorConfig`]'s default while a written one is kept.
#[derive(Debug, Default)]
pub struct RawSelector {
    pub height: Option<String>,
    pub preview: Option<bool>,
    pub preview_window: Option<String>,
    /// Superseded by `[repo] display`, present for detection only.
    pub display: Option<RepoDisplay>,
}

/// The selector settings a `[selector]` table gives: each key written, else
/// its default.
pub fn selector_from(raw: RawSelector) -> (r: SelectorConfig)
    ensures
        r.height@ == (match raw.height {
            Some(h) => h@,
            None => "50%"@,
        }),
        r.preview == (match raw.preview {
            Some(b) => b,
            None => true,
        }),
        r.preview_window@ == (match raw.preview_window {
            Some(w) => w@,
            None => "right:50%"@,
        }),
{
    let default = SelectorConfig::default();
    SelectorConfig {
        height: match raw.height {
            Some(h) => h,
            None => default.height,
        },
        preview: match raw.preview {
            Some(b) => b,
            None => default.preview,
        },
        preview_window: match raw.preview_window {
            Some(w) => w,
            None => default.preview_window,
        },
    }
}

/// The serialized shape of `config.toml`. Every key of the layout that
/// preceded `[repo]` is still spelled out, at the top level, so an old config
/// can be recognised and explained rather than half-read.
#[derive(Debug)]
pub struct RawToml {
    pub repo: RepoConfig,
    pub history: HistoryConfig,
    pub selector: RawSelector,
    pub shell: ShellConfig,
    pub root: Option<String>,
    pub extra: Option<Vec<String>>,
    pub owners: Option<Labels>,
    pub ignore: Option<Vec<String>>,
    pub editor: Option<String>,
    /// The `paths` key from the layout before that.
    pub paths: Option<LegacyPaths>,
    /// `[picker]`, renamed to `[selector]`.
    pub picker: Option<RawSelector>,
}

/// `IndexMap::clone` on a labels table: the same labels and owners in the
/// same order.
#[verifier::external_body]
fn copy_labels(m: &Labels) -> (r: Labels)
    ensures
        label_table(r) == label_table(*m),
{
    m.clone()
}

/// A copy of a list of strings.
fn copy_strings(v: &Vec<String>) -> (r: Vec<String>)
    ensures
        strs(r@) == strs(v@),
{
    let mut out: Vec<String> = Vec::new();
    let mut i: usize = 0;
    while i < v.len()
        invariant
            i <= v@.len(),
            strs(out@) == strs(v@).take(i as int),
        decreases v@.len() - i,
    {
        let ghost prev = out@;
        out.push(v[i].clone());
        assert(strs(out@) =~= strs(prev).push(v@[i as int]@));
        assert(strs(v@).take(i + 1) =~= strs(v@).take(i as int).push(v@[i as int]@));
        i += 1;
    }
    assert(strs(v@).take(v@.len() as int) =~= strs(v@));
    out
}

/// The display mode an old config wrote under `[selector]` or `[picker]`.
pub open spec fn flat_display(raw: RawToml) -> Option<RepoDisplay> {
    match raw.selector.display {
        Some(d) => Some(d),
        None => match raw.picker {
            Some(p) => p.display,
            None => None,
        },
    }
}

/// Whether a config uses any key of the flat layout that preceded `[repo]`.
pub open spec fn flat_used(raw: RawToml) -> bool {
    ||| raw.root is Some
    ||| (raw.extra is Some && raw.extra->0@.len() > 0)
    ||| (raw.owners is Some && label_table(raw.owners->0).len() > 0)
    ||| raw.ignore is Some
    ||| flat_display(raw) is Some
    ||| raw.editor is Some
}

/// The `[repo]` section that replaces a flat layout's keys.
pub open spec fn flat_replacement(raw: RawToml) -> Seq<char> {
    repo_section(
        match raw.root {
            Some(r) => r@,
            None => "~/dev/github.com"@,
        },
        match raw.extra {
            Some(e) => strs(e@),
            None => Seq::empty(),
        },
        match raw.ignore {
            Some(i) => Some(strs(i@)),
            None => None,
        },
        flat_display(raw),
        match raw.owners {
            Some(o) => label_table(o),
            None => Seq::empty(),
        },
    )
}

/// What `scriv` says of a config still using the flat, ungrouped keys.
pub open spec fn flat_refusal(raw: RawToml) -> Seq<char> {
    "this config uses the old flat layout, which scriv no longer reads.\n\nSettings are now grouped by the command that reads them: repository discovery under `[repo]`, and `owners` renamed to `labels`. Rewrite as:\n\n"@
        + indented(flat_replacement(raw))
        + "\n\n`[selector]` keeps `height`, `preview` and `preview_window`."@ + (if raw.editor is Some {
        "\n\n`editor` is gone: scriv uses $VISUAL, then $EDITOR, like every other terminal tool."@
    } else {
        Seq::empty()
    })
}

/// A config written in the flat layout that preceded `[repo]`, gathered so
/// the error can hand back the whole replacement rather than one key at a
/// time.
struct FlatLayout {
    root: Option<String>,
    extra: Vec<String>,
    labels: Labels,
    ignore: Option<Vec<String>>,
    display: Option<RepoDisplay>,
    editor: bool,
}

impl RawToml {
    /// The superseded keys this config uses, or `None` if it uses none.
    fn flat_layout(&self) -> (r: Option<FlatLayout>)
        ensures
            r is Some <==> flat_used(*self),
            r matches Some(f) ==> {
                &&& opt_view_string(f.root) == opt_view_string(self.root)
                &&& strs(f.extra@) == (match self.extra {
                    Some(e) => strs(e@),
                    None => Seq::empty(),
                })
                &&& label_table(f.labels) == (match self.owners {
                    Some(o) => label_table(o),
                    None => Seq::empty(),
                })
                &&& (match f.ignore {
                    Some(i) => Some(strs(i@)),
                    None => None,
                }) == (match self.ignore {
                    Some(i) => Some(strs(i@)),
                    None => None,
                })
                &&& f.display == flat_display(*self)
                &&& f.editor == self.editor is Some
            },
    {
        let root = match &self.root {
            Some(r) => Some(r.clone()),
            None => None,
        };
        let extra = match &self.extra {
            Some(e) => copy_strings(e),
            None => Vec::new(),
        };
        let labels = match &self.owners {
            Some(o) => copy_labels(o),
            None => new_labels(),
        };
        let ignore = match &self.ignore {
            Some(i) => Some(copy_strings(i)),
            None => None,
        };
        let display = match self.selector.display {
            Some(d) => Some(d),
            None => match &self.picker {
                Some(p) => p.display,
                None => None,
            },
        };
        let editor = self.editor.is_some();
        proof {
            if self.extra is Some {
                assert(strs(self.extra->0@).len() == self.extra->0@.len());
            }
            assert(strs(extra@).len() == extra@.len());
        }
        let used = root.is_some() || extra.len() > 0 || !no_labels(&labels) || ignore.is_some()
            || display.is_some() || editor;
        if used {
            Some(FlatLayout { root, extra, labels, ignore, display, editor })
        } else {
            None
        }
    }
}

/// A string option by its view.
pub open spec fn opt_view_string(o: Option<String>) -> Option<Seq<char>> {
    match o {
        Some(s) => Some(s@),
        None => None,
    }
}

/// The error raised for a config still using the flat, ungrouped keys.
fn legacy_flat_error(raw: &RawToml, flat: &FlatLayout) -> (r: String)
    requires
        opt_view_string(flat.root) == opt_view_string(raw.root),
        strs(flat.extra@) == (match raw.extra {
            Some(e) => strs(e@),
            None => Seq::empty(),
        }),
        label_table(flat.labels) == (match raw.owners {
            Some(o) => label_table(o),
            None => Seq::empty(),
        }),
        (match flat.ignore {
            Some(i) => Some(strs(i@)),
            None => None,
        }) == (match raw.ignore {
            Some(i) => Some(strs(i@)),
            None => None,
        }),
        flat.display == flat_display(*raw),
        flat.editor == raw.editor is Some,
    ensures
        r@ == flat_refusal(*raw),
{
    let replacement = render_repo_section(
        match &flat.root {
            Some(r) => r.as_str(),
            None => "~/dev/github.com",
        },
        &flat.extra,
        match &flat.ignore {
            Some(i) => Some(i),
            None => None,
        },
        flat.display,
        &flat.labels,
    );
    let body = indent(replacement.as_str());
    let mut out = String::from_str(
        "this config uses the old flat layout, which scriv no longer reads.\n\nSettings are now grouped by the command that reads them: repository discovery under `[repo]`, and `owners` renamed to `labels`. Rewrite as:\n\n",
    );
    out.append(body.as_str());
    out.append("\n\n`[selector]` keeps `height`, `preview` and `preview_window`.");
    if flat.editor {
        out.append("\n\n`editor` is gone: scriv uses $VISUAL, then $EDITOR, like every other terminal tool.");
    }
    out
}


/// How `bool` displays.
pub open spec fn bool_text(b: bool) -> Seq<char> {
    if b {
        "true"@
    } else {
        "false"@
    }
}

/// The `[selector]` table replacing a `[picker]` one, with the keys that were
/// written and no others: an absent key means the default, and writing it out
/// would freeze today's default into the user's file.
pub open spec fn picker_table(p: RawSelector) -> Seq<char> {
    "[selector]\n"@ + height_line(p) + preview_line(p) + window_line(p)
}

/// The `height` line of a `[selector]` table, where one was written.
pub open spec fn height_line(p: RawSelector) -> Seq<char> {
    match p.height {
        Some(h) => "height = "@ + debug_str(h@) + "\n"@,
        None => Seq::empty(),
    }
}

/// The `preview` line of a `[selector]` table, where one was written.
pub open spec fn preview_line(p: RawSelector) -> Seq<char> {
    match p.preview {
        Some(b) => "preview = "@ + bool_text(b) + "\n"@,
        None => Seq::empty(),
    }
}

/// The `preview_window` line of a `[selector]` table, where one was written.
pub open spec fn window_line(p: RawSelector) -> Seq<char> {
    match p.preview_window {
        Some(w) => "preview_window = "@ + debug_str(w@) + "\n"@,
        None => Seq::empty(),
    }
}

/// What `scriv` says of a config whose finder settings are still under
/// `[picker]`.
pub open spec fn picker_refusal(p: RawSelector) -> Seq<char> {
    "this config has a `[picker]` table, which scriv no longer reads.\n\nThe finder is the selector now — `scriv <group> sel` — and its settings are spelled the same way. Rewrite as:\n\n"@
        + indented(picker_table(p)) + (if p.display is Some {
        "\n\n`display` is not one of its keys: it moved to `[repo]`."@
    } else {
        Seq::empty()
    })
}

/// The `[selector]` table replacing a `[picker]` one.
fn renamed_picker_table(picker: &RawSelector) -> (r: String)
    ensures
        r@ == picker_table(*picker),
{
    let mut table = String::from_str("[selector]\n");
    let ghost a = table@;
    match &picker.height {
        Some(h) => {
            table.append("height = ");
            let q = quoted(h.as_str());
            table.append(q.as_str());
            table.append("\n");
        },
        None => {},
    }
    let ghost b = table@;
    match picker.preview {
        Some(p) => {
            table.append("preview = ");
            table.append(if p { "true" } else { "false" });
            table.append("\n");
        },
        None => {},
    }
    let ghost c = table@;
    match &picker.preview_window {
        Some(w) => {
            table.append("preview_window = ");
            let q = quoted(w.as_str());
            table.append(q.as_str());
            table.append("\n");
        },
        None => {},
    }
    proof {
        assert(b =~= a + height_line(*picker));
        assert(c =~= b + preview_line(*picker));
        assert(table@ =~= c + window_line(*picker));
    }
    table
}

/// The error raised for a config whose finder settings are still under
/// `[picker]`: the table named back with the keys that were written in it.
fn renamed_picker_error(picker: &RawSelector) -> (r: String)
    ensures
        r@ == picker_refusal(*picker),
{
    let table = renamed_picker_table(picker);
    let body = indent(table.as_str());
    let mut out = String::from_str(
        "this config has a `[picker]` table, which scriv no longer reads.\n\nThe finder is the selector now — `scriv <group> sel` — and its settings are spelled the same way. Rewrite as:\n\n",
    );
    out.append(body.as_str());
    if picker.display.is_some() {
        out.append("\n\n`display` is not one of its keys: it moved to `[repo]`.");
    }
    out
}

/// What reading a parsed `config.toml` gives: the refusal of an old `paths`
/// key first, then of a `[picker]` table, then of the flat layout; else the
/// configuration it holds.
pub open spec fn toml_refusal(raw: RawToml) -> Option<Seq<char>> {
    match raw.paths {
        Some(p) => Some(paths_refusal(hint_of(p))),
        None => match raw.picker {
            Some(pk) => Some(picker_refusal(pk)),
            None => if flat_used(raw) {
                Some(flat_refusal(raw))
            } else {
                None
            },
        },
    }
}

/// The configuration a parsed `config.toml` holds, or why it is refused.
pub fn config_from_toml(raw: RawToml) -> (r: Result<Config, String>)
    ensures
        match r {
            Ok(c) => {
                &&& toml_refusal(raw) is None
                &&& c.repo == raw.repo
                &&& c.history == raw.history
                &&& c.shell == raw.shell
                &&& c.selector.height@ == (match raw.selector.height {
                    Some(h) => h@,
                    None => "50%"@,
                })
                &&& c.selector.preview == (match raw.selector.preview {
                    Some(b) => b,
                    None => true,
                })
                &&& c.selector.preview_window@ == (match raw.selector.preview_window {
                    Some(w) => w@,
                    None => "right:50%"@,
                })
            },
            Err(e) => toml_refusal(raw) == Some(e@),
        },
{
    match &raw.paths {
        Some(paths) => {
            return Err(legacy_paths_error(paths));
        },
        None => {},
    }
    match &raw.picker {
        Some(picker) => {
            return Err(renamed_picker_error(picker));
        },
        None => {},
    }
    match raw.flat_layout() {
        Some(flat) => {
            return Err(legacy_flat_error(&raw, &flat));
        },
        None => {},
    }
    Ok(Config {
        repo: raw.repo,
        history: raw.history,
        selector: selector_from(raw.selector),
        shell: raw.shell,
    })
}

/// The legacy `config.json` only ever had the old flat `paths` list, so it
/// is always refused, with the same advice an old `paths` key gets.
pub fn config_from_json(paths: Vec<PathEntry>) -> (r: Result<Config, String>)
    ensures
        match r {
            Ok(_) => false,
            Err(e) => e@ == paths_refusal(hint_of(LegacyPaths::Flat(paths))),
        },
{
    let legacy = LegacyPaths::Flat(paths);
    Err(legacy_paths_error(&legacy))
}


/// Whether a labels table files `owner` under `label`.
pub open spec fn files_owner(t: Seq<(Seq<char>, Seq<Seq<char>>)>, label: Seq<char>, owner: Seq<char>) -> bool {
    exists|k: int| 0 <= k < t.len() && (#[trigger] t[k]).0 == label && t[k].1.contains(owner)
}

/// A labels table keeps every owner it filed when one more is filed.
proof fn lemma_label_step_keeps(
    t: Seq<(Seq<char>, Seq<Seq<char>>)>,
    label: Seq<char>,
    owner: Seq<char>,
    l: Seq<char>,
    o: Seq<char>,
)
    requires
        files_owner(t, l, o),
    ensures
        files_owner(label_step(t, label, owner), l, o),
{
    lemma_key_index(t, label);
    let k = choose|k: int| 0 <= k < t.len() && (#[trigger] t[k]).0 == l && t[k].1.contains(o);
    let u = label_step(t, label, owner);
    let j = choose|j: int| 0 <= j < t[k].1.len() && t[k].1[j] == o;
    match key_index(t, label) {
        Some(i) => {
            if i == k {
                assert(u[k].1[j] == o);
            } else {
                assert(u[k] == t[k]);
            }
        },
        None => {
            assert(u[k] == t[k]);
        },
    }
    assert(u[k].1.contains(o));
}

/// Migrating an old `paths` key loses no entry: one that encodes a root and
/// an owner has its owner filed under its label (or `personal`), and every
/// other one is kept as an `extra` path.
pub proof fn lemma_migration_keeps_every_entry(es: Seq<(Option<Seq<char>>, (Seq<char>, usize))>)
    ensures
        forall|i: int|
            0 <= i < es.len() ==> match owner_split(#[trigger] es[i].1) {
                Some(s) => files_owner(labels_of(es), label_or_personal(es[i].0), s.1),
                None => extras_of(es).contains(es[i].1.0),
            },
    decreases es.len(),
{
    if es.len() > 0 {
        let p = es.drop_last();
        lemma_migration_keeps_every_entry(p);
        let last = es.last();
        assert forall|i: int| 0 <= i < es.len() implies match owner_split(#[trigger] es[i].1) {
            Some(s) => files_owner(labels_of(es), label_or_personal(es[i].0), s.1),
            None => extras_of(es).contains(es[i].1.0),
        } by {
            if i < p.len() {
                assert(es[i] == p[i]);
                match owner_split(es[i].1) {
                    Some(s) => {
                        match owner_split(last.1) {
                            Some(t) => {
                                lemma_label_step_keeps(
                                    labels_of(p),
                                    label_or_personal(last.0),
                                    t.1,
                                    label_or_personal(es[i].0),
                                    s.1,
                                );
                            },
                            None => {},
                        }
                    },
                    None => {
                        let j = choose|j: int| 0 <= j < extras_of(p).len() && extras_of(p)[j] == es[i].1.0;
                        match owner_split(last.1) {
                            Some(_) => {},
                            None => {
                                assert(extras_of(es)[j] == extras_of(p)[j]);
                            },
                        }
                    },
                }
            } else {
                let t = labels_of(p);
                match owner_split(last.1) {
                    Some(s) => {
                        let label = label_or_personal(last.0);
                        lemma_key_index(t, label);
                        let u = labels_of(es);
                        match key_index(t, label) {
                            Some(k) => {
                                assert(u[k].1[t[k].1.len() as int] == s.1);
                                assert(u[k].1.contains(s.1));
                            },
                            None => {
                                assert(u[t.len() as int].1[0] == s.1);
                                assert(u[t.len() as int].1.contains(s.1));
                            },
                        }
                    },
                    None => {
                        assert(extras_of(es)[extras_of(p).len() as int] == last.1.0);
                    },
                }
            }
        }
    }
}

} // verus!
