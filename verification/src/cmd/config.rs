//! `scriv config`'s decisions: the starter configuration, and how `config
//! check` rows, its summary, and its look-ups of programs and their versions
//! come out.

use vstd::prelude::*;

use crate::binding::{action, action_named, entries, table_of};
use crate::config::{opt_view, split_words, words, Config, RepoConfig, ShellConfig};
use crate::files::strs;
use crate::history::{entry_views, parse, parsed, recent_first, recent_first_of};
use crate::path::{expand_home_dir, expanded_home_dir};
use crate::note::{padded, push_column};
use crate::path::{join_path, join_path_str};
use crate::text::{chars_of, decimal, decimal_string, is_digit, join, join_strings, split, split_range, string_from};

verus! {

/// A commented starter config. Settings are grouped by the command that reads
/// them; users edit it to taste.
pub const TEMPLATE: &'static str = "# scriv configuration. Settings are grouped by the command that reads them,
# with `[selector]` — shared by every selector — at the end.

# `scriv repo`: where your repositories are, and how they are labelled.
[repo]

# Every repository lives under one root, laid out as <owner>/<repo> — the same
# shape as GitHub itself. `repo clone` writes here, so a clone always lands
# somewhere `repo sel` will find it.
root = \"~/dev/github.com\"

# Repositories outside the root, listed one at a time. An escape hatch for
# checkouts that predate the layout; `clone` never writes here.
# extra = [\"~/bin\"]

# Directory names to skip while searching.
ignore = [\"node_modules\", \"target\"]

# How repository paths are rendered: relative | tilde | full
# display = \"relative\"

# Labels name owners, one label to many owners, so everything you touch for work
# colours as one group in the selector however many orgs it spans. An owner with
# no label still shows up — just uncoloured.
#
# Written inline, on one line, so it stays an ordinary `[repo]` key: a
# `[repo.labels]` header would swallow every `[repo]` key written after it.
# labels = { personal = [\"your-github-user\"], work = [\"acme\", \"acme-labs\"] }

# `scriv history`: which shell history to search.
[history]

# fish's history file. The default is $XDG_DATA_HOME/fish/fish_history, falling
# back to ~/.local/share/fish/fish_history. Set this only if you have named your
# session — `set -U fish_history work` reads `work_history` instead — since fish
# does not export that variable for scriv to find.
# file = \"~/.local/share/fish/work_history\"

# `scriv init`: what the shell integration defines.
#
# Neither table holds shell code — each names an action scriv defines, so the
# same configuration serves fish and any shell scriv later learns to write for.
# A table left out binds nothing; uncomment one to bind what it lists.
#
# Keys are spelled as fish spells them.
# [shell.bindings]
# ctrl-o = \"repo-cd\"          # cd to a repository
# ctrl-t = \"worktree-cd\"      # cd to a worktree of this repository
# f1     = \"repo-open\"        # open a repository on GitHub
# f2     = \"pr-open\"          # open this branch's pull request, or the list
# f3     = \"file-edit\"        # open a tracked file in $EDITOR
# ctrl-g = \"branch-checkout\"  # check out a branch
# f7     = \"pr-checkout\"      # check out a pull request
# f10    = \"note-edit\"        # open a note from the vault
# ctrl-r = \"history-select\"   # search history onto the command line
# up     = \"history-up\"       # the same, on the first line of a prompt

# Names defined as shell functions, each passing its arguments through.
# [shell.aliases]
# fe = \"edit\"           # scriv edit
# kl = \"proc-kill\"      # scriv ps kill --force
# i  = \"project-deps\"   # scriv project deps
# b  = \"project-build\"  # scriv project build

# The built-in fuzzy selector, shared by every command that opens one.
[selector]
height = \"50%\"        # finder height, e.g. \"50%\" or \"20\"
# preview = true       # show a preview pane for the highlighted row
# preview_window = \"right:50%\" # preview layout: [up|down|left|right][:SIZE][:hidden]
";

/// How one check came out. Only a failure means something is broken.
#[derive(Debug, Clone, Copy, PartialEq, Eq, Structural)]
pub enum Status {
    Pass,
    Warn,
    Fail,
}

pub open spec fn glyph_of(s: Status) -> Seq<char> {
    match s {
        Status::Pass => "✓"@,
        Status::Warn => "!"@,
        Status::Fail => "✗"@,
    }
}

pub open spec fn status_color(s: Status) -> u8 {
    match s {
        Status::Pass => 2,
        Status::Warn => 3,
        Status::Fail => 1,
    }
}

impl Status {
    /// A shape, not a colour alone, so a piped report says as much.
    pub fn glyph(self) -> (r: &'static str)
        ensures
            r@ == glyph_of(self),
    {
        match self {
            Status::Pass => "✓",
            Status::Warn => "!",
            Status::Fail => "✗",
        }
    }

    /// ANSI 256-colour index: green, yellow, red.
    pub fn color(self) -> (r: u8)
        ensures
            r == status_color(self),
    {
        match self {
            Status::Pass => 2,
            Status::Warn => 3,
            Status::Fail => 1,
        }
    }

    /// The colour the row's name takes: only a failure is coloured.
    pub fn name_color(self) -> (r: Option<u8>)
        ensures
            r == (if self == Status::Fail { Some(1u8) } else { None }),
    {
        match self {
            Status::Fail => Some(1),
            _ => None,
        }
    }
}

/// One thing that was looked at, and what was found.
#[derive(Debug, Clone)]
pub struct Check {
    /// What was looked at, e.g. `repo root`.
    pub name: &'static str,
    pub status: Status,
    /// What was found, and what to do about it when something is wrong; empty
    /// where a working setup has nothing to add.
    pub detail: String,
}

impl Check {
    pub fn new(name: &'static str, status: Status, detail: &str) -> (r: Self)
        ensures
            r.name == name,
            r.status == status,
            r.detail@ == detail@,
    {
        Check { name, status, detail: String::from_str(detail) }
    }

    pub fn ok(name: &'static str, detail: &str) -> (r: Self)
        ensures
            r.name == name,
            r.status == Status::Pass,
            r.detail@ == detail@,
    {
        Check::new(name, Status::Pass, detail)
    }

    pub fn warn(name: &'static str, detail: &str) -> (r: Self)
        ensures
            r.name == name,
            r.status == Status::Warn,
            r.detail@ == detail@,
    {
        Check::new(name, Status::Warn, detail)
    }

    pub fn fail(name: &'static str, detail: &str) -> (r: Self)
        ensures
            r.name == name,
            r.status == Status::Fail,
            r.detail@ == detail@,
    {
        Check::new(name, Status::Fail, detail)
    }
}

/// `count` with the noun it counts, in the number the count calls for.
pub open spec fn plural_of(count: nat, one: Seq<char>, many: Seq<char>) -> Seq<char> {
    decimal(count) + " "@ + (if count == 1 {
        one
    } else {
        many
    })
}

/// `count` with the noun it counts.
pub fn plural(count: usize, one: &str, many: &str) -> (r: String)
    ensures
        r@ == plural_of(count as nat, one@, many@),
{
    let mut out = decimal_string(count as u64);
    out.append(" ");
    out.append(if count == 1 { one } else { many });
    out
}

/// One check's row as drawn without colour: the glyph, the name padded to
/// `width` where a detail follows it, and the detail.
pub open spec fn check_row(name: Seq<char>, status: Status, detail: Seq<char>, width: nat) -> Seq<char> {
    "  "@ + glyph_of(status) + " "@ + (if detail.len() == 0 {
        name
    } else {
        padded(name, width) + "  "@ + detail
    })
}

/// Render one check as its row. `width` is the widest name in the report; a
/// row with nothing to add is not padded to it.
pub fn render_check(check: &Check, width: usize) -> (r: String)
    ensures
        r@ == check_row(check.name@, check.status, check.detail@, width as nat),
{
    let mut row = String::from_str("  ");
    row.append(check.status.glyph());
    row.append(" ");
    if check.detail.unicode_len() == 0 {
        row.append(check.name);
    } else {
        push_column(&mut row, check.name, width);
        row.append("  ");
        row.append(check.detail.as_str());
    }
    row
}

/// How many of `statuses` are `s`.
pub open spec fn count_of(statuses: Seq<Status>, s: Status) -> nat
    decreases statuses.len(),
{
    if statuses.len() == 0 {
        0
    } else {
        count_of(statuses.drop_last(), s) + (if statuses.last() == s {
            1nat
        } else {
            0nat
        })
    }
}

/// What a report came to: how many checks, how many failed and how many want
/// looking at, or that all is clear.
pub open spec fn summary_parts(total: nat, failed: nat, warned: nat) -> Seq<Seq<char>> {
    seq![decimal(total) + " checks"@] + (if failed > 0 {
        seq![decimal(failed) + " failed"@]
    } else {
        Seq::empty()
    }) + (if warned > 0 {
        seq![decimal(warned) + " to look at"@]
    } else {
        Seq::empty()
    }) + (if failed == 0 && warned == 0 {
        seq!["all clear"@]
    } else {
        Seq::empty()
    })
}

/// The colour a report's summary is painted in: its worst status's.
pub open spec fn summary_color(failed: nat, warned: nat) -> u8 {
    if failed > 0 {
        1
    } else if warned > 0 {
        3
    } else {
        2
    }
}

fn count_status(checks: &[&Check], s: Status) -> (r: usize)
    ensures
        r == count_of(checks@.map_values(|c: &Check| c.status), s),
        r <= checks@.len(),
{
    let ghost st = checks@.map_values(|c: &Check| c.status);
    let mut n: usize = 0;
    let mut i: usize = 0;
    while i < checks.len()
        invariant
            st == checks@.map_values(|c: &Check| c.status),
            i <= st.len(),
            n == count_of(st.take(i as int), s),
            n <= i,
        decreases st.len() - i,
    {
        assert(st.take(i + 1).drop_last() =~= st.take(i as int));
        if checks[i].status == s {
            n += 1;
        }
        i += 1;
    }
    assert(st.take(st.len() as int) =~= st);
    n
}

/// What the report came to, and the colour it is painted in.
pub fn summary(checks: &[&Check]) -> (r: (String, u8))
    ensures
        ({
            let st = checks@.map_values(|c: &Check| c.status);
            let failed = count_of(st, Status::Fail);
            let warned = count_of(st, Status::Warn);
            &&& r.0@ == join(summary_parts(checks@.len() as nat, failed, warned), " · "@)
            &&& r.1 == summary_color(failed, warned)
        }),
{
    let warned = count_status(checks, Status::Warn);
    let failed = count_status(checks, Status::Fail);
    let mut parts: Vec<String> = Vec::new();
    let mut first = decimal_string(checks.len() as u64);
    first.append(" checks");
    parts.push(first);
    if failed > 0 {
        let mut p = decimal_string(failed as u64);
        p.append(" failed");
        parts.push(p);
    }
    if warned > 0 {
        let mut p = decimal_string(warned as u64);
        p.append(" to look at");
        parts.push(p);
    }
    if failed == 0 && warned == 0 {
        parts.push(String::from_str("all clear"));
    }
    assert(parts@.map_values(|p: String| p@) =~= summary_parts(
        checks@.len() as nat,
        failed as nat,
        warned as nat,
    ));
    let color: u8 = if failed > 0 {
        1
    } else if warned > 0 {
        3
    } else {
        2
    };
    (join_strings(&parts, " · "), color)
}

/// How many checks failed. Warnings are not failures.
pub fn failures(checks: &[Check]) -> (r: usize)
    ensures
        r == count_of(checks@.map_values(|c: Check| c.status), Status::Fail),
{
    let ghost st = checks@.map_values(|c: Check| c.status);
    let mut n: usize = 0;
    let mut i: usize = 0;
    while i < checks.len()
        invariant
            st == checks@.map_values(|c: Check| c.status),
            i <= st.len(),
            n == count_of(st.take(i as int), Status::Fail),
            n <= i,
        decreases st.len() - i,
    {
        assert(st.take(i + 1).drop_last() =~= st.take(i as int));
        if checks[i].status == Status::Fail {
            n += 1;
        }
        i += 1;
    }
    assert(st.take(st.len() as int) =~= st);
    n
}

/// What the `gh` row says once `gh` is installed: its version, and whether
/// it can act as anyone. Not being logged in is a warning, with the way out.
pub open spec fn gh_state_of(version: Seq<char>, authenticated: bool) -> (Status, Seq<char>) {
    if authenticated {
        (Status::Pass, version + ", authenticated"@)
    } else {
        (Status::Warn, version + ", not authenticated — run `gh auth login`"@)
    }
}

/// What the `gh` row says once `gh` is installed.
pub fn gh_state(version: &str, authenticated: bool) -> (r: (Status, String))
    ensures
        (r.0, r.1@) == gh_state_of(version@, authenticated),
{
    let mut out = String::from_str(version);
    if authenticated {
        out.append(", authenticated");
        (Status::Pass, out)
    } else {
        out.append(", not authenticated — run `gh auth login`");
        (Status::Warn, out)
    }
}

/// A word of a `--version` line without a leading `v`.
pub open spec fn unprefixed_word(w: Seq<char>) -> Seq<char> {
    if w.len() > 0 && w[0] == 'v' {
        w.drop_first()
    } else {
        w
    }
}

/// The first of `ws`, unprefixed, that starts with a digit.
pub open spec fn first_version(ws: Seq<Seq<char>>) -> Option<Seq<char>>
    decreases ws.len(),
{
    if ws.len() == 0 {
        None
    } else {
        let w = unprefixed_word(ws[0]);
        if w.len() > 0 && is_digit(w[0]) {
            Some(w)
        } else {
            first_version(ws.drop_first())
        }
    }
}

/// The version out of a `--version` line: the first word that starts with a
/// digit once a `v` prefix is dropped — `git version 2.51.0` is `2.51.0`.
pub fn version_number(line: &str) -> (r: Option<String>)
    ensures
        match r {
            Some(v) => first_version(words(line@)) == Some(v@),
            None => first_version(words(line@)) is None,
        },
{
    let ws = split_words(line);
    let ghost wv = ws@.map_values(|w: String| w@);
    let mut i: usize = 0;
    assert(wv.skip(0) =~= wv);
    while i < ws.len()
        invariant
            wv == ws@.map_values(|w: String| w@),
            wv == words(line@),
            i <= wv.len(),
            first_version(wv) == first_version(wv.skip(i as int)),
        decreases wv.len() - i,
    {
        let v = chars_of(ws[i].as_str());
        assert(wv.skip(i as int)[0] == v@);
        let start: usize = if v.len() > 0 && v[0] == 'v' { 1 } else { 0 };
        assert(v@.subrange(start as int, v@.len() as int) =~= unprefixed_word(v@));
        if start < v.len() && '0' <= v[start] && v[start] <= '9' {
            return Some(crate::text::string_of(&v, start, v.len()));
        }
        assert(wv.skip(i as int).drop_first() =~= wv.skip(i + 1));
        i += 1;
    }
    None
}

/// The non-empty entries of a `PATH`, in order.
pub open spec fn nonempty(ds: Seq<Seq<char>>) -> Seq<Seq<char>>
    decreases ds.len(),
{
    if ds.len() == 0 {
        Seq::empty()
    } else if ds.last().len() == 0 {
        nonempty(ds.drop_last())
    } else {
        nonempty(ds.drop_last()).push(ds.last())
    }
}

/// Where `program` may be, in the order a shell looks: itself where it holds
/// a `/`, else in each non-empty `PATH` entry; nowhere without a `PATH`.
pub open spec fn candidates(program: Seq<char>, path_env: Option<Seq<char>>) -> Seq<Seq<char>> {
    if program.contains('/') {
        seq![program]
    } else {
        match path_env {
            None => Seq::empty(),
            Some(p) => nonempty(split(p, ':')).map_values(|d: Seq<char>| join_path(d, program)),
        }
    }
}

/// Whether `present` may have answered `b` about a path with this text.
pub open spec fn said<F: Fn(&str) -> bool>(present: F, path: Seq<char>, b: bool) -> bool {
    exists|t: &str| t@ == path && #[trigger] present.ensures((t,), b)
}

/// Resolve `program` the way a shell would: a name holding a separator is a
/// path already; anything else is looked for in each `PATH` entry in order.
/// `present` is asked about each candidate in turn, and the first it answers
/// `true` for is the result.
pub fn resolve_on_path<F: Fn(&str) -> bool>(program: &str, path_env: Option<&str>, present: F) -> (r: Option<
    String,
>)
    requires
        forall|t: &str| #[trigger] present.requires((t,)),
    ensures
        ({
            let c = candidates(program@, crate::config::opt_view(path_env));
            match r {
                Some(found) => exists|k: int|
                    0 <= k < c.len() && c[k] == found@ && said(present, c[k], true) && forall|j: int|
                        0 <= j < k ==> said(present, #[trigger] c[j], false),
                None => forall|j: int| 0 <= j < c.len() ==> said(present, #[trigger] c[j], false),
            }
        }),
{
    let pv = chars_of(program);
    let mut slash = false;
    let mut i: usize = 0;
    while i < pv.len()
        invariant
            pv@ == program@,
            i <= pv@.len(),
            slash == exists|j: int| 0 <= j < i && pv@[j] == '/',
        decreases pv@.len() - i,
    {
        if pv[i] == '/' {
            slash = true;
        }
        i += 1;
    }
    let ghost c = candidates(program@, crate::config::opt_view(path_env));
    if slash {
        assert(program@.contains('/'));
        let answer = present(program);
        assert(c[0] == program@);
        assert(said(present, c[0], answer));
        return if answer {
            Some(String::from_str(program))
        } else {
            None
        };
    }
    assert(!program@.contains('/'));
    match path_env {
        None => None,
        Some(p) => {
            let v = chars_of(p);
            assert(v@.subrange(0, v@.len() as int) =~= v@);
            let dirs = split_range(&v, 0, v.len(), ':');
            let ghost ds = split(p@, ':');
            let ghost ne = nonempty(ds);
            let mut k: usize = 0;
            let ghost mut tried: Seq<Seq<char>> = Seq::empty();
            while k < dirs.len()
                invariant
                    forall|t: &str| #[trigger] present.requires((t,)),
                    dirs@.map_values(|d: Vec<char>| d@) == ds,
                    ds == split(p@, ':'),
                    ne == nonempty(ds),
                    c == ne.map_values(|d: Seq<char>| join_path(d, program@)),
                    c == candidates(program@, crate::config::opt_view(path_env)),
                    k <= ds.len(),
                    tried == nonempty(ds.take(k as int)).map_values(|d: Seq<char>| join_path(d, program@)),
                    forall|j: int| 0 <= j < tried.len() ==> said(present, #[trigger] tried[j], false),
                decreases ds.len() - k,
            {
                assert(ds.take(k + 1).drop_last() =~= ds.take(k as int));
                let d = &dirs[k];
                assert(d@ == ds[k as int]);
                if d.len() > 0 {
                    let dir = string_from(d);
                    let candidate = join_path_str(dir.as_str(), program);
                    let cs = candidate.as_str();
                    let answer = present(cs);
                    proof {
                        lemma_nonempty_prefix(ds, k as int + 1, ne.len() as int);
                    }
                    if answer {
                        proof {
                            let t2 = nonempty(ds.take(k + 1)).map_values(|x: Seq<char>| join_path(x, program@));
                            assert(t2 =~= tried.push(candidate@));
                            assert(c[tried.len() as int] == candidate@);
                            assert(present.ensures((cs,), answer));
                            assert(said(present, c[tried.len() as int], true));
                            assert forall|j: int| 0 <= j < tried.len() implies said(present, #[trigger] c[j], false) by {
                                assert(c[j] == tried[j]);
                            }
                            let kk = tried.len() as int;
                            assert(0 <= kk < c.len() && c[kk] == candidate@ && said(present, c[kk], true)
                                && forall|j: int| 0 <= j < kk ==> said(present, #[trigger] c[j], false));
                        }
                        return Some(candidate);
                    }
                    proof {
                        assert(present.ensures((cs,), answer));
                        assert(said(present, candidate@, false));
                        tried = tried.push(candidate@);
                    }
                }
                k += 1;
            }
            assert(ds.take(ds.len() as int) =~= ds);
            None
        },
    }
}

/// What a prefix of a list keeps is a prefix of what the whole list keeps.
proof fn lemma_nonempty_prefix(ds: Seq<Seq<char>>, k: int, n: int)
    requires
        0 <= k <= ds.len(),
        n == nonempty(ds).len(),
    ensures
        nonempty(ds.take(k)).len() <= n,
        forall|j: int| 0 <= j < nonempty(ds.take(k)).len() ==> nonempty(ds.take(k))[j] == nonempty(ds)[j],
    decreases ds.len() - k,
{
    if k < ds.len() {
        lemma_nonempty_prefix(ds, k + 1, n);
        assert(ds.take(k + 1).drop_last() =~= ds.take(k));
    } else {
        assert(ds.take(k) =~= ds);
    }
}

// --- what `config check` looks at ------------------------------------------

impl View for Check {
    type V = (Seq<char>, Status, Seq<char>);

    open spec fn view(&self) -> (Seq<char>, Status, Seq<char>) {
        (self.name@, self.status, self.detail@)
    }
}

/// What a row says about an installed tool, from the first line of its
/// `--version`: the version, or that it is there at all when it will not say.
pub open spec fn installed_of(first_line: Option<Seq<char>>) -> Seq<char> {
    match first_line {
        Some(l) => match first_version(words(l)) {
            Some(v) => v,
            None => "installed"@,
        },
        None => "installed"@,
    }
}

/// See [`installed_of`].
pub fn installed(first_line: Option<&str>) -> (r: String)
    ensures
        r@ == installed_of(opt_view(first_line)),
{
    match first_line {
        Some(l) => match version_number(l) {
            Some(v) => v,
            None => String::from_str("installed"),
        },
        None => String::from_str("installed"),
    }
}

pub open spec fn not_on_path(note: Seq<char>) -> Seq<char> {
    "not on PATH — "@ + note
}

/// Whether a tool scriv shells out to is installed, and which version: missing,
/// it fails the report only where it is `required`.
pub open spec fn tool_check_of(
    name: Seq<char>,
    found: bool,
    first_line: Option<Seq<char>>,
    required: bool,
    note: Seq<char>,
) -> (Seq<char>, Status, Seq<char>) {
    if found {
        (name, Status::Pass, installed_of(first_line))
    } else if required {
        (name, Status::Fail, not_on_path(note))
    } else {
        (name, Status::Warn, not_on_path(note))
    }
}

/// See [`tool_check_of`]. `found` is whether the program is on `PATH`, and
/// `first_line` the first line its `--version` printed.
pub fn tool_check(name: &'static str, found: bool, first_line: Option<&str>, required: bool, note: &str) -> (r:
    Check)
    ensures
        r@ == tool_check_of(name@, found, opt_view(first_line), required, note@),
{
    if found {
        let v = installed(first_line);
        Check::ok(name, v.as_str())
    } else {
        let mut detail = String::from_str("not on PATH — ");
        detail.append(note);
        if required {
            Check::fail(name, detail.as_str())
        } else {
            Check::warn(name, detail.as_str())
        }
    }
}

/// What the `gh` row says when `gh` is not installed at all.
pub const GH_NOTE: &'static str = "only `pr` and `repo clone`/`open` need it (https://cli.github.com)";

/// `gh`: installed, and logged in. Neither stops the rest of scriv, so
/// neither fails the report.
pub open spec fn gh_check_of(found: bool, first_line: Option<Seq<char>>, authenticated: bool) -> (
    Seq<char>,
    Status,
    Seq<char>,
) {
    if !found {
        ("gh"@, Status::Warn, not_on_path(GH_NOTE@))
    } else {
        let st = gh_state_of(installed_of(first_line), authenticated);
        ("gh"@, st.0, st.1)
    }
}

/// See [`gh_check_of`].
pub fn gh_check(found: bool, first_line: Option<&str>, authenticated: bool) -> (r: Check)
    ensures
        r@ == gh_check_of(found, opt_view(first_line), authenticated),
{
    if !found {
        let mut detail = String::from_str("not on PATH — ");
        detail.append(GH_NOTE);
        return Check::warn("gh", detail.as_str());
    }
    let v = installed(first_line);
    let (status, detail) = gh_state(v.as_str(), authenticated);
    Check::new("gh", status, detail.as_str())
}

/// The config file itself: reaching the report means it parsed, so the only
/// question left is whether there is one. Absent is a warning, since the
/// known-files commands work without it.
pub open spec fn config_check_of(exists: bool, path: Seq<char>) -> (Seq<char>, Status, Seq<char>) {
    if exists {
        ("config file"@, Status::Pass, ""@)
    } else {
        ("config file"@, Status::Warn, path + " not found — run `scriv config init`"@)
    }
}

/// See [`config_check_of`].
pub fn config_check(exists: bool, path: &str) -> (r: Check)
    ensures
        r@ == config_check_of(exists, path@),
{
    if exists {
        Check::ok("config file", "")
    } else {
        let mut detail = String::from_str(path);
        detail.append(" not found — run `scriv config init`");
        Check::warn("config file", detail.as_str())
    }
}

/// The row about the search root. `root_is_dir` is whether the root, with `~`
/// expanded, is a directory.
pub open spec fn root_check_of(root: Option<Seq<char>>, extra_empty: bool, home: Seq<char>, root_is_dir: bool) -> (
    Seq<char>,
    Status,
    Seq<char>,
) {
    match root {
        None => if extra_empty {
            (
                "repo root"@,
                Status::Fail,
                "not set — `repo`, `edit --tracked` and `repo clone` have nowhere to look"@,
            )
        } else {
            ("repo root"@, Status::Warn, "not set; only `extra` is searched"@)
        },
        Some(r) => if root_is_dir {
            ("repo root"@, Status::Pass, ""@)
        } else {
            ("repo root"@, Status::Fail, expanded_home_dir(r, home) + " is not a directory"@)
        },
    }
}

/// The `extra` paths among the first `n` that are not directories, as written.
pub open spec fn missing_among(extra: Seq<Seq<char>>, is_dir: Seq<bool>, n: int) -> Seq<Seq<char>>
    decreases n,
{
    if n <= 0 {
        Seq::empty()
    } else {
        let rest = missing_among(extra, is_dir, n - 1);
        if is_dir[n - 1] {
            rest
        } else {
            rest.push(extra[n - 1])
        }
    }
}

/// The row about the `extra` paths: a missing one is a failure, since
/// discovery treats a missing search path as an error.
pub open spec fn extra_check_of(extra: Seq<Seq<char>>, is_dir: Seq<bool>) -> (Seq<char>, Status, Seq<char>) {
    let missing = missing_among(extra, is_dir, extra.len() as int);
    if missing.len() == 0 {
        ("repo extra"@, Status::Pass, plural_of(extra.len(), "path"@, "paths"@))
    } else {
        ("repo extra"@, Status::Fail, "missing: "@ + join(missing, ", "@))
    }
}

/// The search root, and the `extra` paths beside it where there are any.
pub open spec fn root_checks_of(
    root: Option<Seq<char>>,
    extra: Seq<Seq<char>>,
    home: Seq<char>,
    root_is_dir: bool,
    extra_is_dir: Seq<bool>,
) -> Seq<(Seq<char>, Status, Seq<char>)> {
    seq![root_check_of(root, extra.len() == 0, home, root_is_dir)] + if extra.len() == 0 {
        Seq::empty()
    } else {
        seq![extra_check_of(extra, extra_is_dir)]
    }
}

pub open spec fn checks_view(cs: Seq<Check>) -> Seq<(Seq<char>, Status, Seq<char>)> {
    cs.map_values(|c: Check| c@)
}

/// See [`root_checks_of`]. `root_is_dir` answers for the root with `~`
/// expanded against `home`, and `extra_is_dir` for each `extra` path in turn.
pub fn root_checks(repo: &RepoConfig, home: &str, root_is_dir: bool, extra_is_dir: &Vec<bool>) -> (r: Vec<Check>)
    requires
        extra_is_dir@.len() == repo.extra@.len(),
    ensures
        checks_view(r@) == root_checks_of(
            crate::cmd::report::opt_seq(repo.root),
            strs(repo.extra@),
            home@,
            root_is_dir,
            extra_is_dir@,
        ),
{
    let mut checks: Vec<Check> = Vec::new();
    let first = match &repo.root {
        None => if repo.extra.len() == 0 {
            Check::fail("repo root", "not set — `repo`, `edit --tracked` and `repo clone` have nowhere to look")
        } else {
            Check::warn("repo root", "not set; only `extra` is searched")
        },
        Some(root) => if root_is_dir {
            Check::ok("repo root", "")
        } else {
            let mut detail = expand_home_dir(root.as_str(), home);
            detail.append(" is not a directory");
            Check::fail("repo root", detail.as_str())
        },
    };
    checks.push(first);
    let ghost ev = strs(repo.extra@);
    if repo.extra.len() > 0 {
        let mut missing: Vec<String> = Vec::new();
        let mut i: usize = 0;
        while i < repo.extra.len()
            invariant
                ev == strs(repo.extra@),
                extra_is_dir@.len() == repo.extra@.len(),
                i <= repo.extra@.len(),
                strs(missing@) == missing_among(ev, extra_is_dir@, i as int),
            decreases repo.extra@.len() - i,
        {
            if !extra_is_dir[i] {
                let ghost before = missing@;
                missing.push(repo.extra[i].clone());
                assert(strs(missing@) =~= strs(before).push(ev[i as int]));
            }
            i += 1;
        }
        let c = if missing.len() == 0 {
            let p = plural(repo.extra.len(), "path", "paths");
            Check::ok("repo extra", p.as_str())
        } else {
            let mut detail = String::from_str("missing: ");
            let joined = join_strings(&missing, ", ");
            assert(missing@.map_values(|p: String| p@) == strs(missing@));
            detail.append(joined.as_str());
            Check::fail("repo extra", detail.as_str())
        };
        let ghost before = checks@;
        checks.push(c);
        assert(checks_view(checks@) =~= checks_view(before).push(c@));
    }
    assert(checks_view(checks@) =~= root_checks_of(
        crate::cmd::report::opt_seq(repo.root),
        ev,
        home@,
        root_is_dir,
        extra_is_dir@,
    ));
    checks
}

/// Whether discovery is worth running for the report: not where a search
/// path was already reported missing, and not where there is nothing to search.
pub fn wants_discovery(paths_ok: bool, repo: &RepoConfig) -> (r: bool)
    ensures
        r == (paths_ok && !(repo.root is None && repo.extra@.len() == 0)),
{
    paths_ok && !(repo.root.is_none() && repo.extra.len() == 0)
}

/// How many repositories discovery found, or why it could not look.
pub open spec fn discovery_check_of(found: Result<nat, Seq<char>>) -> (Seq<char>, Status, Seq<char>) {
    match found {
        Ok(n) => if n == 0 {
            ("repositories"@, Status::Warn, "none found — check `root` and `ignore` in the config"@)
        } else {
            ("repositories"@, Status::Pass, decimal(n) + " found"@)
        },
        Err(e) => ("repositories"@, Status::Fail, e),
    }
}

/// See [`discovery_check_of`].
pub fn discovery_check(found: Result<usize, String>) -> (r: Check)
    ensures
        r@ == discovery_check_of(
            match found {
                Ok(n) => Ok(n as nat),
                Err(e) => Err(e@),
            },
        ),
{
    match found {
        Ok(n) => if n == 0 {
            Check::warn("repositories", "none found — check `root` and `ignore` in the config")
        } else {
            let mut detail = decimal_string(n as u64);
            detail.append(" found");
            Check::ok("repositories", detail.as_str())
        },
        Err(e) => Check::fail("repositories", e.as_str()),
    }
}

/// The program an editor setting runs: its first word, since the setting may
/// carry arguments (`code -w`).
pub open spec fn editor_program_of(setting: Seq<char>) -> Seq<char> {
    if words(setting).len() > 0 {
        words(setting)[0]
    } else {
        setting
    }
}

/// See [`editor_program_of`].
pub fn editor_program(setting: &str) -> (r: String)
    ensures
        r@ == editor_program_of(setting@),
{
    let ws = split_words(setting);
    assert(ws@.map_values(|w: String| w@) == words(setting@));
    if ws.len() > 0 {
        ws[0].clone()
    } else {
        String::from_str(setting)
    }
}

/// Whether an editor command is a program this machine has. `found` is where
/// its program was found on `PATH`.
pub open spec fn editor_on_path_of(name: Seq<char>, setting: Seq<char>, found: Option<Seq<char>>) -> (
    Seq<char>,
    Status,
    Seq<char>,
) {
    match found {
        Some(f) => (name, Status::Pass, f),
        None => (name, Status::Fail, "`"@ + editor_program_of(setting) + "` is not on PATH"@),
    }
}

/// See [`editor_on_path_of`].
pub fn editor_on_path(name: &'static str, setting: &str, found: Option<&str>) -> (r: Check)
    ensures
        r@ == editor_on_path_of(name@, setting@, opt_view(found)),
{
    match found {
        Some(f) => Check::ok(name, f),
        None => {
            let mut detail = String::from_str("`");
            let program = editor_program(setting);
            detail.append(program.as_str());
            detail.append("` is not on PATH");
            Check::fail(name, detail.as_str())
        },
    }
}

/// The editor `scriv edit` launches, and whether it is actually there.
pub open spec fn editor_check_of(setting: Option<Seq<char>>, found: Option<Seq<char>>) -> (Seq<char>, Status, Seq<
    char,
>) {
    match setting {
        Some(s) => editor_on_path_of("editor"@, s, found),
        None => ("editor"@, Status::Warn, "no $VISUAL or $EDITOR — `scriv edit` has nothing to open files with"@),
    }
}

/// See [`editor_check_of`].
pub fn editor_check(setting: Option<&str>, found: Option<&str>) -> (r: Check)
    ensures
        r@ == editor_check_of(opt_view(setting), opt_view(found)),
{
    match setting {
        Some(s) => editor_on_path("editor", s, found),
        None => Check::warn("editor", "no $VISUAL or $EDITOR — `scriv edit` has nothing to open files with"),
    }
}

/// The entries of a `[shell]` table naming an action nobody defines, each as
/// "`trigger` names `id`".
pub open spec fn unknown_entries(t: Seq<(Seq<char>, Seq<char>)>) -> Seq<Seq<char>>
    decreases t.len(),
{
    if t.len() == 0 {
        Seq::empty()
    } else {
        let rest = unknown_entries(t.drop_last());
        let e = t.last();
        if action_named(e.1) is None {
            rest.push("`"@ + e.0 + "` names `"@ + e.1 + "`"@)
        } else {
            rest
        }
    }
}

/// `[shell]`: whether every key and name resolves to an action that exists.
/// One that does not stops `scriv init` outright, so it fails the report.
pub open spec fn shell_check_of(b: Seq<(Seq<char>, Seq<char>)>, a: Seq<(Seq<char>, Seq<char>)>) -> (
    Seq<char>,
    Status,
    Seq<char>,
) {
    let unknown = unknown_entries(b) + unknown_entries(a);
    if unknown.len() == 0 {
        (
            "shell integration"@,
            Status::Pass,
            plural_of(b.len(), "key binding"@, "key bindings"@) + ", "@ + plural_of(a.len(), "alias"@, "aliases"@),
        )
    } else {
        (
            "shell integration"@,
            Status::Fail,
            join(unknown, ", "@) + " — no such action, and `scriv init` refuses until there is"@,
        )
    }
}

fn push_unknown(out: &mut Vec<String>, es: &Vec<(&str, &str)>)
    ensures
        strs(final(out)@) == strs(old(out)@) + unknown_entries(es@.map_values(|e: (&str, &str)| (e.0@, e.1@))),
{
    let ghost t = es@.map_values(|e: (&str, &str)| (e.0@, e.1@));
    let ghost start = strs(out@);
    let mut i: usize = 0;
    while i < es.len()
        invariant
            t == es@.map_values(|e: (&str, &str)| (e.0@, e.1@)),
            i <= es@.len(),
            strs(out@) == start + unknown_entries(t.take(i as int)),
        decreases es@.len() - i,
    {
        let (trigger, id) = es[i];
        assert(t.take(i + 1).drop_last() =~= t.take(i as int));
        assert(t.take(i + 1).last() == (trigger@, id@));
        if action(id).is_none() {
            let mut line = String::from_str("`");
            line.append(trigger);
            line.append("` names `");
            line.append(id);
            line.append("`");
            let ghost before = out@;
            out.push(line);
            assert(strs(out@) =~= strs(before).push(line@));
        }
        i += 1;
    }
    assert(t.take(t.len() as int) =~= t);
}

/// See [`shell_check_of`].
pub fn shell_check(shell: &ShellConfig) -> (r: Check)
    ensures
        r@ == shell_check_of(
            crate::cmd::report::written_table(shell.bindings),
            crate::cmd::report::written_table(shell.aliases),
        ),
{
    let b = shell.bindings.as_ref();
    let a = shell.aliases.as_ref();
    let bs = entries(b);
    let as_ = entries(a);
    assert(table_of(b) == crate::cmd::report::written_table(shell.bindings));
    assert(table_of(a) == crate::cmd::report::written_table(shell.aliases));
    let mut unknown: Vec<String> = Vec::new();
    assert(strs(unknown@) =~= Seq::<Seq<char>>::empty());
    push_unknown(&mut unknown, &bs);
    push_unknown(&mut unknown, &as_);
    if unknown.len() == 0 {
        let mut detail = plural(bs.len(), "key binding", "key bindings");
        detail.append(", ");
        let p = plural(as_.len(), "alias", "aliases");
        detail.append(p.as_str());
        Check::ok("shell integration", detail.as_str())
    } else {
        let mut detail = join_strings(&unknown, ", ");
        assert(unknown@.map_values(|p: String| p@) == strs(unknown@));
        detail.append(" — no such action, and `scriv init` refuses until there is");
        Check::fail("shell integration", detail.as_str())
    }
}

proof fn lemma_no_unknown_entries(t: Seq<(Seq<char>, Seq<char>)>)
    ensures
        unknown_entries(t).len() == 0 <==> forall|i: int| 0 <= i < t.len() ==> action_named(#[trigger] t[i].1) is Some,
    decreases t.len(),
{
    if t.len() > 0 {
        let p = t.drop_last();
        lemma_no_unknown_entries(p);
        assert(forall|i: int| 0 <= i < p.len() ==> p[i] == t[i]);
        if unknown_entries(p).len() == 0 && action_named(t.last().1) is Some {
            assert forall|i: int| 0 <= i < t.len() implies action_named(#[trigger] t[i].1) is Some by {
                if i < p.len() {
                    assert(p[i] == t[i]);
                }
            }
        } else if unknown_entries(p).len() > 0 {
            let j = choose|j: int| 0 <= j < p.len() && !(action_named(#[trigger] p[j].1) is Some);
            assert(t[j] == p[j]);
        }
    }
}

/// `config check`'s shell row passes exactly when `scriv init` resolves the
/// same configuration: an action nobody defines is found by the check before
/// `init` refuses it.
pub proof fn lemma_shell_row_passes_when_init_resolves(c: ShellConfig)
    ensures
        (shell_check_of(
            crate::cmd::report::written_table(c.bindings),
            crate::cmd::report::written_table(c.aliases),
        ).1 == Status::Pass) <==> crate::binding::resolved(c) is Ok,
{
    let b = crate::cmd::report::written_table(c.bindings);
    let a = crate::cmd::report::written_table(c.aliases);
    lemma_no_unknown_entries(b);
    lemma_no_unknown_entries(a);
    crate::binding::lemma_bound_all_ok(b);
    crate::binding::lemma_bound_all_ok(a);
}

/// What reading a file came to.
#[derive(Debug)]
pub enum FileRead {
    /// There is no such file.
    NotFound,
    /// It is there, and could not be read; why.
    Failed(String),
    /// What it holds.
    Text(String),
}

/// fish's history file: whether it is where scriv looked, and how many
/// distinct commands `history sel` would offer from it.
pub open spec fn history_check_of(path: Seq<char>, read: FileRead) -> (Seq<char>, Status, Seq<char>) {
    match read {
        FileRead::NotFound => (
            "fish history"@,
            Status::Warn,
            path + " not found — set `[history] file` if yours is elsewhere"@,
        ),
        FileRead::Failed(e) => ("fish history"@, Status::Fail, path + ": "@ + e@),
        FileRead::Text(t) => (
            "fish history"@,
            Status::Pass,
            plural_of(recent_first_of(parsed(t@)).len(), "unique command"@, "unique commands"@),
        ),
    }
}

/// See [`history_check_of`].
pub fn history_check(path: &str, read: &FileRead) -> (r: Check)
    ensures
        r@ == history_check_of(path@, *read),
{
    match read {
        FileRead::NotFound => {
            let mut detail = String::from_str(path);
            detail.append(" not found — set `[history] file` if yours is elsewhere");
            Check::warn("fish history", detail.as_str())
        },
        FileRead::Failed(e) => {
            let mut detail = String::from_str(path);
            detail.append(": ");
            detail.append(e.as_str());
            Check::fail("fish history", detail.as_str())
        },
        FileRead::Text(t) => {
            let entries = recent_first(parse(t.as_str()));
            assert(entry_views(entries@).len() == entries@.len());
            let p = plural(entries.len(), "unique command", "unique commands");
            Check::ok("fish history", p.as_str())
        },
    }
}

/// The known-files list, and how much of it is still on disk: `missing` is
/// how many of its entries no longer are.
pub open spec fn files_check_of(read: Result<nat, Seq<char>>, missing: nat) -> (Seq<char>, Status, Seq<char>) {
    match read {
        Err(e) => ("tracked files"@, Status::Fail, e),
        Ok(n) => if n == 0 {
            ("tracked files"@, Status::Pass, "none yet — add one with `scriv file add`"@)
        } else if missing == 0 {
            ("tracked files"@, Status::Pass, decimal(n) + " tracked"@)
        } else {
            (
                "tracked files"@,
                Status::Warn,
                decimal(n) + " tracked, "@ + decimal(missing) + " no longer on disk — see `scriv file ls --missing`"@,
            )
        },
    }
}

/// See [`files_check_of`].
pub fn files_check(lines: Result<&Vec<String>, &str>, missing: usize) -> (r: Check)
    ensures
        r@ == files_check_of(
            match lines {
                Ok(l) => Ok(l@.len()),
                Err(e) => Err(e@),
            },
            missing as nat,
        ),
{
    match lines {
        Err(e) => Check::fail("tracked files", e),
        Ok(l) => if l.len() == 0 {
            Check::ok("tracked files", "none yet — add one with `scriv file add`")
        } else if missing == 0 {
            let mut detail = decimal_string(l.len() as u64);
            detail.append(" tracked");
            Check::ok("tracked files", detail.as_str())
        } else {
            let mut detail = decimal_string(l.len() as u64);
            detail.append(" tracked, ");
            let m = decimal_string(missing as u64);
            detail.append(m.as_str());
            detail.append(" no longer on disk — see `scriv file ls --missing`");
            Check::warn("tracked files", detail.as_str())
        },
    }
}

/// A group of checks, named for what they are about.
#[derive(Debug)]
pub struct Section {
    pub title: &'static str,
    pub checks: Vec<Check>,
}

impl View for Section {
    type V = (Seq<char>, Seq<(Seq<char>, Status, Seq<char>)>);

    open spec fn view(&self) -> (Seq<char>, Seq<(Seq<char>, Status, Seq<char>)>) {
        (self.title@, checks_view(self.checks@))
    }
}

pub open spec fn sections_view(ss: Seq<Section>) -> Seq<(Seq<char>, Seq<(Seq<char>, Status, Seq<char>)>)> {
    ss.map_values(|s: Section| s@)
}

/// Every check of every section, in report order.
pub open spec fn all_checks(ss: Seq<(Seq<char>, Seq<(Seq<char>, Status, Seq<char>)>)>) -> Seq<
    (Seq<char>, Status, Seq<char>),
>
    decreases ss.len(),
{
    if ss.len() == 0 {
        Seq::empty()
    } else {
        all_checks(ss.drop_last()) + ss.last().1
    }
}

/// The widest name among `cs`.
pub open spec fn name_width(cs: Seq<(Seq<char>, Status, Seq<char>)>) -> nat
    decreases cs.len(),
{
    if cs.len() == 0 {
        0
    } else {
        let w = name_width(cs.drop_last());
        if cs.last().0.len() > w {
            cs.last().0.len()
        } else {
            w
        }
    }
}

/// The sections as drawn without colour: a blank line between two, each
/// section's title, then its rows.
pub open spec fn sections_lines(ss: Seq<(Seq<char>, Seq<(Seq<char>, Status, Seq<char>)>)>, width: nat) -> Seq<
    Seq<char>,
>
    decreases ss.len(),
{
    if ss.len() == 0 {
        Seq::empty()
    } else {
        let s = ss.last();
        sections_lines(ss.drop_last(), width) + (if ss.len() > 1 {
            seq![Seq::<char>::empty()]
        } else {
            Seq::empty()
        }) + seq![s.0] + s.1.map_values(|c: (Seq<char>, Status, Seq<char>)| check_row(c.0, c.1, c.2, width))
    }
}

/// The whole `config check` report without colour: the sections, a blank
/// line, and what it came to.
pub open spec fn listing_of(ss: Seq<(Seq<char>, Seq<(Seq<char>, Status, Seq<char>)>)>) -> Seq<Seq<char>> {
    let all = all_checks(ss);
    let st = all.map_values(|c: (Seq<char>, Status, Seq<char>)| c.1);
    sections_lines(ss, name_width(all)) + seq![
        Seq::<char>::empty(),
        join(
            summary_parts(all.len(), count_of(st, Status::Fail), count_of(st, Status::Warn)),
            " · "@,
        ),
    ]
}

/// The `config check` report's lines, and how many of its checks failed —
/// which is what decides the command's exit status.
pub fn check_listing(sections: &Vec<Section>) -> (r: (Vec<String>, usize))
    ensures
        strs(r.0@) == listing_of(sections_view(sections@)),
        r.1 == count_of(
            all_checks(sections_view(sections@)).map_values(|c: (Seq<char>, Status, Seq<char>)| c.1),
            Status::Fail,
        ),
{
    let ghost sv = sections_view(sections@);
    let mut all: Vec<&Check> = Vec::new();
    let mut width: usize = 0;
    let mut k: usize = 0;
    while k < sections.len()
        invariant
            sv == sections_view(sections@),
            k <= sections@.len(),
            all@.map_values(|c: &Check| c@) == all_checks(sv.take(k as int)),
            width == name_width(all_checks(sv.take(k as int))),
        decreases sections@.len() - k,
    {
        assert(sv.take(k + 1).drop_last() =~= sv.take(k as int));
        let sec = &sections[k];
        let ghost base = all_checks(sv.take(k as int));
        let mut j: usize = 0;
        while j < sec.checks.len()
            invariant
                sv == sections_view(sections@),
                k < sections@.len(),
                sec == sections@[k as int],
                j <= sec.checks@.len(),
                all@.map_values(|c: &Check| c@) == base + checks_view(sec.checks@).take(j as int),
                width == name_width(base + checks_view(sec.checks@).take(j as int)),
            decreases sec.checks@.len() - j,
        {
            let c = &sec.checks[j];
            let ghost prev = all@;
            all.push(c);
            let n = c.name.unicode_len();
            if n > width {
                width = n;
            }
            proof {
                let cv = checks_view(sec.checks@);
                assert(cv.take(j + 1) =~= cv.take(j as int).push(c@));
                assert(base + cv.take(j + 1) =~= (base + cv.take(j as int)).push(c@));
                assert((base + cv.take(j + 1)).drop_last() =~= base + cv.take(j as int));
                assert(all@.map_values(|c: &Check| c@) =~= prev.map_values(|c: &Check| c@).push(c@));
            }
            j += 1;
        }
        assert(checks_view(sec.checks@).take(sec.checks@.len() as int) =~= checks_view(sec.checks@));
        assert(sv.take(k + 1).last() == sec@);
        k += 1;
    }
    assert(sv.take(sections@.len() as int) =~= sv);
    let ghost allv = all_checks(sv);

    let mut lines: Vec<String> = Vec::new();
    let mut k: usize = 0;
    while k < sections.len()
        invariant
            sv == sections_view(sections@),
            k <= sections@.len(),
            width == name_width(allv),
            strs(lines@) == sections_lines(sv.take(k as int), width as nat),
        decreases sections@.len() - k,
    {
        assert(sv.take(k + 1).drop_last() =~= sv.take(k as int));
        let sec = &sections[k];
        let ghost start = strs(lines@);
        if k > 0 {
            lines.push(String::new());
        }
        lines.push(String::from_str(sec.title));
        let ghost head = strs(lines@);
        assert(head =~= start + (if k + 1 > 1 {
            seq![Seq::<char>::empty()]
        } else {
            Seq::<Seq<char>>::empty()
        }) + seq![sec.title@]);
        let ghost rows = checks_view(sec.checks@).map_values(
            |c: (Seq<char>, Status, Seq<char>)| check_row(c.0, c.1, c.2, width as nat),
        );
        let mut j: usize = 0;
        while j < sec.checks.len()
            invariant
                sv == sections_view(sections@),
                k < sections@.len(),
                sec == sections@[k as int],
                j <= sec.checks@.len(),
                rows == checks_view(sec.checks@).map_values(
                    |c: (Seq<char>, Status, Seq<char>)| check_row(c.0, c.1, c.2, width as nat),
                ),
                strs(lines@) == head + rows.take(j as int),
            decreases sec.checks@.len() - j,
        {
            let row = render_check(&sec.checks[j], width);
            let ghost prev = lines@;
            lines.push(row);
            assert(strs(lines@) =~= strs(prev).push(row@));
            assert(rows.take(j + 1) =~= rows.take(j as int).push(rows[j as int]));
            j += 1;
        }
        assert(rows.take(rows.len() as int) =~= rows);
        assert(sv.take(k + 1).last() == sec@);
        assert(strs(lines@) =~= sections_lines(sv.take(k + 1), width as nat));
        k += 1;
    }
    let (text, _color) = summary(all.as_slice());
    let failed = count_status(all.as_slice(), Status::Fail);
    proof {
        assert(all@.map_values(|c: &Check| c.status) =~= allv.map_values(|c: (Seq<char>, Status, Seq<char>)| c.1));
    }
    let ghost before = lines@;
    lines.push(String::new());
    lines.push(text);
    assert(strs(lines@) =~= listing_of(sv));
    (lines, failed)
}

// --- init -----------------------------------------------------------------

/// The directory the starter configuration is written to: the resolved
/// config file's, or `.` for one with none.
pub open spec fn init_dir_of(config_path: Seq<char>) -> Seq<char> {
    match crate::config::parent_of(config_path) {
        Some(p) => if p.len() > 0 {
            p
        } else {
            seq!['.']
        },
        None => seq!['.'],
    }
}

/// Where `config init` writes, and the legacy file it will not write over
/// without being told to: `config.toml` and `config.json` in
/// [`init_dir_of`].
pub fn init_paths(config_path: &str) -> (r: (String, String))
    ensures
        r.0@ == join_path(init_dir_of(config_path@), "config.toml"@),
        r.1@ == join_path(init_dir_of(config_path@), "config.json"@),
{
    let mut dot = String::new();
    crate::text::push_char(&mut dot, '.');
    assert(dot@ =~= seq!['.']);
    let dir = match crate::config::parent(config_path) {
        Some(p) => if p.unicode_len() > 0 {
            p
        } else {
            dot
        },
        None => dot,
    };
    (join_path_str(dir.as_str(), "config.toml"), join_path_str(dir.as_str(), "config.json"))
}

/// Why `config init` will not write, if it will not: without `force` it
/// overwrites neither a configuration nor a legacy JSON one beside it.
pub open spec fn init_refusal_of(
    force: bool,
    target_exists: bool,
    legacy_exists: bool,
    target: Seq<char>,
    legacy: Seq<char>,
) -> Option<Seq<char>> {
    if force {
        None
    } else if target_exists {
        Some("configuration already exists at "@ + target + " (pass --force to overwrite)"@)
    } else if legacy_exists {
        Some(
            "a legacy JSON configuration already exists at "@ + legacy
                + "; pass --force to write config.toml alongside it"@,
        )
    } else {
        None
    }
}

/// See [`init_refusal_of`].
pub fn init_refusal(force: bool, target_exists: bool, legacy_exists: bool, target: &str, legacy: &str) -> (r:
    Option<String>)
    ensures
        match r {
            Some(m) => init_refusal_of(force, target_exists, legacy_exists, target@, legacy@) == Some(m@),
            None => init_refusal_of(force, target_exists, legacy_exists, target@, legacy@) is None,
        },
{
    if force {
        None
    } else if target_exists {
        let mut m = String::from_str("configuration already exists at ");
        m.append(target);
        m.append(" (pass --force to overwrite)");
        Some(m)
    } else if legacy_exists {
        let mut m = String::from_str("a legacy JSON configuration already exists at ");
        m.append(legacy);
        m.append("; pass --force to write config.toml alongside it");
        Some(m)
    } else {
        None
    }
}

// --- the whole report -------------------------------------------------------

/// A program `config check` looks for, beyond the editor and `gh`: whether
/// scriv cannot work without it, and what its absence costs.
#[derive(Debug, Clone, Copy)]
pub struct Tool {
    pub name: &'static str,
    pub required: bool,
    pub note: &'static str,
}

pub open spec fn tool_views() -> Seq<(Seq<char>, bool, Seq<char>)> {
    seq![
        ("bat"@, false, "previews fall back to `head`, without highlighting or a theme"@),
        ("rg"@, false, "only `note rg` needs it (https://github.com/BurntSushi/ripgrep)"@),
        ("ps"@, true, "`scriv ps` reads the process table through it"@),
        ("mise"@, false, "`project` runs a project's own tools through it (https://mise.jdx.dev)"@),
    ]
}

/// `git`, which every repository command needs.
pub const GIT_NOTE: &'static str = "`branch` and `repo` cannot work without it";

/// The programs looked for after the editor, `git` and `gh`, in report order.
/// `kill` and `lsof` get no row: they ship with the same base system `ps`
/// does.
pub fn tools() -> (r: Vec<Tool>)
    ensures
        r@.map_values(|t: Tool| (t.name@, t.required, t.note@)) == tool_views(),
{
    let mut v: Vec<Tool> = Vec::new();
    v.push(Tool { name: "bat", required: false, note: "previews fall back to `head`, without highlighting or a theme" });
    v.push(Tool { name: "rg", required: false, note: "only `note rg` needs it (https://github.com/BurntSushi/ripgrep)" });
    v.push(Tool { name: "ps", required: true, note: "`scriv ps` reads the process table through it" });
    v.push(Tool {
        name: "mise",
        required: false,
        note: "`project` runs a project's own tools through it (https://mise.jdx.dev)",
    });
    assert(v@.map_values(|t: Tool| (t.name@, t.required, t.note@)) =~= tool_views());
    v
}

/// What was found of a program: whether it is on `PATH`, and the first line
/// its `--version` printed.
#[derive(Debug)]
pub struct Probe {
    pub found: bool,
    pub first_line: Option<String>,
}

pub open spec fn probe_line(p: Probe) -> Option<Seq<char>> {
    match p.first_line {
        Some(l) => Some(l@),
        None => None,
    }
}

/// Everything `config check` found outside the configuration, for
/// [`collect`] to judge.
#[derive(Debug)]
pub struct Found {
    /// Whether the config file exists, and where it is.
    pub config_exists: bool,
    pub config_path: String,
    /// Whether the root, `~` expanded, is a directory; and each `extra` path.
    pub root_is_dir: bool,
    pub extra_is_dir: Vec<bool>,
    /// How many repositories discovery found, or why it could not look:
    /// looked for only where [`wants_discovery`] says it is worth it.
    pub discovered: Option<Result<usize, String>>,
    /// Where the editor's program was found on `PATH`.
    pub editor_found: Option<String>,
    pub git: Probe,
    pub gh: Probe,
    /// Whether `gh` can act as anyone.
    pub gh_authenticated: bool,
    /// Each of [`tools`], in order.
    pub tools: Vec<Probe>,
    /// fish's history file, and what reading it came to.
    pub history_path: String,
    pub history: FileRead,
    /// The known-files list, and how many of its entries are gone from disk.
    pub files: Result<Vec<String>, String>,
    pub files_missing: usize,
}

pub open spec fn root_rows(cfg: Config, f: Found, home: Seq<char>) -> Seq<(Seq<char>, Status, Seq<char>)> {
    root_checks_of(
        crate::cmd::report::opt_seq(cfg.repo.root),
        strs(cfg.repo.extra@),
        home,
        f.root_is_dir,
        f.extra_is_dir@,
    )
}

pub open spec fn paths_ok(cfg: Config, f: Found, home: Seq<char>) -> bool {
    count_of(root_rows(cfg, f, home).map_values(|c: (Seq<char>, Status, Seq<char>)| c.1), Status::Fail) == 0
}

pub open spec fn discovery_wanted(cfg: Config, f: Found, home: Seq<char>) -> bool {
    paths_ok(cfg, f, home) && !(cfg.repo.root is None && cfg.repo.extra@.len() == 0)
}

/// What the configuration points at: the file, the paths, what discovery
/// finds there, and the shell integration.
pub open spec fn configuration_rows(cfg: Config, f: Found, home: Seq<char>) -> Seq<(Seq<char>, Status, Seq<char>)> {
    seq![config_check_of(f.config_exists, f.config_path@)] + root_rows(cfg, f, home) + (if discovery_wanted(
        cfg,
        f,
        home,
    ) {
        seq![
            discovery_check_of(
                match f.discovered {
                    Some(Ok(n)) => Ok(n as nat),
                    Some(Err(e)) => Err(e@),
                    None => Ok(0nat),
                },
            ),
        ]
    } else {
        Seq::empty()
    }) + seq![
        shell_check_of(
            crate::cmd::report::written_table(cfg.shell.bindings),
            crate::cmd::report::written_table(cfg.shell.aliases),
        ),
    ]
}

/// The programs scriv shells out to: the editor, `git`, `gh`, then [`tools`].
pub open spec fn tool_rows(editor: Option<Seq<char>>, f: Found) -> Seq<(Seq<char>, Status, Seq<char>)> {
    seq![
        editor_check_of(editor, match f.editor_found {
            Some(e) => Some(e@),
            None => None,
        }),
        tool_check_of("git"@, f.git.found, probe_line(f.git), true, GIT_NOTE@),
        gh_check_of(f.gh.found, probe_line(f.gh), f.gh_authenticated),
    ] + Seq::new(
        tool_views().len(),
        |i: int| tool_check_of(tool_views()[i].0, f.tools@[i].found, probe_line(f.tools@[i]), tool_views()[i].1, tool_views()[i].2),
    )
}

/// The files scriv keeps and reads.
pub open spec fn content_rows(f: Found) -> Seq<(Seq<char>, Status, Seq<char>)> {
    seq![
        history_check_of(f.history_path@, f.history),
        files_check_of(
            match f.files {
                Ok(l) => Ok(l@.len()),
                Err(e) => Err(e@),
            },
            f.files_missing as nat,
        ),
    ]
}

/// Everything `config check` reports, in order: what the configuration points
/// at, then the programs scriv shells out to, then the files it keeps.
pub open spec fn collect_of(cfg: Config, editor: Option<Seq<char>>, home: Seq<char>, f: Found) -> Seq<
    (Seq<char>, Seq<(Seq<char>, Status, Seq<char>)>),
> {
    seq![
        ("configuration"@, configuration_rows(cfg, f, home)),
        ("tools"@, tool_rows(editor, f)),
        ("content"@, content_rows(f)),
    ]
}

fn push_check(v: &mut Vec<Check>, c: Check)
    ensures
        checks_view(final(v)@) == checks_view(old(v)@).push(c@),
{
    let ghost before = v@;
    v.push(c);
    assert(checks_view(v@) =~= checks_view(before).push(c@));
}

/// The sections of `config check`, judged from what was found. `editor` is
/// the editor setting, and `home` what `~` stands for.
pub fn collect(cfg: &Config, editor: Option<&str>, home: &str, found: &Found) -> (r: Vec<Section>)
    requires
        found.extra_is_dir@.len() == cfg.repo.extra@.len(),
        found.tools@.len() == tool_views().len(),
        discovery_wanted(*cfg, *found, home@) ==> found.discovered is Some,
    ensures
        sections_view(r@) == collect_of(*cfg, opt_view(editor), home@, *found),
{
    let mut settings: Vec<Check> = Vec::new();
    push_check(&mut settings, config_check(found.config_exists, found.config_path.as_str()));
    let mut paths = root_checks(&cfg.repo, home, found.root_is_dir, &found.extra_is_dir);
    let failed = failures(paths.as_slice());
    assert(paths@.map_values(|c: Check| c.status) =~= checks_view(paths@).map_values(
        |c: (Seq<char>, Status, Seq<char>)| c.1,
    ));
    let ghost before = settings@;
    let ghost pv = paths@;
    settings.append(&mut paths);
    assert(checks_view(settings@) =~= checks_view(before) + checks_view(pv));
    if wants_discovery(failed == 0, &cfg.repo) {
        let c = match &found.discovered {
            Some(Ok(n)) => discovery_check(Ok(*n)),
            Some(Err(e)) => discovery_check(Err(e.clone())),
            None => discovery_check(Ok(0)),
        };
        push_check(&mut settings, c);
    }
    push_check(&mut settings, shell_check(&cfg.shell));
    assert(checks_view(settings@) =~= configuration_rows(*cfg, *found, home@));

    let mut tools_rows: Vec<Check> = Vec::new();
    push_check(
        &mut tools_rows,
        editor_check(
            editor,
            match &found.editor_found {
                Some(e) => Some(e.as_str()),
                None => None,
            },
        ),
    );
    push_check(
        &mut tools_rows,
        tool_check(
            "git",
            found.git.found,
            match &found.git.first_line {
                Some(l) => Some(l.as_str()),
                None => None,
            },
            true,
            GIT_NOTE,
        ),
    );
    push_check(
        &mut tools_rows,
        gh_check(
            found.gh.found,
            match &found.gh.first_line {
                Some(l) => Some(l.as_str()),
                None => None,
            },
            found.gh_authenticated,
        ),
    );
    let listed = tools();
    let ghost head = checks_view(tools_rows@);
    let ghost rows = Seq::new(
        tool_views().len(),
        |i: int| tool_check_of(tool_views()[i].0, found.tools@[i].found, probe_line(found.tools@[i]), tool_views()[i].1, tool_views()[i].2),
    );
    let mut t: usize = 0;
    while t < listed.len()
        invariant
            listed@.map_values(|t: Tool| (t.name@, t.required, t.note@)) == tool_views(),
            found.tools@.len() == tool_views().len(),
            rows == Seq::new(
                tool_views().len(),
                |i: int| tool_check_of(tool_views()[i].0, found.tools@[i].found, probe_line(found.tools@[i]), tool_views()[i].1, tool_views()[i].2),
            ),
            t <= listed@.len(),
            checks_view(tools_rows@) == head + rows.take(t as int),
        decreases listed@.len() - t,
    {
        let tool = listed[t];
        let probe = &found.tools[t];
        assert(tool_views()[t as int] == (tool.name@, tool.required, tool.note@));
        let c = tool_check(
            tool.name,
            probe.found,
            match &probe.first_line {
                Some(l) => Some(l.as_str()),
                None => None,
            },
            tool.required,
            tool.note,
        );
        push_check(&mut tools_rows, c);
        assert(rows.take(t + 1) =~= rows.take(t as int).push(rows[t as int]));
        t += 1;
    }
    assert(rows.take(rows.len() as int) =~= rows);
    assert(checks_view(tools_rows@) =~= tool_rows(opt_view(editor), *found));

    let mut content: Vec<Check> = Vec::new();
    push_check(&mut content, history_check(found.history_path.as_str(), &found.history));
    let files_row = match &found.files {
        Ok(lines) => files_check(Ok(lines), found.files_missing),
        Err(e) => files_check(Err(e.as_str()), found.files_missing),
    };
    push_check(&mut content, files_row);
    assert(checks_view(content@) =~= content_rows(*found));

    let mut out: Vec<Section> = Vec::new();
    out.push(Section { title: "configuration", checks: settings });
    out.push(Section { title: "tools", checks: tools_rows });
    out.push(Section { title: "content", checks: content });
    assert(sections_view(out@) =~= collect_of(*cfg, opt_view(editor), home@, *found));
    out
}

} // verus!
