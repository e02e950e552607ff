//! `scriv config print`: every setting there is, what is in force for it and
//! where that came from — built as rows, then drawn as lines whose keys share
//! one column and whose notes line up within their own group.

use vstd::prelude::*;

use crate::binding::{action, action_named, entries, table_of};
use crate::config::{binding_table, default_ignored_dirs, label_entries, label_table, Bindings, Config, RepoDisplay};
use crate::files::strs;
use crate::note::{padded, push_column};
use crate::text::{join, join_strings, same};

verus! {

/// Shown where a setting has no value and nothing stands in for it.
pub const UNSET: &'static str = "(unset)";

/// Shown where a list is empty.
pub const EMPTY: &'static str = "(none)";

/// What the last column says about a value scriv chose rather than the user.
pub const DEFAULT: &'static str = "default";

/// What kind of value a setting has.
#[derive(Debug, Clone, Copy, PartialEq, Eq, Structural)]
pub enum Shade {
    /// A value, shown as it stands.
    Given,
    /// Nothing there, and the placeholder that says so.
    Missing,
    /// Set to something scriv cannot act on.
    Broken,
}

/// What is in force for one setting.
#[derive(Debug)]
pub enum Value {
    Given(String),
    Missing(&'static str),
    Broken(String),
}

impl View for Value {
    type V = (Shade, Seq<char>);

    open spec fn view(&self) -> (Shade, Seq<char>) {
        match self {
            Value::Given(t) => (Shade::Given, t@),
            Value::Missing(t) => (Shade::Missing, t@),
            Value::Broken(t) => (Shade::Broken, t@),
        }
    }
}

impl Value {
    /// The text as it is drawn.
    pub fn text(&self) -> (r: &str)
        ensures
            r@ == self@.1,
    {
        match self {
            Value::Given(t) => t.as_str(),
            Value::Missing(t) => t,
            Value::Broken(t) => t.as_str(),
        }
    }
}

/// One line of the report.
#[derive(Debug)]
pub enum Row {
    /// The gap between two groups.
    Blank,
    /// The table a group is written under, and what to know about the group.
    Heading { title: String, note: String },
    /// One setting: its key, what is in force, and where that came from.
    Setting { key: String, value: Value, note: String },
}

/// A row as values.
pub enum RowView {
    Blank,
    Heading(Seq<char>, Seq<char>),
    Setting(Seq<char>, (Shade, Seq<char>), Seq<char>),
}

impl View for Row {
    type V = RowView;

    open spec fn view(&self) -> RowView {
        match self {
            Row::Blank => RowView::Blank,
            Row::Heading { title, note } => RowView::Heading(title@, note@),
            Row::Setting { key, value, note } => RowView::Setting(key@, value@, note@),
        }
    }
}

pub open spec fn views(rows: Seq<Row>) -> Seq<RowView> {
    rows.map_values(|r: Row| r@)
}

/// What `config print` reports that the file does not hold: the paths and the
/// editor resolved from the environment.
pub struct Env<'a> {
    /// Where the config file is, as it is shown.
    pub config_path: String,
    /// Without a file every value is a default, which is said once at the top.
    pub config_exists: bool,
    /// fish's history file, as it is shown.
    pub history_path: String,
    /// `$VISUAL`, then `$EDITOR`.
    pub editor: Option<&'a str>,
}

pub open spec fn opt_seq(o: Option<String>) -> Option<Seq<char>> {
    match o {
        Some(s) => Some(s@),
        None => None,
    }
}

pub open spec fn heading(title: Seq<char>, note: Seq<char>) -> RowView {
    RowView::Heading(title, note)
}

pub open spec fn setting(key: Seq<char>, value: (Shade, Seq<char>), note: Seq<char>) -> RowView {
    RowView::Setting(key, value, note)
}

/// A setting the file names, or what happens when it does not.
pub open spec fn optional_row(key: Seq<char>, value: Option<Seq<char>>, without: Seq<char>) -> RowView {
    match value {
        Some(v) => setting(key, (Shade::Given, v), ""@),
        None => setting(key, (Shade::Missing, UNSET@), without),
    }
}

/// A setting with a value whether the file gives it one or not, marked where
/// that value is the one scriv ships.
pub open spec fn defaulted_row(key: Seq<char>, value: (Shade, Seq<char>), is_default: bool) -> RowView {
    setting(key, value, if is_default { DEFAULT@ } else { ""@ })
}

/// A list of names as one value.
pub open spec fn list_value(items: Seq<Seq<char>>) -> (Shade, Seq<char>) {
    if items.len() == 0 {
        (Shade::Missing, EMPTY@)
    } else {
        (Shade::Given, join(items, ", "@))
    }
}

/// One row per label, keyed as the file writes it: `labels.work`.
pub open spec fn label_rows_of(t: Seq<(Seq<char>, Seq<Seq<char>>)>) -> Seq<RowView> {
    if t.len() == 0 {
        seq![setting("labels"@, (Shade::Missing, EMPTY@), ""@)]
    } else {
        t.map_values(|e: (Seq<char>, Seq<Seq<char>>)| setting("labels."@ + e.0, list_value(e.1), ""@))
    }
}

/// A key or name, the action it runs and what that action does — or, for an
/// action nobody defines, the line as written and what is wrong with it.
pub open spec fn binding_row(trigger: Seq<char>, id: Seq<char>) -> RowView {
    match action_named(id) {
        Some(a) => setting(trigger, (Shade::Given, id), a.description),
        None => setting(trigger, (Shade::Broken, id), "no such action"@),
    }
}

/// What a `[shell]` table's heading says: whether its rows are the user's.
pub open spec fn table_note(written: bool) -> Seq<char> {
    if written {
        ""@
    } else {
        DEFAULT@
    }
}

/// What a `[shell]` table holds as written: nothing where it is absent.
pub open spec fn written_table(t: Option<Bindings>) -> Seq<(Seq<char>, Seq<char>)> {
    match t {
        Some(m) => binding_table(m),
        None => Seq::empty(),
    }
}

/// A `[shell]` table's rows under their heading.
pub open spec fn shell_rows_of(title: Seq<char>, written: bool, t: Seq<(Seq<char>, Seq<char>)>) -> Seq<RowView> {
    seq![RowView::Blank, heading(title, table_note(written))] + t.map_values(
        |e: (Seq<char>, Seq<char>)| binding_row(e.0, e.1),
    )
}

pub open spec fn display_name(d: RepoDisplay) -> Seq<char> {
    match d {
        RepoDisplay::Relative => "relative"@,
        RepoDisplay::Tilde => "tilde"@,
        RepoDisplay::Full => "full"@,
    }
}

pub open spec fn shipped_ignore() -> Seq<Seq<char>> {
    seq!["node_modules"@, "vendor"@, "dist"@, "build"@, "target"@]
}

/// The report's opening: where the file is, then the `[repo]` settings.
pub open spec fn top_rows(cfg: Config, env: Env) -> Seq<RowView> {
    seq![
        heading(
            env.config_path@,
            if env.config_exists {
                ""@
            } else {
                "not found — every value below is a default"@
            },
        ),
        RowView::Blank,
        heading("[repo]"@, ""@),
        optional_row("root"@, opt_seq(cfg.repo.root), "`repo` and `repo clone` have nowhere to look"@),
        setting("extra"@, list_value(strs(cfg.repo.extra@)), ""@),
        defaulted_row("ignore"@, list_value(strs(cfg.repo.ignore@)), strs(cfg.repo.ignore@) == shipped_ignore()),
        defaulted_row(
            "display"@,
            (Shade::Given, display_name(cfg.repo.display)),
            cfg.repo.display == RepoDisplay::Relative,
        ),
    ]
}

/// The `[history]` and `[selector]` settings.
pub open spec fn middle_rows(cfg: Config, env: Env) -> Seq<RowView> {
    seq![
        RowView::Blank,
        heading("[history]"@, ""@),
        defaulted_row("file"@, (Shade::Given, env.history_path@), cfg.history.file is None),
        RowView::Blank,
        heading("[selector]"@, ""@),
        defaulted_row("height"@, (Shade::Given, cfg.selector.height@), cfg.selector.height@ == "50%"@),
        defaulted_row(
            "preview"@,
            (Shade::Given, if cfg.selector.preview { "true"@ } else { "false"@ }),
            cfg.selector.preview,
        ),
        defaulted_row(
            "preview_window"@,
            (Shade::Given, cfg.selector.preview_window@),
            cfg.selector.preview_window@ == "right:50%"@,
        ),
    ]
}

/// What the environment supplies: the editor.
pub open spec fn bottom_rows(env: Env) -> Seq<RowView> {
    seq![
        RowView::Blank,
        heading("environment"@, "read by scriv, not written in the file"@),
        match env.editor {
            Some(e) => setting("editor"@, (Shade::Given, e@), "$VISUAL, then $EDITOR"@),
            None => setting("editor"@, (Shade::Missing, UNSET@), "`scriv edit` has nothing to open files with"@),
        },
    ]
}

/// The whole report, in the order it is printed: every setting there is,
/// under the table it is written in, whether the file sets it or not.
pub open spec fn report_of(cfg: Config, env: Env) -> Seq<RowView> {
    top_rows(cfg, env) + label_rows_of(label_table(cfg.repo.labels)) + middle_rows(cfg, env)
        + shell_rows_of("[shell.bindings]"@, cfg.shell.bindings is Some, written_table(cfg.shell.bindings))
        + shell_rows_of("[shell.aliases]"@, cfg.shell.aliases is Some, written_table(cfg.shell.aliases))
        + bottom_rows(env)
}

fn push_row(rows: &mut Vec<Row>, row: Row)
    ensures
        views(final(rows)@) == views(old(rows)@).push(row@),
{
    let ghost before = rows@;
    rows.push(row);
    assert(views(rows@) =~= views(before).push(row@));
}

fn push_heading(rows: &mut Vec<Row>, title: &str, note: &str)
    ensures
        views(final(rows)@) == views(old(rows)@).push(heading(title@, note@)),
{
    push_row(rows, Row::Heading { title: String::from_str(title), note: String::from_str(note) });
}

fn push_setting(rows: &mut Vec<Row>, key: &str, value: Value, note: &str)
    ensures
        views(final(rows)@) == views(old(rows)@).push(setting(key@, value@, note@)),
{
    push_row(rows, Row::Setting { key: String::from_str(key), value, note: String::from_str(note) });
}

/// Whether two lists of names are the same, in the same order.
fn same_strings(a: &Vec<String>, b: &Vec<String>) -> (r: bool)
    ensures
        r == (strs(a@) == strs(b@)),
{
    if a.len() != b.len() {
        assert(strs(a@).len() != strs(b@).len());
        return false;
    }
    let mut i: usize = 0;
    while i < a.len()
        invariant
            a.len() == b.len(),
            i <= a.len(),
            forall|j: int| 0 <= j < i ==> a@[j]@ == b@[j]@,
        decreases a.len() - i,
    {
        if !same(a[i].as_str(), b[i].as_str()) {
            assert(strs(a@)[i as int] != strs(b@)[i as int]);
            return false;
        }
        i += 1;
    }
    assert(strs(a@) =~= strs(b@));
    true
}

/// A list of names as one value.
fn list(items: &Vec<String>) -> (r: Value)
    ensures
        r@ == list_value(strs(items@)),
{
    if items.len() == 0 {
        Value::Missing(EMPTY)
    } else {
        let joined = join_strings(items, ", ");
        assert(items@.map_values(|p: String| p@) == strs(items@));
        Value::Given(joined)
    }
}

/// One row per label, keyed as the file writes it.
fn push_label_rows(rows: &mut Vec<Row>, labels: &crate::config::Labels)
    ensures
        views(final(rows)@) == views(old(rows)@) + label_rows_of(label_table(*labels)),
{
    let es = label_entries(labels);
    let ghost t = label_table(*labels);
    let ghost start = views(rows@);
    if es.len() == 0 {
        assert(t.len() == 0);
        push_setting(rows, "labels", Value::Missing(EMPTY), "");
        assert(views(rows@) =~= start + label_rows_of(t));
        return;
    }
    let mut i: usize = 0;
    while i < es.len()
        invariant
            t == label_table(*labels),
            t.len() > 0,
            es@.map_values(|e: (&String, &Vec<String>)| (e.0@, strs(e.1@))) == t,
            i <= t.len(),
            views(rows@) == start + label_rows_of(t).take(i as int),
        decreases t.len() - i,
    {
        let (label, members) = es[i];
        assert(t[i as int] == (label@, strs(members@)));
        let mut key = String::from_str("labels.");
        key.append(label.as_str());
        let value = list(members);
        let ghost before = views(rows@);
        push_row(rows, Row::Setting { key, value, note: String::from_str("") });
        assert(label_rows_of(t).take(i + 1) =~= label_rows_of(t).take(i as int).push(
            label_rows_of(t)[i as int],
        ));
        i += 1;
    }
    assert(label_rows_of(t).take(t.len() as int) =~= label_rows_of(t));
}

/// One row per key or name of a `[shell]` table, under its heading.
fn push_shell_rows(rows: &mut Vec<Row>, title: &str, table: Option<&Bindings>)
    ensures
        views(final(rows)@) == views(old(rows)@) + shell_rows_of(title@, table is Some, table_of(table)),
{
    let ghost start = views(rows@);
    push_row(rows, Row::Blank);
    push_heading(rows, title, if table.is_some() { "" } else { DEFAULT });
    let es = entries(table);
    let ghost t = table_of(table);
    let ghost mapped = t.map_values(|e: (Seq<char>, Seq<char>)| binding_row(e.0, e.1));
    let ghost head = seq![RowView::Blank, heading(title@, table_note(table is Some))];
    assert(views(rows@) =~= start + head);
    let mut i: usize = 0;
    while i < es.len()
        invariant
            t == table_of(table),
            mapped == t.map_values(|e: (Seq<char>, Seq<char>)| binding_row(e.0, e.1)),
            es@.map_values(|e: (&str, &str)| (e.0@, e.1@)) == t,
            i <= t.len(),
            views(rows@) == start + head + mapped.take(i as int),
        decreases t.len() - i,
    {
        let (trigger, id) = es[i];
        assert(t[i as int] == (trigger@, id@));
        match action(id) {
            Some(a) => push_setting(rows, trigger, Value::Given(String::from_str(id)), a.description),
            None => push_setting(rows, trigger, Value::Broken(String::from_str(id)), "no such action"),
        }
        assert(mapped.take(i + 1) =~= mapped.take(i as int).push(mapped[i as int]));
        i += 1;
    }
    assert(mapped.take(t.len() as int) =~= mapped);
    assert(start + head + mapped =~= start + shell_rows_of(title@, table is Some, table_of(table)));
}

fn push_top(rows: &mut Vec<Row>, cfg: &Config, env: &Env)
    ensures
        views(final(rows)@) == views(old(rows)@) + top_rows(*cfg, *env),
{
    let ghost start = views(rows@);
    push_heading(
        rows,
        env.config_path.as_str(),
        if env.config_exists {
            ""
        } else {
            "not found — every value below is a default"
        },
    );
    push_row(rows, Row::Blank);
    push_heading(rows, "[repo]", "");
    match &cfg.repo.root {
        Some(root) => push_setting(rows, "root", Value::Given(root.clone()), ""),
        None => push_setting(rows, "root", Value::Missing(UNSET), "`repo` and `repo clone` have nowhere to look"),
    }
    push_setting(rows, "extra", list(&cfg.repo.extra), "");
    let shipped = default_ignored_dirs();
    assert(strs(shipped@) == shipped_ignore());
    let ignore_is_default = same_strings(&cfg.repo.ignore, &shipped);
    push_setting(rows, "ignore", list(&cfg.repo.ignore), if ignore_is_default { DEFAULT } else { "" });
    let display_is_default = match cfg.repo.display {
        RepoDisplay::Relative => true,
        _ => false,
    };
    push_setting(
        rows,
        "display",
        Value::Given(String::from_str(cfg.repo.display.as_str())),
        if display_is_default { DEFAULT } else { "" },
    );
    assert(views(rows@) =~= start + top_rows(*cfg, *env));
}

fn push_middle(rows: &mut Vec<Row>, cfg: &Config, env: &Env)
    ensures
        views(final(rows)@) == views(old(rows)@) + middle_rows(*cfg, *env),
{
    let ghost start = views(rows@);
    push_row(rows, Row::Blank);
    push_heading(rows, "[history]", "");
    push_setting(
        rows,
        "file",
        Value::Given(env.history_path.clone()),
        if cfg.history.file.is_none() { DEFAULT } else { "" },
    );
    push_row(rows, Row::Blank);
    push_heading(rows, "[selector]", "");
    let sel = &cfg.selector;
    push_setting(
        rows,
        "height",
        Value::Given(sel.height.clone()),
        if same(sel.height.as_str(), "50%") { DEFAULT } else { "" },
    );
    push_setting(
        rows,
        "preview",
        Value::Given(String::from_str(if sel.preview { "true" } else { "false" })),
        if sel.preview { DEFAULT } else { "" },
    );
    push_setting(
        rows,
        "preview_window",
        Value::Given(sel.preview_window.clone()),
        if same(sel.preview_window.as_str(), "right:50%") { DEFAULT } else { "" },
    );
    assert(views(rows@) =~= start + middle_rows(*cfg, *env));
}

fn push_bottom(rows: &mut Vec<Row>, env: &Env)
    ensures
        views(final(rows)@) == views(old(rows)@) + bottom_rows(*env),
{
    let ghost start = views(rows@);
    push_row(rows, Row::Blank);
    push_heading(rows, "environment", "read by scriv, not written in the file");
    match env.editor {
        Some(editor) => push_setting(rows, "editor", Value::Given(String::from_str(editor)), "$VISUAL, then $EDITOR"),
        None => push_setting(rows, "editor", Value::Missing(UNSET), "`scriv edit` has nothing to open files with"),
    }
    assert(views(rows@) =~= start + bottom_rows(*env));
}

/// The whole report, in the order it is printed.
pub fn report(cfg: &Config, env: &Env) -> (r: Vec<Row>)
    ensures
        views(r@) == report_of(*cfg, *env),
{
    let mut rows: Vec<Row> = Vec::new();
    assert(views(rows@) =~= Seq::<RowView>::empty());
    push_top(&mut rows, cfg, env);
    push_label_rows(&mut rows, &cfg.repo.labels);
    push_middle(&mut rows, cfg, env);
    let bindings = cfg.shell.bindings.as_ref();
    assert(table_of(bindings) == written_table(cfg.shell.bindings));
    push_shell_rows(&mut rows, "[shell.bindings]", bindings);
    let aliases = cfg.shell.aliases.as_ref();
    assert(table_of(aliases) == written_table(cfg.shell.aliases));
    push_shell_rows(&mut rows, "[shell.aliases]", aliases);
    push_bottom(&mut rows, env);
    assert(views(rows@) =~= report_of(*cfg, *env));
    rows
}

// --- drawing ----------------------------------------------------------------

/// The widest key of the report's settings.
pub open spec fn key_width_of(rows: Seq<RowView>) -> nat
    decreases rows.len(),
{
    if rows.len() == 0 {
        0
    } else {
        let w = key_width_of(rows.drop_last());
        let k: nat = match rows.last() {
            RowView::Setting(key, _, _) => key.len(),
            _ => 0,
        };
        if k > w {
            k
        } else {
            w
        }
    }
}

/// How wide a row's value is, where a note lines up behind it.
pub open spec fn noted_width(row: RowView) -> nat {
    match row {
        RowView::Setting(_, value, note) => if note.len() > 0 {
            value.1.len()
        } else {
            0
        },
        _ => 0,
    }
}

/// The widest noted value among rows `lo..hi`.
pub open spec fn widest_between(rows: Seq<RowView>, lo: int, hi: int) -> nat
    decreases hi - lo,
{
    if hi <= lo {
        0
    } else {
        let w = widest_between(rows, lo, hi - 1);
        let k = noted_width(rows[hi - 1]);
        if k > w {
            k
        } else {
            w
        }
    }
}

/// The first heading at or after `i`, or the end of the report.
pub open spec fn next_heading(rows: Seq<RowView>, i: int) -> int
    decreases rows.len() - i,
{
    if i >= rows.len() {
        rows.len() as int
    } else if rows[i] is Heading {
        i
    } else {
        next_heading(rows, i + 1)
    }
}

pub proof fn lemma_next_heading_bounds(rows: Seq<RowView>, i: int)
    requires
        0 <= i <= rows.len(),
    ensures
        i <= next_heading(rows, i) <= rows.len(),
    decreases rows.len() - i,
{
    if i < rows.len() && !(rows[i] is Heading) {
        lemma_next_heading_bounds(rows, i + 1);
    }
}

/// The width each row from `start` on pads its value to: a group runs from
/// one heading to the next, and every row in it takes the widest noted value
/// in it.
pub open spec fn group_widths(rows: Seq<RowView>, start: int) -> Seq<nat>
    decreases rows.len() - start,
{
    if start < 0 || start >= rows.len() {
        Seq::empty()
    } else {
        let end = next_heading(rows, start + 1);
        proof {
            lemma_next_heading_bounds(rows, start + 1);
        }
        Seq::new((end - start) as nat, |k: int| widest_between(rows, start, end)) + group_widths(rows, end)
    }
}

/// One row as drawn without colour.
pub open spec fn line_of(row: RowView, key_width: nat, value_width: nat) -> Seq<char> {
    match row {
        RowView::Blank => Seq::empty(),
        RowView::Heading(title, note) => if note.len() == 0 {
            title
        } else {
            title + "  "@ + note
        },
        RowView::Setting(key, value, note) => "  "@ + padded(key, key_width) + "  "@ + (if note.len() == 0 {
            value.1
        } else {
            padded(value.1, value_width) + "  "@ + note
        }),
    }
}

fn is_heading(row: &Row) -> (r: bool)
    ensures
        r == (row@ is Heading),
{
    match row {
        Row::Heading { .. } => true,
        _ => false,
    }
}

fn noted(row: &Row) -> (r: usize)
    ensures
        r == noted_width(row@),
{
    match row {
        Row::Setting { value, note, .. } => if note.unicode_len() > 0 {
            value.text().unicode_len()
        } else {
            0
        },
        _ => 0,
    }
}

/// The width each row pads its value to, so the notes in one group line up
/// with each other and with nothing else.
pub fn note_columns(rows: &Vec<Row>) -> (r: Vec<usize>)
    ensures
        r@.map_values(|w: usize| w as nat) == group_widths(views(rows@), 0),
{
    let ghost v = views(rows@);
    let n = rows.len();
    let mut widths: Vec<usize> = Vec::new();
    let mut start: usize = 0;
    while start < n
        invariant
            v == views(rows@),
            n == rows.len(),
            start <= n,
            widths@.map_values(|w: usize| w as nat) + group_widths(v, start as int) == group_widths(v, 0),
        decreases n - start,
    {
        let mut end: usize = start + 1;
        while end < n && !is_heading(&rows[end])
            invariant
                v == views(rows@),
                n == rows.len(),
                start < end <= n,
                next_heading(v, end as int) == next_heading(v, start + 1),
            decreases n - end,
        {
            end += 1;
        }
        assert(next_heading(v, end as int) == end as int);
        let mut widest: usize = 0;
        let mut k: usize = start;
        while k < end
            invariant
                v == views(rows@),
                n == rows.len(),
                start <= k <= end <= n,
                widest == widest_between(v, start as int, k as int),
            decreases end - k,
        {
            let w = noted(&rows[k]);
            if w > widest {
                widest = w;
            }
            k += 1;
        }
        let ghost before = widths@.map_values(|w: usize| w as nat);
        let mut j: usize = start;
        while j < end
            invariant
                start <= j <= end,
                widths@.map_values(|w: usize| w as nat) == before + Seq::new((j - start) as nat, |k: int| widest as nat),
            decreases end - j,
        {
            let ghost prev = widths@;
            widths.push(widest);
            assert(widths@.map_values(|w: usize| w as nat) =~= prev.map_values(|w: usize| w as nat).push(widest as nat));
            assert(Seq::new((j + 1 - start) as nat, |k: int| widest as nat) =~= Seq::new(
                (j - start) as nat,
                |k: int| widest as nat,
            ).push(widest as nat));
            assert(widths@.map_values(|w: usize| w as nat) =~= before + Seq::new((j + 1 - start) as nat, |k: int| widest as nat));
            j += 1;
        }
        assert(group_widths(v, start as int) == Seq::new((end - start) as nat, |k: int| widest_between(v, start as int, end as int)) + group_widths(v, end as int));
        assert(widths@.map_values(|w: usize| w as nat) + group_widths(v, end as int) =~= before + group_widths(v, start as int));
        start = end;
    }
    assert(group_widths(v, start as int) =~= Seq::<nat>::empty());
    assert(widths@.map_values(|w: usize| w as nat) =~= group_widths(v, 0));
    widths
}

/// Draw the report without colour. Keys share one column across the whole
/// report; a value with a note behind it is padded to its group's widest.
pub fn render_report(rows: &Vec<Row>) -> (r: Vec<String>)
    ensures
        r@.len() == rows@.len(),
        forall|i: int|
            0 <= i < rows@.len() ==> (#[trigger] r@[i])@ == line_of(
                rows@[i]@,
                key_width_of(views(rows@)),
                group_widths(views(rows@), 0)[i],
            ),
{
    let ghost v = views(rows@);
    let mut key_width: usize = 0;
    let mut i: usize = 0;
    while i < rows.len()
        invariant
            v == views(rows@),
            i <= rows.len(),
            key_width == key_width_of(v.take(i as int)),
        decreases rows.len() - i,
    {
        assert(v.take(i + 1).drop_last() =~= v.take(i as int));
        match &rows[i] {
            Row::Setting { key, .. } => {
                let k = key.unicode_len();
                if k > key_width {
                    key_width = k;
                }
            },
            _ => {},
        }
        i += 1;
    }
    assert(v.take(rows.len() as int) =~= v);
    let widths = note_columns(rows);
    assert(widths@.len() == v.len()) by {
        assert(widths@.map_values(|w: usize| w as nat).len() == widths@.len());
        lemma_group_widths_len(v, 0);
    }
    let mut out: Vec<String> = Vec::new();
    let mut i: usize = 0;
    while i < rows.len()
        invariant
            v == views(rows@),
            widths@.len() == rows@.len(),
            widths@.map_values(|w: usize| w as nat) == group_widths(v, 0),
            key_width == key_width_of(v),
            i <= rows.len(),
            out@.len() == i,
            forall|j: int| 0 <= j < i ==> (#[trigger] out@[j])@ == line_of(v[j], key_width_of(v), group_widths(v, 0)[j]),
        decreases rows.len() - i,
    {
        assert(group_widths(v, 0)[i as int] == widths@[i as int] as nat);
        let line = match &rows[i] {
            Row::Blank => String::new(),
            Row::Heading { title, note } => {
                let mut line = title.clone();
                if note.unicode_len() > 0 {
                    line.append("  ");
                    line.append(note.as_str());
                }
                line
            },
            Row::Setting { key, value, note } => {
                let mut line = String::from_str("  ");
                push_column(&mut line, key.as_str(), key_width);
                line.append("  ");
                if note.unicode_len() == 0 {
                    line.append(value.text());
                } else {
                    push_column(&mut line, value.text(), widths[i]);
                    line.append("  ");
                    line.append(note.as_str());
                }
                line
            },
        };
        out.push(line);
        i += 1;
    }
    out
}

proof fn lemma_group_widths_len(rows: Seq<RowView>, start: int)
    requires
        0 <= start <= rows.len(),
    ensures
        group_widths(rows, start).len() == rows.len() - start,
    decreases rows.len() - start,
{
    if start < rows.len() {
        let end = next_heading(rows, start + 1);
        lemma_next_heading_bounds(rows, start + 1);
        lemma_group_widths_len(rows, end);
    }
}

proof fn lemma_key_width_covers(rows: Seq<RowView>, i: int)
    requires
        0 <= i < rows.len(),
    ensures
        rows[i] matches RowView::Setting(key, _, _) ==> key.len() <= key_width_of(rows),
    decreases rows.len(),
{
    if i < rows.len() - 1 {
        lemma_key_width_covers(rows.drop_last(), i);
        assert(rows.drop_last()[i] == rows[i]);
    }
}

/// Every setting's value starts in the same column: after two spaces, the key
/// padded to the widest key of the report, and two spaces more.
pub proof fn lemma_keys_share_a_column(rows: Seq<RowView>, i: int, value_width: nat)
    requires
        0 <= i < rows.len(),
        rows[i] is Setting,
    ensures
        ({
            let w = key_width_of(rows);
            let line = line_of(rows[i], w, value_width);
            &&& line.len() >= w + 4
            &&& line.take(2) == "  "@
            &&& line.subrange(w as int + 2, w as int + 4) == "  "@
        }),
{
    lemma_key_width_covers(rows, i);
    reveal_strlit("  ");
    let w = key_width_of(rows);
    if let RowView::Setting(key, value, note) = rows[i] {
        let line = line_of(rows[i], w, value_width);
        let rest = if note.len() == 0 {
            value.1
        } else {
            padded(value.1, value_width) + "  "@ + note
        };
        assert(padded(key, w).len() == w);
        assert(line == "  "@ + padded(key, w) + "  "@ + rest);
        assert(line.take(2) =~= "  "@);
        assert(line.subrange(w as int + 2, w as int + 4) =~= "  "@);
    }
}

} // verus!
