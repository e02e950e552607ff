//! fish shell history: where the file lives, what is in it, and how one
//! recorded command reads as a single row.
//!
//! fish writes each command to its history file as it is entered, so reading
//! that file *is* reading the live history. Everything here is a function of
//! the file's text; the read itself happens elsewhere.

use vstd::prelude::*;

use crate::config::opt_view;
use crate::path::{expand_home_dir, expanded_home_dir, join_path, join_path_str};
use crate::text::{
    blank, chars_of, ctrl, is_blank, is_ctrl, join, join_strings, lines, lines_of, parse_i64,
    parse_int, push_char, same, strip_prefix, strip_prefix_vec, trim, trim_range,
};

verus! {

/// Base directory for fish's data files, per the XDG spec.
pub const XDG_DATA_ENV_VAR: &'static str = "XDG_DATA_HOME";

/// Stands in for a line break when a multi-line command is drawn on one row.
pub const NEWLINE_GLYPH: &'static str = "⏎";

/// Width of a rendered timestamp, `2026-07-30 13:57`, so an entry fish
/// recorded without a `when:` can hold the column open.
pub const STAMP_WIDTH: usize = 16;

/// One command as fish recorded it.
#[derive(Debug, Clone, PartialEq, Eq)]
pub struct Entry {
    /// The command line as it was typed, newlines and all.
    pub cmd: String,
    /// Unix time it was run, when the entry carried one.
    pub when: Option<i64>,
}

pub struct EntryView {
    pub cmd: Seq<char>,
    pub when: Option<i64>,
}

impl View for Entry {
    type V = EntryView;

    open spec fn view(&self) -> EntryView {
        EntryView { cmd: self.cmd@, when: self.when }
    }
}

pub open spec fn entry_views(es: Seq<Entry>) -> Seq<EntryView> {
    es.map_values(|e: Entry| e@)
}

// --- where the file is ------------------------------------------------------

/// `$XDG_DATA_HOME` when set and not empty, else `~/.local/share`.
pub open spec fn data_base_of(xdg_data: Option<Seq<char>>, home: Seq<char>) -> Seq<char> {
    match xdg_data {
        Some(d) => if d.len() > 0 {
            d
        } else {
            join_path(join_path(home, ".local"@), "share"@)
        },
        None => join_path(join_path(home, ".local"@), "share"@),
    }
}

/// fish's history file: the configured one when it is not blank, with a
/// leading `~` expanded, else `fish/fish_history` under the data directory.
pub open spec fn history_path_of(
    configured: Option<Seq<char>>,
    xdg_data: Option<Seq<char>>,
    home: Seq<char>,
) -> Seq<char> {
    let fallback = join_path(join_path(data_base_of(xdg_data, home), "fish"@), "fish_history"@);
    match configured {
        Some(f) => if !blank(f) {
            expanded_home_dir(f, home)
        } else {
            fallback
        },
        None => fallback,
    }
}

/// Resolve fish's history file: the configured path, else
/// `$XDG_DATA_HOME/fish/fish_history`, else `~/.local/share/fish/fish_history`
/// — the same rule fish itself applies.
pub fn history_path(configured: Option<&str>, xdg_data: Option<&str>, home: &str) -> (r: String)
    ensures
        r@ == history_path_of(opt_view(configured), opt_view(xdg_data), home@),
{
    match configured {
        Some(f) => {
            if !is_blank(f) {
                return expand_home_dir(f, home);
            }
        },
        None => {},
    }
    let base = match xdg_data {
        Some(d) => if d.unicode_len() > 0 {
            String::from_str(d)
        } else {
            let local = join_path_str(home, ".local");
            join_path_str(local.as_str(), "share")
        },
        None => {
            let local = join_path_str(home, ".local");
            join_path_str(local.as_str(), "share")
        },
    };
    let fish = join_path_str(base.as_str(), "fish");
    join_path_str(fish.as_str(), "fish_history")
}

// --- reading the file -------------------------------------------------------

/// fish's history escaping undone: `\\` is a backslash, `\n` a newline, and a
/// backslash before anything else is one the user typed.
pub open spec fn unescaped(s: Seq<char>) -> Seq<char>
    decreases s.len(),
{
    if s.len() == 0 {
        Seq::empty()
    } else if s[0] == '\\' && s.len() > 1 && s[1] == '\\' {
        seq!['\\'] + unescaped(s.subrange(2, s.len() as int))
    } else if s[0] == '\\' && s.len() > 1 && s[1] == 'n' {
        seq!['\n'] + unescaped(s.subrange(2, s.len() as int))
    } else {
        seq![s[0]] + unescaped(s.drop_first())
    }
}

fn unescape_chars(v: &Vec<char>) -> (r: String)
    ensures
        r@ == unescaped(v@),
{
    let n = v.len();
    let mut out = String::new();
    let mut i: usize = 0;
    assert(v@.subrange(0, n as int) =~= v@);
    while i < n
        invariant
            n == v@.len(),
            i <= n,
            out@ + unescaped(v@.subrange(i as int, n as int)) == unescaped(v@),
        decreases n - i,
    {
        let ghost s = v@.subrange(i as int, n as int);
        let ghost before = out@;
        let c = v[i];
        if c == '\\' && i + 1 < n && v[i + 1] == '\\' {
            assert(s.subrange(2, s.len() as int) =~= v@.subrange(i + 2, n as int));
            push_char(&mut out, '\\');
            i += 2;
            assert(out@ + unescaped(v@.subrange(i as int, n as int)) =~= before + unescaped(s));
        } else if c == '\\' && i + 1 < n && v[i + 1] == 'n' {
            assert(s.subrange(2, s.len() as int) =~= v@.subrange(i + 2, n as int));
            push_char(&mut out, '\n');
            i += 2;
            assert(out@ + unescaped(v@.subrange(i as int, n as int)) =~= before + unescaped(s));
        } else {
            assert(s.drop_first() =~= v@.subrange(i + 1, n as int));
            push_char(&mut out, c);
            i += 1;
            assert(out@ + unescaped(v@.subrange(i as int, n as int)) =~= before + unescaped(s));
        }
    }
    assert(v@.subrange(n as int, n as int) =~= Seq::<char>::empty());
    assert(out@ + unescaped(Seq::<char>::empty()) =~= out@);
    out
}

/// Undo fish's history escaping.
///
/// A backslash escapes a backslash, or an `n` standing for a newline, and
/// nothing else — so a backslash before any other character is one the user
/// typed and stays as it is. That is why a shell line continuation round-trips:
/// fish stores the trailing `\` and the newline after it as `\\` then `\n`.
pub fn unescape(text: &str) -> (r: String)
    ensures
        r@ == unescaped(text@),
{
    let v = chars_of(text);
    unescape_chars(&v)
}

/// The time on a `  when:` line, as `str::parse::<i64>` reads it once trimmed.
pub open spec fn when_of(s: Seq<char>) -> Option<i64> {
    match parse_int(trim(s)) {
        Some(n) => if i64::MIN <= n <= i64::MAX {
            Some(n as i64)
        } else {
            None
        },
        None => None,
    }
}

/// The command on a `- cmd:` line: what follows the key and the one space
/// that separates it, unescaped.
pub open spec fn cmd_of(rest: Seq<char>) -> Seq<char> {
    unescaped(
        match strip_prefix(rest, " "@) {
            Some(r) => r,
            None => rest,
        },
    )
}

/// One line read into the entries so far: a `- cmd:` line opens an entry, a
/// `  when:` line dates the last one, and every other line is skipped.
pub open spec fn read_line(es: Seq<EntryView>, line: Seq<char>) -> Seq<EntryView> {
    match strip_prefix(line, "- cmd:"@) {
        Some(rest) => es.push(EntryView { cmd: cmd_of(rest), when: None }),
        None => match strip_prefix(line, "  when:"@) {
            Some(w) => if es.len() > 0 {
                es.update(es.len() - 1, EntryView { cmd: es.last().cmd, when: when_of(w) })
            } else {
                es
            },
            None => es,
        },
    }
}

pub open spec fn read_all(ls: Seq<Seq<char>>) -> Seq<EntryView>
    decreases ls.len(),
{
    if ls.len() == 0 {
        Seq::empty()
    } else {
        read_line(read_all(ls.drop_last()), ls.last())
    }
}

pub open spec fn not_blank_fn() -> spec_fn(EntryView) -> Option<EntryView> {
    |e: EntryView|
        if blank(e.cmd) {
            None
        } else {
            Some(e)
        }
}

/// The entries of a history file, oldest first, blank commands dropped.
pub open spec fn parsed(data: Seq<char>) -> Seq<EntryView> {
    read_all(lines(data)).filter_map(not_blank_fn())
}

/// Read fish's history file into entries, oldest first — the order it stores
/// them in.
///
/// The format is one `- cmd:` line per command, with indented `when:`,
/// `added_when:` and `paths:` lines under it. Anything unrecognised is skipped
/// rather than refused — one entry that cannot be read must not cost the user
/// the other twenty thousand.
pub fn parse(data: &str) -> (r: Vec<Entry>)
    ensures
        entry_views(r@) == parsed(data@),
{
    let ls = lines_of(data);
    let ghost lv = ls@.map_values(|p: Vec<char>| p@);
    let mut entries: Vec<Entry> = Vec::new();
    let mut i: usize = 0;
    while i < ls.len()
        invariant
            lv == ls@.map_values(|p: Vec<char>| p@),
            lv == lines(data@),
            i <= ls@.len(),
            entry_views(entries@) == read_all(lv.take(i as int)),
        decreases ls@.len() - i,
    {
        assert(lv.take(i + 1).drop_last() =~= lv.take(i as int));
        assert(lv.take(i + 1).last() == ls@[i as int]@);
        let ghost before = entry_views(entries@);
        let line = &ls[i];
        match strip_prefix_vec(line, "- cmd:") {
            Some(rest) => {
                let body = match strip_prefix_vec(&rest, " ") {
                    Some(r) => r,
                    None => rest,
                };
                let cmd = unescape_chars(&body);
                let e = Entry { cmd, when: None };
                entries.push(e);
                assert(entry_views(entries@) =~= before.push(e@));
            },
            None => {
                match strip_prefix_vec(line, "  when:") {
                    Some(w) => {
                        if entries.len() > 0 {
                            let (a, b) = trim_range(&w, 0, w.len());
                            assert(w@.subrange(0, w@.len() as int) =~= w@);
                            let when = parse_i64(&w, a, b);
                            let last = entries.pop().unwrap();
                            let e = Entry { cmd: last.cmd, when };
                            entries.push(e);
                            assert(entry_views(entries@) =~= before.update(
                                before.len() - 1,
                                EntryView { cmd: before.last().cmd, when: when_of(w@) },
                            ));
                        }
                    },
                    None => {},
                }
            },
        }
        i += 1;
    }
    assert(lv.take(ls@.len() as int) =~= lv);
    let ghost all = entry_views(entries@);
    let mut out: Vec<Entry> = Vec::new();
    let mut k: usize = 0;
    while k < entries.len()
        invariant
            all == entry_views(entries@),
            k <= entries@.len(),
            entry_views(out@) == all.take(k as int).filter_map(not_blank_fn()),
        decreases entries@.len() - k,
    {
        proof {
            all.lemma_filter_map_take_succ(not_blank_fn(), k as int);
        }
        let ghost before = entry_views(out@);
        if !is_blank(entries[k].cmd.as_str()) {
            let e = Entry { cmd: entries[k].cmd.clone(), when: entries[k].when };
            out.push(e);
            assert(entry_views(out@) =~= before.push(e@));
        }
        k += 1;
    }
    assert(all.take(entries@.len() as int) =~= all);
    out
}

// --- newest first -----------------------------------------------------------

/// Whether some entry of `s` holds the command `c`.
pub open spec fn has_cmd(s: Seq<EntryView>, c: Seq<char>) -> bool {
    exists|j: int| 0 <= j < s.len() && (#[trigger] s[j]).cmd == c
}

/// The first entry of each command, in the order they first appear.
pub open spec fn first_runs(s: Seq<EntryView>) -> Seq<EntryView>
    decreases s.len(),
{
    if s.len() == 0 {
        Seq::empty()
    } else {
        let d = first_runs(s.drop_last());
        if has_cmd(d, s.last().cmd) {
            d
        } else {
            d.push(s.last())
        }
    }
}

/// Newest first, one entry per command: the newest run of each.
pub open spec fn recent_first_of(es: Seq<EntryView>) -> Seq<EntryView> {
    first_runs(es.reverse())
}

fn holds_cmd(out: &Vec<Entry>, c: &str) -> (r: bool)
    ensures
        r == has_cmd(entry_views(out@), c@),
{
    let ghost ov = entry_views(out@);
    let mut j: usize = 0;
    while j < out.len()
        invariant
            ov == entry_views(out@),
            j <= out@.len(),
            forall|k: int| 0 <= k < j ==> (#[trigger] ov[k]).cmd != c@,
        decreases out@.len() - j,
    {
        if same(out[j].cmd.as_str(), c) {
            assert(ov[j as int].cmd == c@);
            return true;
        }
        j += 1;
    }
    false
}

/// Newest first, with earlier runs of the same command dropped.
///
/// The stored order is chronological, so reversing it is what a history search
/// wants: the command from a moment ago is the first row offered. Keeping the
/// *newest* run of each command is what lets the row say when it was last
/// used.
pub fn recent_first(entries: Vec<Entry>) -> (r: Vec<Entry>)
    ensures
        entry_views(r@) == recent_first_of(entry_views(entries@)),
{
    let ghost ev = entry_views(entries@);
    let ghost rev = ev.reverse();
    let n = entries.len();
    let mut out: Vec<Entry> = Vec::new();
    let mut i: usize = 0;
    while i < n
        invariant
            n == entries@.len(),
            ev == entry_views(entries@),
            rev == ev.reverse(),
            i <= n,
            entry_views(out@) == first_runs(rev.take(i as int)),
        decreases n - i,
    {
        assert(rev.take(i + 1).drop_last() =~= rev.take(i as int));
        assert(rev.take(i + 1).last() == ev[n - 1 - i]);
        let e = &entries[n - 1 - i];
        let ghost before = entry_views(out@);
        if !holds_cmd(&out, e.cmd.as_str()) {
            let copy = Entry { cmd: e.cmd.clone(), when: e.when };
            out.push(copy);
            assert(entry_views(out@) =~= before.push(copy@));
        }
        i += 1;
    }
    assert(rev.take(n as int) =~= rev);
    out
}

proof fn lemma_first_runs(s: Seq<EntryView>)
    ensures
        forall|i: int, j: int|
            0 <= i < j < first_runs(s).len() ==> (#[trigger] first_runs(s)[i]).cmd
                != (#[trigger] first_runs(s)[j]).cmd,
        forall|k: int| 0 <= k < s.len() ==> has_cmd(first_runs(s), (#[trigger] s[k]).cmd),
        forall|i: int|
            0 <= i < first_runs(s).len() ==> exists|k: int|
                0 <= k < s.len() && s[k] == #[trigger] first_runs(s)[i] && forall|m: int|
                    0 <= m < k ==> (#[trigger] s[m]).cmd != first_runs(s)[i].cmd,
    decreases s.len(),
{
    if s.len() > 0 {
        let t = s.drop_last();
        lemma_first_runs(t);
        let d = first_runs(t);
        let c = s.last().cmd;
        assert forall|k: int| 0 <= k < s.len() - 1 implies #[trigger] s[k] == t[k] by {}
        if has_cmd(d, c) {
            assert forall|k: int| 0 <= k < s.len() implies has_cmd(first_runs(s), (#[trigger] s[k]).cmd) by {
                if k < s.len() - 1 {
                    assert(t[k] == s[k]);
                }
            }
            assert forall|i: int| 0 <= i < first_runs(s).len() implies exists|k: int|
                0 <= k < s.len() && s[k] == #[trigger] first_runs(s)[i] && forall|m: int|
                    0 <= m < k ==> (#[trigger] s[m]).cmd != first_runs(s)[i].cmd by {
                let k = choose|k: int|
                    0 <= k < t.len() && t[k] == d[i] && forall|m: int|
                        0 <= m < k ==> (#[trigger] t[m]).cmd != d[i].cmd;
                assert(s[k] == d[i]);
                assert forall|m: int| 0 <= m < k implies (#[trigger] s[m]).cmd != first_runs(s)[i].cmd by {
                    assert(t[m] == s[m]);
                }
            }
        } else {
            let r = d.push(s.last());
            assert(first_runs(s) == r);
            assert forall|i: int, j: int| 0 <= i < j < r.len() implies (#[trigger] r[i]).cmd
                != (#[trigger] r[j]).cmd by {
                if j == r.len() - 1 {
                    assert(r[i] == d[i]);
                    if r[i].cmd == c {
                        assert(has_cmd(d, c));
                    }
                } else {
                    assert(r[i] == d[i] && r[j] == d[j]);
                }
            }
            assert forall|k: int| 0 <= k < s.len() implies has_cmd(r, (#[trigger] s[k]).cmd) by {
                if k < s.len() - 1 {
                    assert(t[k] == s[k]);
                    assert(has_cmd(d, t[k].cmd));
                    let j = choose|j: int| 0 <= j < d.len() && (#[trigger] d[j]).cmd == t[k].cmd;
                    assert(r[j] == d[j]);
                } else {
                    assert(r[r.len() - 1] == s.last());
                }
            }
            assert forall|i: int| 0 <= i < r.len() implies exists|k: int|
                0 <= k < s.len() && s[k] == #[trigger] r[i] && forall|m: int|
                    0 <= m < k ==> (#[trigger] s[m]).cmd != r[i].cmd by {
                if i == r.len() - 1 {
                    let k = s.len() - 1;
                    assert(s[k] == r[i]);
                    assert forall|m: int| 0 <= m < k implies (#[trigger] s[m]).cmd != r[i].cmd by {
                        assert(t[m] == s[m]);
                        assert(has_cmd(d, t[m].cmd));
                    }
                } else {
                    assert(r[i] == d[i]);
                    let k = choose|k: int|
                        0 <= k < t.len() && t[k] == d[i] && forall|m: int|
                            0 <= m < k ==> (#[trigger] t[m]).cmd != d[i].cmd;
                    assert(s[k] == r[i]);
                    assert forall|m: int| 0 <= m < k implies (#[trigger] s[m]).cmd != r[i].cmd by {
                        assert(t[m] == s[m]);
                    }
                }
            }
        }
    }
}

/// What [`recent_first`] keeps, in three parts: no command appears twice;
/// every command of the history is still there; and each row is the newest
/// run of its command, so its time is when the command was last used.
pub proof fn lemma_recent_first(es: Seq<EntryView>)
    ensures
        forall|i: int, j: int|
            0 <= i < j < recent_first_of(es).len() ==> (#[trigger] recent_first_of(es)[i]).cmd
                != (#[trigger] recent_first_of(es)[j]).cmd,
        forall|k: int| 0 <= k < es.len() ==> has_cmd(recent_first_of(es), (#[trigger] es[k]).cmd),
        forall|i: int|
            0 <= i < recent_first_of(es).len() ==> exists|k: int|
                0 <= k < es.len() && es[k] == #[trigger] recent_first_of(es)[i] && forall|m: int|
                    k < m < es.len() ==> (#[trigger] es[m]).cmd != recent_first_of(es)[i].cmd,
{
    let s = es.reverse();
    let n = es.len();
    lemma_first_runs(s);
    let r = recent_first_of(es);
    assert forall|k: int| 0 <= k < n implies has_cmd(r, (#[trigger] es[k]).cmd) by {
        assert(s[n - 1 - k] == es[k]);
    }
    assert forall|i: int| 0 <= i < r.len() implies exists|k: int|
        0 <= k < n && es[k] == #[trigger] r[i] && forall|m: int|
            k < m < n ==> (#[trigger] es[m]).cmd != r[i].cmd by {
        let k = choose|k: int|
            0 <= k < s.len() && s[k] == r[i] && forall|m: int|
                0 <= m < k ==> (#[trigger] s[m]).cmd != r[i].cmd;
        let k2 = n - 1 - k;
        assert(es[k2] == s[k]);
        assert forall|m: int| k2 < m < n implies (#[trigger] es[m]).cmd != r[i].cmd by {
            assert(s[n - 1 - m] == es[m]);
        }
    }
}

/// No entry [`parse`] returns is a blank command.
pub proof fn lemma_parsed_not_blank(data: Seq<char>)
    ensures
        forall|i: int| 0 <= i < parsed(data).len() ==> !blank(#[trigger] parsed(data)[i].cmd),
{
    lemma_kept_not_blank(read_all(lines(data)));
}

proof fn lemma_kept_not_blank(s: Seq<EntryView>)
    ensures
        forall|i: int|
            0 <= i < s.filter_map(not_blank_fn()).len() ==> !blank(
                #[trigger] s.filter_map(not_blank_fn())[i].cmd,
            ),
    decreases s.len(),
{
    if s.len() > 0 {
        lemma_kept_not_blank(s.drop_last());
    }
}

// --- one row ----------------------------------------------------------------

/// A character as a row draws it: a tab as a space, any other control
/// character not at all.
pub open spec fn row_char(c: char) -> Option<char> {
    if c == '\t' {
        Some(' ')
    } else if is_ctrl(c) {
        None
    } else {
        Some(c)
    }
}

pub open spec fn row_char_fn() -> spec_fn(char) -> Option<char> {
    |c: char| row_char(c)
}

pub open spec fn row_text(l: Seq<char>) -> Seq<char> {
    l.filter_map(row_char_fn())
}

/// A command on one row: its lines drawn as [`row_text`], joined by a visible
/// newline mark.
pub open spec fn one_line_of(cmd: Seq<char>) -> Seq<char> {
    join(lines(cmd).map_values(|l: Seq<char>| row_text(l)), " ⏎ "@)
}

pub fn row_line(l: &Vec<char>) -> (r: String)
    ensures
        r@ == row_text(l@),
{
    let mut out = String::new();
    let mut k: usize = 0;
    while k < l.len()
        invariant
            k <= l@.len(),
            out@ == l@.take(k as int).filter_map(row_char_fn()),
        decreases l@.len() - k,
    {
        proof {
            l@.lemma_filter_map_take_succ(row_char_fn(), k as int);
        }
        let c = l[k];
        if c == '\t' {
            push_char(&mut out, ' ');
        } else if !ctrl(c) {
            push_char(&mut out, c);
        }
        proof {
            if c == '\t' {
                assert(out@ =~= l@.take(k as int).filter_map(row_char_fn()) + seq![' ']);
            } else if !is_ctrl(c) {
                assert(out@ =~= l@.take(k as int).filter_map(row_char_fn()) + seq![c]);
            } else {
                assert(l@.take(k as int).filter_map(row_char_fn()) + Seq::<char>::empty()
                    =~= l@.take(k as int).filter_map(row_char_fn()));
            }
        }
        k += 1;
    }
    assert(l@.take(l@.len() as int) =~= l@);
    out
}

/// Render a command as a single line, for a row or a listing.
///
/// A multi-line command is folded onto one line, and the folding is visible,
/// since `git commit -m 'first` run together with `second'` is not the command
/// it would then appear to be. Tabs become spaces and other control characters
/// are dropped, so a stray escape sequence in an old entry cannot repaint the
/// terminal.
pub fn one_line(cmd: &str) -> (r: String)
    ensures
        r@ == one_line_of(cmd@),
{
    let ls = lines_of(cmd);
    let ghost lv = ls@.map_values(|p: Vec<char>| p@);
    let mut parts: Vec<String> = Vec::new();
    let mut i: usize = 0;
    while i < ls.len()
        invariant
            lv == ls@.map_values(|p: Vec<char>| p@),
            lv == lines(cmd@),
            i <= ls@.len(),
            parts@.len() == i,
            forall|j: int| 0 <= j < i ==> (#[trigger] parts@[j])@ == row_text(lv[j]),
        decreases ls@.len() - i,
    {
        let part = row_line(&ls[i]);
        parts.push(part);
        i += 1;
    }
    let r = join_strings(&parts, " ⏎ ");
    assert(parts@.map_values(|p: String| p@) =~= lines(cmd@).map_values(
        |l: Seq<char>| row_text(l),
    ));
    r
}

// --- when ---------------------------------------------------------------------

/// When a command was last run, as a local date and time: `2026-07-30 13:57`;
/// [`STAMP_WIDTH`] blanks for an entry with no time, or one no calendar here
/// represents.
pub open spec fn stamp_of(when: Option<i64>, offset: i32) -> Seq<char> {
    match when {
        Some(w) => crate::clock::timestamp_at_offset(w, offset),
        None => crate::clock::blanks(STAMP_WIDTH as nat),
    }
}

/// When a command was last run, as a local date and time — see [`stamp_of`].
/// Blank but still [`STAMP_WIDTH`] wide for an entry carrying no timestamp, so
/// the commands stay in one column. `offset` is whole seconds east of UTC.
pub fn stamp(when: Option<i64>, offset: i32) -> (r: String)
    ensures
        r@ == stamp_of(when, offset),
{
    match when {
        Some(w) => crate::clock::timestamp(w, offset),
        None => {
            let mut out = String::new();
            let mut i: usize = 0;
            while i < STAMP_WIDTH
                invariant
                    i <= STAMP_WIDTH,
                    out@ == crate::clock::blanks(i as nat),
                decreases STAMP_WIDTH - i,
            {
                push_char(&mut out, ' ');
                i += 1;
                assert(out@ =~= crate::clock::blanks(i as nat));
            }
            out
        },
    }
}

} // verus!
