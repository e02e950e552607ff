//! Notes: a tree of Markdown files — an Obsidian vault, or anything shaped like
//! one — read as rows in a selector.
//!
//! The walk, the file reads and the clock happen elsewhere; this module turns
//! what they hand back into a title, two dates, an aligned row, a search match
//! and a verdict on whether a note was ever really written.

use vstd::prelude::*;

pub use crate::clock::{date, generated_name, timestamp};

use crate::path::{displayed, display_path, file_name, file_name_of, path_stripped, strip_root};
use crate::text::{
    all_digits, chars_of, decimal, decimal_string, digit, eq_ascii_ci, find_in, is_digit, is_ws,
    join, join_strings, lower, parse_nat, parse_unsigned, push_char, push_decimal, range_eq_ci,
    rfind_in, slice_vec, splitn, splitn_range, string_from, string_of, to_lower, ws,
};

verus! {

/// The colour of a search row's path: blue, as every file listing colours one.
pub const FOLDER_COLOR: u8 = 4;

/// The colour of a `:line` suffix on a search row: yellow, as every grep-alike
/// numbers its lines.
pub const LINE_COLOR: u8 = 3;

/// Between two columns. Two spaces, everywhere.
pub const COLUMN_GAP: &'static str = "  ";

/// Where the scratch note lives when nothing says otherwise.
pub const DEFAULT_SCRATCH: &'static str = "scratch/scratch.md";

/// How little a body can hold before there is nothing in the note, counted in
/// characters that are not whitespace.
pub const MIN_BODY: usize = 24;

/// Wide enough for the longest [`Junk::label`], so the paths line up.
pub const JUNK_REASON_WIDTH: usize = 8;

pub const MINUTE: i64 = 60;

pub const HOUR: i64 = 3600;

pub const DAY: i64 = 86400;

pub const WEEK: i64 = 604800;

pub const YEAR: i64 = 31536000;

/// A twelfth of a year.
pub const MONTH: i64 = 2628000;

// --- notes ------------------------------------------------------------------

/// What a note's front matter said about it.
#[derive(Debug, Clone, PartialEq, Eq)]
pub struct Front {
    /// `title:`, when the note names itself something other than its filename.
    pub title: Option<String>,
    /// `tags:`/`tag:`, in the order written, without a leading `#`.
    pub tags: Vec<String>,
    /// `created:`/`date:`, as local midnight on the day it names.
    pub created: Option<i64>,
}

impl Default for Front {
    fn default() -> (r: Self)
        ensures
            r.title is None,
            r.tags@.len() == 0,
            r.created is None,
    {
        Front { title: None, tags: Vec::new(), created: None }
    }
}

/// One note, as a listing sees it.
#[derive(Debug, Clone, PartialEq, Eq)]
pub struct Note {
    /// Absolute path — what a row returns and what an editor is handed.
    pub path: String,
    /// Path below the vault root, extension and all.
    pub rel: String,
    /// The directory directly below the root that the note is filed under, or
    /// empty for a note at the root itself.
    pub dir: String,
    /// Last modified, in Unix seconds.
    pub modified: i64,
    /// Created, in Unix seconds. See [`created`].
    pub created: i64,
    pub front: Front,
}

/// What follows the last `c` of `s`, or all of `s` when it has none.
pub open spec fn after_last(s: Seq<char>, c: char) -> Seq<char> {
    match s.index_of_last(c) {
        Some(i) => s.skip(i + 1),
        None => s,
    }
}

/// The filename, without its directories or its extension. A leading dot is
/// the whole name, not an extension.
pub open spec fn stem_of(rel: Seq<char>) -> Seq<char> {
    let name = after_last(rel, '/');
    match name.index_of_last('.') {
        Some(at) => if at > 0 {
            name.take(at)
        } else {
            name
        },
        None => name,
    }
}

/// The stem of a file name is the name with only its final `.ext` cut off:
/// for `dir/s.e`, where `e` holds no dot and `s` is not empty, it is `s` —
/// dots inside `s` included — and a name with no dot is its own stem.
pub proof fn lemma_stem_cuts_only_the_last_extension(dir: Seq<char>, s: Seq<char>, e: Seq<char>)
    requires
        s.len() > 0,
        !s.contains('/'),
        !e.contains('/'),
        !e.contains('.'),
    ensures
        stem_of(dir + seq!['/'] + s + seq!['.'] + e) == s,
        stem_of(s + seq!['.'] + e) == s,
        !s.contains('.') ==> stem_of(dir + seq!['/'] + s) == s,
        !s.contains('.') ==> stem_of(s) == s,
{
    let name = s + seq!['.'] + e;
    assert(dir + seq!['/'] + s + seq!['.'] + e =~= dir + seq!['/'] + name);
    lemma_last_after(dir, name, '/');
    lemma_no_char_index_of_last(name, '/');
    assert(after_last(name, '/') == name);
    name.index_of_last_ensures('.');
    assert(name[s.len() as int] == '.');
    match name.index_of_last('.') {
        Some(i) => {
            if i > s.len() {
                assert(name[i] == e[i - s.len() - 1]);
                assert(e.contains(e[i - s.len() - 1]));
            }
            assert(i == s.len());
            assert(name.take(i) =~= s);
        },
        None => {},
    }
    if !s.contains('.') {
        lemma_last_after(dir, s, '/');
        lemma_no_char_index_of_last(s, '/');
        lemma_no_char_index_of_last(s, '.');
    }
}

/// Of `dir/name` with no `c` in `name` but `c` the separator: what follows the
/// last `c` is `name`.
proof fn lemma_last_after(dir: Seq<char>, name: Seq<char>, c: char)
    requires
        !name.contains(c),
    ensures
        after_last(dir + seq![c] + name, c) == name,
{
    let p = dir + seq![c] + name;
    p.index_of_last_ensures(c);
    assert(p[dir.len() as int] == c);
    match p.index_of_last(c) {
        Some(i) => {
            if i > dir.len() {
                assert(p[i] == name[i - dir.len() - 1]);
                assert(name.contains(name[i - dir.len() - 1]));
            }
            assert(i == dir.len());
            assert(p.skip(i + 1) =~= name);
        },
        None => {},
    }
}

proof fn lemma_no_char_index_of_last(s: Seq<char>, c: char)
    requires
        !s.contains(c),
    ensures
        s.index_of_last(c) is None,
        after_last(s, c) == s,
{
    s.index_of_last_ensures(c);
    if s.index_of_last(c) is Some {
        let i = s.index_of_last(c)->0;
        assert(s[i] == c);
    }
}

/// The filename, without its directories or its extension — see [`stem_of`].
pub fn stem(rel: &str) -> (r: &str)
    ensures
        r@ == stem_of(rel@),
{
    let v = chars_of(rel);
    let n = v.len();
    assert(v@.subrange(0, n as int) =~= v@);
    proof {
        rel@.index_of_last_ensures('/');
    }
    let base = match rfind_in(&v, 0, n, '/') {
        Some(k) => k + 1,
        None => 0,
    };
    let ghost name = after_last(rel@, '/');
    assert(name =~= v@.subrange(base as int, n as int));
    proof {
        name.index_of_last_ensures('.');
    }
    match rfind_in(&v, base, n, '.') {
        Some(at) => {
            if at > 0 {
                assert(name.take(at as int) =~= rel@.subrange(base as int, base + at));
                rel.substring_char(base, base + at)
            } else {
                rel.substring_char(base, n)
            }
        },
        None => rel.substring_char(base, n),
    }
}

/// The tags column: every tag, `#`-prefixed, space-separated.
pub open spec fn tag_column_of(tags: Seq<Seq<char>>) -> Seq<char> {
    join(tags.map_values(|t: Seq<char>| seq!['#'] + t), " "@)
}

impl Note {
    /// What the note calls itself: its front matter's `title`, else the
    /// filename without its extension.
    pub fn title(&self) -> (r: &str)
        ensures
            r@ == (match self.front.title {
                Some(t) => t@,
                None => stem_of(self.rel@),
            }),
    {
        match &self.front.title {
            Some(title) => title.as_str(),
            None => stem(self.rel.as_str()),
        }
    }

    /// The group column: the label the note's directory carries, or the
    /// directory's own name when it carries none.
    pub fn group<'a>(&'a self, label: Option<&'a str>) -> (r: &'a str)
        ensures
            r@ == (match label {
                Some(l) => l@,
                None => self.dir@,
            }),
    {
        match label {
            Some(l) => l,
            None => self.dir.as_str(),
        }
    }

    /// Whether the group column is a configured label rather than a bare
    /// directory name, which is what decides whether the row takes a colour.
    /// `label` is the label the note's directory carries, if it carries one.
    pub fn labelled(&self, label: Option<&str>) -> (r: bool)
        ensures
            r == (label is Some),
    {
        label.is_some()
    }

    /// The path a report shows: absolute, with the home directory collapsed to
    /// `~`.
    pub fn shown(&self, home: &str) -> (r: String)
        ensures
            r@ == displayed(self.path@, home@, false),
    {
        display_path(self.path.as_str(), home, false)
    }

    /// The tags column: every tag, `#`-prefixed, space-separated.
    pub fn tag_column(&self) -> (r: String)
        ensures
            r@ == tag_column_of(self.front.tags@.map_values(|t: String| t@)),
    {
        let ghost tv = self.front.tags@.map_values(|t: String| t@);
        let mut parts: Vec<String> = Vec::new();
        let mut i: usize = 0;
        while i < self.front.tags.len()
            invariant
                tv == self.front.tags@.map_values(|t: String| t@),
                i <= tv.len(),
                parts@.len() == i,
                forall|j: int| 0 <= j < i ==> (#[trigger] parts@[j])@ == seq!['#'] + tv[j],
            decreases tv.len() - i,
        {
            let mut p = String::new();
            push_char(&mut p, '#');
            p.append(self.front.tags[i].as_str());
            parts.push(p);
            i += 1;
        }
        let r = join_strings(&parts, " ");
        assert(parts@.map_values(|p: String| p@) =~= tv.map_values(|t: Seq<char>| seq!['#'] + t));
        r
    }
}

/// The directory directly below the root that `rel` is filed under, or empty
/// for a path at the root itself.
pub open spec fn top_dir_of(rel: Seq<char>) -> Seq<char> {
    match rel.index_of_first('/') {
        Some(at) => rel.take(at),
        None => Seq::empty(),
    }
}

/// The directory directly below the root that `rel` is filed under — see
/// [`top_dir_of`].
pub fn top_dir(rel: &str) -> (r: &str)
    ensures
        r@ == top_dir_of(rel@),
{
    let v = chars_of(rel);
    assert(v@.subrange(0, v@.len() as int) =~= v@);
    proof {
        rel@.index_of_first_ensures('/');
        reveal_strlit("");
    }
    match find_in(&v, 0, v.len(), '/') {
        Some(at) => {
            assert(rel@.take(at as int) =~= rel@.subrange(0, at as int));
            rel.substring_char(0, at)
        },
        None => "",
    }
}

/// When a note was created: what its front matter says, else what the
/// filesystem says, else when it was last modified — nothing is newer than
/// itself.
pub fn created(front: Option<i64>, birth: Option<i64>, modified: i64) -> (r: i64)
    ensures
        r == (match front {
            Some(f) => f,
            None => match birth {
                Some(b) => b,
                None => modified,
            },
        }),
{
    match front {
        Some(f) => f,
        None => match birth {
            Some(b) => b,
            None => modified,
        },
    }
}

// --- front matter -----------------------------------------------------------

/// How many characters of the opening fence `text` starts with: `---` and a
/// line break, or `None` when it does not open with one.
pub open spec fn open_fence_len(text: Seq<char>) -> Option<nat> {
    if text.len() >= 5 && text.take(5) == seq!['-', '-', '-', '\r', '\n'] {
        Some(5)
    } else if text.len() >= 4 && text.take(4) == seq!['-', '-', '-', '\n'] {
        Some(4)
    } else {
        None
    }
}

/// `s` without the line breaks and carriage returns it ends with.
pub open spec fn trim_breaks(s: Seq<char>) -> Seq<char>
    decreases s.len(),
{
    if s.len() > 0 && (s.last() == '\n' || s.last() == '\r') {
        trim_breaks(s.drop_last())
    } else {
        s
    }
}

/// A line that closes a block: exactly `---` or `...`.
pub open spec fn is_fence(line: Seq<char>) -> bool {
    trim_breaks(line) == seq!['-', '-', '-'] || trim_breaks(line) == seq!['.', '.', '.']
}

/// Where the line of `s` starting at `at` ends: after its line break, or at
/// the end of `s`.
pub open spec fn line_end(s: Seq<char>, at: int) -> int {
    match s.skip(at).index_of_first('\n') {
        Some(k) => at + k + 1,
        None => s.len() as int,
    }
}

/// The first closing line at or after `at`: where it starts and ends.
pub open spec fn closing_line(s: Seq<char>, at: int) -> Option<(int, int)>
    decreases s.len() - at,
{
    if at < 0 || at >= s.len() {
        None
    } else {
        let end = line_end(s, at);
        if is_fence(s.subrange(at, end)) {
            Some((at, end))
        } else if at < end <= s.len() {
            closing_line(s, end)
        } else {
            None
        }
    }
}

/// A note's text split into its front matter block and the body below it:
/// the block is what sits between a first line of exactly `---` and the next
/// line of exactly `---` or `...`. An unterminated block is not one.
pub open spec fn front_matter_of(text: Seq<char>) -> (Option<Seq<char>>, Seq<char>) {
    match open_fence_len(text) {
        Some(o) => {
            let after = text.skip(o as int);
            match closing_line(after, 0) {
                Some((at, end)) => (Some(after.take(at)), after.skip(end)),
                None => (None, text),
            }
        },
        None => (None, text),
    }
}

fn trimmed_is_fence(v: &Vec<char>, lo: usize, hi: usize) -> (r: bool)
    requires
        lo <= hi <= v@.len(),
    ensures
        r == is_fence(v@.subrange(lo as int, hi as int)),
{
    let mut e = hi;
    while e > lo && (v[e - 1] == '\n' || v[e - 1] == '\r')
        invariant
            lo <= e <= hi <= v@.len(),
            trim_breaks(v@.subrange(lo as int, hi as int)) == trim_breaks(v@.subrange(lo as int, e as int)),
        decreases e,
    {
        assert(v@.subrange(lo as int, e as int).drop_last() =~= v@.subrange(lo as int, e - 1));
        e -= 1;
    }
    let ghost t = v@.subrange(lo as int, e as int);
    assert(trim_breaks(t) == t);
    let three = e - lo == 3;
    let dashes = three && v[lo] == '-' && v[lo + 1] == '-' && v[lo + 2] == '-';
    let dots = three && v[lo] == '.' && v[lo + 1] == '.' && v[lo + 2] == '.';
    proof {
        if dashes {
            assert(t =~= seq!['-', '-', '-']);
        }
        if dots {
            assert(t =~= seq!['.', '.', '.']);
        }
        if t == seq!['-', '-', '-'] {
            assert(t.len() == 3 && t[0] == '-' && t[1] == '-' && t[2] == '-');
        }
        if t == seq!['.', '.', '.'] {
            assert(t.len() == 3 && t[0] == '.' && t[1] == '.' && t[2] == '.');
        }
    }
    dashes || dots
}

/// Split `text` into its YAML front matter block and the body below it — see
/// [`front_matter_of`]. A note opening with a horizontal rule would otherwise
/// lose its entire body to a block that never closes.
pub fn split_front_matter(text: &str) -> (r: (Option<&str>, &str))
    ensures
        (match r.0 {
            Some(b) => Some(b@),
            None => None,
        }, r.1@) == front_matter_of(text@),
{
    let v = chars_of(text);
    let n = v.len();
    let o: usize = if n >= 5 && v[0] == '-' && v[1] == '-' && v[2] == '-' && v[3] == '\r' && v[4]
        == '\n' {
        5
    } else if n >= 4 && v[0] == '-' && v[1] == '-' && v[2] == '-' && v[3] == '\n' {
        4
    } else {
        0
    };
    proof {
        if o == 5 {
            assert(text@.take(5) =~= seq!['-', '-', '-', '\r', '\n']);
        } else if o == 4 {
            assert(text@.take(4) =~= seq!['-', '-', '-', '\n']);
            if n >= 5 && text@.take(5) == seq!['-', '-', '-', '\r', '\n'] {
                assert(text@.take(5)[3] == '\r');
            }
        } else {
            if n >= 5 && text@.take(5) == seq!['-', '-', '-', '\r', '\n'] {
                assert(text@.take(5)[3] == '\r' && text@.take(5)[0] == '-' && text@.take(5)[1]
                    == '-' && text@.take(5)[2] == '-' && text@.take(5)[4] == '\n');
            }
            if n >= 4 && text@.take(4) == seq!['-', '-', '-', '\n'] {
                assert(text@.take(4)[3] == '\n' && text@.take(4)[0] == '-' && text@.take(4)[1]
                    == '-' && text@.take(4)[2] == '-');
            }
        }
    }
    if o == 0 {
        return (None, text);
    }
    let ghost after = text@.skip(o as int);
    let mut at = o;
    while at < n
        invariant
            o <= at <= n == v@.len(),
            v@ == text@,
            after == text@.skip(o as int),
            open_fence_len(text@) == Some(o as nat),
            closing_line(after, 0) == closing_line(after, at - o),
        decreases n - at,
    {
        proof {
            v@.subrange(at as int, n as int).index_of_first_ensures('\n');
        }
        let end = match find_in(&v, at, n, '\n') {
            Some(k) => at + k + 1,
            None => n,
        };
        assert(after.skip(at - o) =~= v@.subrange(at as int, n as int));
        assert(line_end(after, at - o) == end - o);
        assert(after.subrange(at - o, end - o) =~= v@.subrange(at as int, end as int));
        if trimmed_is_fence(&v, at, end) {
            assert(after.take(at - o) =~= text@.subrange(o as int, at as int));
            assert(after.skip(end - o) =~= text@.subrange(end as int, n as int));
            return (Some(text.substring_char(o, at)), text.substring_char(end, n));
        }
        at = end;
    }
    (None, text)
}

// --- dates ------------------------------------------------------------------

/// `n` and a unit, as `format!("{n}{unit}")` writes it.
pub open spec fn amount(n: int, unit: Seq<char>) -> Seq<char> {
    decimal(n as nat) + unit
}

/// How long ago `then` was, in three or four characters: the largest unit that
/// fits, and `now` for under a minute or a time in the future. Never `0mo`.
pub open spec fn age_of(now: int, then: int) -> Seq<char> {
    let s = if now - then > 0 {
        now - then
    } else {
        0
    };
    if s < MINUTE {
        "now"@
    } else if s < HOUR {
        amount(s / MINUTE as int, "m"@)
    } else if s < DAY {
        amount(s / HOUR as int, "h"@)
    } else if s < WEEK {
        amount(s / DAY as int, "d"@)
    } else if s < 5 * WEEK {
        amount(s / WEEK as int, "w"@)
    } else if s < YEAR {
        amount(
            if s / MONTH as int > 1 {
                s / MONTH as int
            } else {
                1
            },
            "mo"@,
        )
    } else {
        amount(s / YEAR as int, "y"@)
    }
}

fn amount_string(n: i64, unit: &str) -> (r: String)
    requires
        n >= 0,
    ensures
        r@ == amount(n as int, unit@),
{
    let mut out = decimal_string(n as u64);
    out.append(unit);
    out
}

/// How long ago `then` was, in three or four characters — `now`, `42m`, `6d`,
/// `11mo`, `3y` — see [`age_of`]. A note dated in the future reads as `now`
/// rather than as a negative age.
pub fn age(now: i64, then: i64) -> (r: String)
    requires
        i64::MIN <= now - then <= i64::MAX,
    ensures
        r@ == age_of(now as int, then as int),
{
    let d = now - then;
    let s = if d > 0 {
        d
    } else {
        0
    };
    if s < MINUTE {
        String::from_str("now")
    } else if s < HOUR {
        amount_string(s / MINUTE, "m")
    } else if s < DAY {
        amount_string(s / HOUR, "h")
    } else if s < WEEK {
        amount_string(s / DAY, "d")
    } else if s < 5 * WEEK {
        amount_string(s / WEEK, "w")
    } else if s < YEAR {
        let m = s / MONTH;
        amount_string(
            if m > 1 {
                m
            } else {
                1
            },
            "mo",
        )
    } else {
        amount_string(s / YEAR, "y")
    }
}

proof fn lemma_decimal_leads_nonzero(n: nat)
    requires
        n > 0,
    ensures
        decimal(n).len() > 0,
        decimal(n)[0] != '0',
    decreases n,
{
    if n >= 10 {
        lemma_decimal_leads_nonzero(n / 10);
    }
}

/// An age never reads as zero of anything: it is `now`, or a count of at least
/// one of the largest unit that fits.
pub proof fn lemma_age_never_zero(now: int, then: int)
    ensures
        age_of(now, then).len() > 0,
        age_of(now, then)[0] != '0',
{
    let s = if now - then > 0 {
        now - then
    } else {
        0
    };
    reveal_strlit("now");
    if s >= MINUTE {
        let n: int = if s < HOUR {
            s / MINUTE as int
        } else if s < DAY {
            s / HOUR as int
        } else if s < WEEK {
            s / DAY as int
        } else if s < 5 * WEEK {
            s / WEEK as int
        } else if s < YEAR {
            if s / MONTH as int > 1 {
                s / MONTH as int
            } else {
                1
            }
        } else {
            s / YEAR as int
        };
        assert(n >= 1);
        lemma_decimal_leads_nonzero(n as nat);
    }
}

// --- what counts as a note --------------------------------------------------

/// `Path::extension`: what follows the last dot of the file name, when the
/// dot is not its first character.
pub open spec fn extension_of(path: Seq<char>) -> Option<Seq<char>> {
    match file_name(path) {
        Some(name) => match name.index_of_last('.') {
            Some(i) => if i > 0 {
                Some(name.skip(i + 1))
            } else {
                None
            },
            None => None,
        },
        None => None,
    }
}

/// A path a note listing offers: a Markdown extension, in any case.
pub open spec fn is_note_path(path: Seq<char>) -> bool {
    match extension_of(path) {
        Some(e) => eq_ascii_ci(e, "md"@) || eq_ascii_ci(e, "markdown"@),
        None => false,
    }
}

/// Whether a path is one a note listing offers, by extension. Obsidian writes
/// Markdown and reads nothing else.
pub fn is_note(path: &str) -> (r: bool)
    ensures
        r == is_note_path(path@),
{
    match file_name_of(path) {
        Some(name) => {
            let v = chars_of(name.as_str());
            let n = v.len();
            assert(v@.subrange(0, n as int) =~= v@);
            proof {
                name@.index_of_last_ensures('.');
            }
            match rfind_in(&v, 0, n, '.') {
                Some(i) => {
                    if i > 0 {
                        assert(name@.skip(i + 1) =~= v@.subrange(i + 1, n as int));
                        range_eq_ci(&v, i + 1, n, "md") || range_eq_ci(&v, i + 1, n, "markdown")
                    } else {
                        false
                    }
                },
                None => false,
            }
        },
        None => false,
    }
}

// --- sizes ------------------------------------------------------------------

/// A file size a person reads rather than counts: one number and one letter.
pub open spec fn size_of(bytes: u64) -> Seq<char> {
    if bytes < 1024 {
        decimal(bytes as nat) + "b"@
    } else if bytes < 1048576 {
        decimal((bytes / 1024) as nat) + "k"@
    } else {
        decimal((bytes / 1048576) as nat) + "M"@
    }
}

/// A file size a person reads rather than counts — see [`size_of`]. The unit
/// is the last character of every size, so a column of them lines up under
/// itself.
pub fn size(bytes: u64) -> (r: String)
    ensures
        r@ == size_of(bytes),
{
    let (n, unit) = if bytes < 1024 {
        (bytes, "b")
    } else if bytes < 1048576 {
        (bytes / 1024, "k")
    } else {
        (bytes / 1048576, "M")
    };
    let mut out = decimal_string(n);
    out.append(unit);
    out
}

// --- paths as `Path` compares them ------------------------------------------

pub open spec fn kept_part_fn() -> spec_fn(Seq<char>) -> Option<Seq<char>> {
    |p: Seq<char>| if p.len() == 0 || p == seq!['.'] { None } else { Some(p) }
}

/// A path's components as `Path::components` reads them: whether it is
/// rooted, then its names — repeated separators and `.` dropped, but a leading
/// `.` of a relative path kept.
pub open spec fn components(p: Seq<char>) -> (bool, Seq<Seq<char>>) {
    let pieces = crate::text::split(p, '/');
    let rooted = p.len() > 0 && p[0] == '/';
    let lead = !rooted && pieces.len() > 0 && pieces[0] == seq!['.'];
    (rooted, (if lead {
        seq![seq!['.']]
    } else {
        Seq::empty()
    }) + pieces.filter_map(kept_part_fn()))
}

fn is_dot(p: &Vec<char>) -> (r: bool)
    ensures
        r == (p@ == seq!['.']),
{
    let r = p.len() == 1 && p[0] == '.';
    proof {
        if r {
            assert(p@ =~= seq!['.']);
        }
        if p@ == seq!['.'] {
            assert(p@.len() == 1 && p@[0] == '.');
        }
    }
    r
}

pub open spec fn char_views(v: Seq<Vec<char>>) -> Seq<Seq<char>> {
    v.map_values(|p: Vec<char>| p@)
}

fn components_of(s: &str) -> (r: (bool, Vec<Vec<char>>))
    ensures
        r.0 == components(s@).0,
        char_views(r.1@) == components(s@).1,
{
    let v = chars_of(s);
    assert(v@.subrange(0, v@.len() as int) =~= v@);
    let pieces = crate::text::split_range(&v, 0, v.len(), '/');
    let ghost pv = pieces@.map_values(|p: Vec<char>| p@);
    proof {
        crate::text::lemma_split_nonempty(s@, '/');
    }
    let rooted = v.len() > 0 && v[0] == '/';
    let lead = !rooted && pieces.len() > 0 && is_dot(&pieces[0]);
    let mut out: Vec<Vec<char>> = Vec::new();
    if lead {
        let mut dot: Vec<char> = Vec::new();
        dot.push('.');
        out.push(dot);
        assert(out@.map_values(|p: Vec<char>| p@) =~= seq![seq!['.']]);
    }
    let ghost head = out@.map_values(|p: Vec<char>| p@);
    assert(head =~= (if lead {
        seq![seq!['.']]
    } else {
        Seq::<Seq<char>>::empty()
    }));
    let mut i: usize = 0;
    while i < pieces.len()
        invariant
            pv == pieces@.map_values(|p: Vec<char>| p@),
            i <= pieces@.len(),
            out@.map_values(|p: Vec<char>| p@) == head + pv.take(i as int).filter_map(kept_part_fn()),
        decreases pieces@.len() - i,
    {
        proof {
            pv.lemma_filter_map_take_succ(kept_part_fn(), i as int);
        }
        let ghost before = out@.map_values(|p: Vec<char>| p@);
        let piece = &pieces[i];
        assert(pv[i as int] == piece@);
        if piece.len() > 0 && !is_dot(piece) {
            let copy = slice_vec(piece, 0, piece.len());
            assert(piece@.subrange(0, piece@.len() as int) =~= piece@);
            out.push(copy);
            assert(out@.map_values(|p: Vec<char>| p@) =~= before.push(piece@));
            assert(head + pv.take(i + 1).filter_map(kept_part_fn()) =~= (head + pv.take(
                i as int,
            ).filter_map(kept_part_fn())).push(piece@));
        } else {
            assert(head + pv.take(i + 1).filter_map(kept_part_fn()) =~= head + pv.take(
                i as int,
            ).filter_map(kept_part_fn()));
        }
        i += 1;
    }
    assert(pv.take(pieces@.len() as int) =~= pv);
    (rooted, out)
}

/// Whether two paths name the same place as `Path`'s `==` sees it: the same
/// components, whatever separators or `.` they were written with.
pub open spec fn same_path(a: Seq<char>, b: Seq<char>) -> bool {
    components(a) == components(b)
}

fn same_path_str(a: &str, b: &str) -> (r: bool)
    ensures
        r == same_path(a@, b@),
{
    let (ra, pa) = components_of(a);
    let (rb, pb) = components_of(b);
    let ghost va = char_views(pa@);
    let ghost vb = char_views(pb@);
    if ra != rb || pa.len() != pb.len() {
        assert(va.len() == pa@.len() && vb.len() == pb@.len());
        return false;
    }
    let mut i: usize = 0;
    while i < pa.len()
        invariant
            va == char_views(pa@),
            vb == char_views(pb@),
            va == components(a@).1,
            vb == components(b@).1,
            ra == components(a@).0,
            rb == components(b@).0,
            ra == rb,
            pa@.len() == pb@.len(),
            i <= pa@.len(),
            forall|j: int| 0 <= j < i ==> va[j] == vb[j],
        decreases pa@.len() - i,
    {
        if !crate::text::vec_eq(&pa[i], &pb[i]) {
            assert(va[i as int] != vb[i as int]);
            assert(components(a@).1 != components(b@).1);
            return false;
        }
        i += 1;
    }
    assert(va =~= vb);
    true
}

// --- cleanup ----------------------------------------------------------------

/// Why a note is worth a second look before it is kept. The order the
/// variants are written in is the order a cleanup list is read in.
#[derive(Debug, Clone, Copy, PartialEq, Eq, PartialOrd, Ord, Structural)]
pub enum Junk {
    /// Nothing in it, or so little that nothing was said.
    Empty,
    /// Called `Untitled`, which is what an editor calls a file nobody named.
    Untitled,
    /// Named without a letter in it — a date, a clock reading, a number — and
    /// carrying no front matter title either.
    Unnamed,
}

/// Where a reason sorts in a cleanup list.
pub open spec fn junk_rank(j: Junk) -> int {
    match j {
        Junk::Empty => 0,
        Junk::Untitled => 1,
        Junk::Unnamed => 2,
    }
}

pub open spec fn junk_label(j: Junk) -> Seq<char> {
    match j {
        Junk::Empty => "empty"@,
        Junk::Untitled => "untitled"@,
        Junk::Unnamed => "no name"@,
    }
}

pub open spec fn junk_color(j: Junk) -> u8 {
    match j {
        Junk::Empty => 1u8,
        _ => 3u8,
    }
}

impl Junk {
    /// What the row says about it, in a couple of words.
    pub fn label(self) -> (r: &'static str)
        ensures
            r@ == junk_label(self),
    {
        match self {
            Junk::Empty => "empty",
            Junk::Untitled => "untitled",
            Junk::Unnamed => "no name",
        }
    }

    /// Red for a note with nothing in it, yellow for one that has content and
    /// only wants a name.
    pub fn color(self) -> (r: u8)
        ensures
            r == junk_color(self),
    {
        match self {
            Junk::Empty => 1,
            _ => 3,
        }
    }

    fn rank(self) -> (r: u8)
        ensures
            r as int == junk_rank(self),
    {
        match self {
            Junk::Empty => 0,
            Junk::Untitled => 1,
            Junk::Unnamed => 2,
        }
    }
}

/// How many characters of `s` are not whitespace.
pub open spec fn substance(s: Seq<char>) -> nat
    decreases s.len(),
{
    if s.len() == 0 {
        0
    } else {
        substance(s.drop_last()) + if is_ws(s.last()) {
            0nat
        } else {
            1nat
        }
    }
}

proof fn lemma_substance_bound(s: Seq<char>)
    ensures
        substance(s) <= s.len(),
    decreases s.len(),
{
    if s.len() > 0 {
        lemma_substance_bound(s.drop_last());
    }
}

fn substance_of(body: &str) -> (r: usize)
    ensures
        r == substance(body@),
{
    let v = chars_of(body);
    let mut count: usize = 0;
    let mut i: usize = 0;
    while i < v.len()
        invariant
            v@ == body@,
            i <= v@.len(),
            count == substance(v@.take(i as int)),
            count <= i,
        decreases v@.len() - i,
    {
        assert(v@.take(i + 1).drop_last() =~= v@.take(i as int));
        if !ws(v[i]) {
            count += 1;
        }
        i += 1;
    }
    assert(v@.take(v@.len() as int) =~= v@);
    count
}

/// A character that may follow `untitled` in a name an editor numbered.
pub open spec fn numbering_char(c: char) -> bool {
    is_digit(c) || c == ' ' || c == '-' || c == '_'
}

/// The name an editor gives a file nobody named: `Untitled`, in any case, and
/// the `Untitled 1`, `untitled-2` it goes on to.
pub open spec fn is_untitled_name(name: Seq<char>) -> bool {
    &&& name.len() >= 8
    &&& eq_ascii_ci(name.take(8), "untitled"@)
    &&& forall|i: int| 8 <= i < name.len() ==> numbering_char(#[trigger] name[i])
}

fn is_untitled(name: &str) -> (r: bool)
    ensures
        r == is_untitled_name(name@),
{
    let v = chars_of(name);
    let n = v.len();
    if n < 8 {
        return false;
    }
    if !range_eq_ci(&v, 0, 8, "untitled") {
        assert(v@.subrange(0, 8) =~= name@.take(8));
        return false;
    }
    assert(v@.subrange(0, 8) =~= name@.take(8));
    let mut i: usize = 8;
    while i < n
        invariant
            v@ == name@,
            n == v@.len(),
            8 <= i <= n,
            forall|j: int| 8 <= j < i ==> numbering_char(#[trigger] name@[j]),
        decreases n - i,
    {
        let c = v[i];
        if !(digit(c) || c == ' ' || c == '-' || c == '_') {
            assert(!numbering_char(name@[i as int]));
            return false;
        }
        i += 1;
    }
    true
}

/// Whether a note is worth offering for deletion, and why: never the scratch
/// note; empty when its body says fewer than [`MIN_BODY`] characters; then
/// untitled; then unnamed when neither its filename nor its front matter
/// names it with a letter.
pub open spec fn junk_of(
    path: Seq<char>,
    rel: Seq<char>,
    titled: bool,
    body: Seq<char>,
    scratch: Seq<char>,
) -> Option<Junk> {
    if same_path(path, scratch) {
        None
    } else if substance(body) < MIN_BODY {
        Some(Junk::Empty)
    } else if is_untitled_name(stem_of(rel)) {
        Some(Junk::Untitled)
    } else if !titled && forall|i: int|
        0 <= i < stem_of(rel).len() ==> !crate::text::alphabetic(#[trigger] stem_of(rel)[i]) {
        Some(Junk::Unnamed)
    } else {
        None
    }
}

fn has_letter(name: &str) -> (r: bool)
    ensures
        r == exists|i: int| 0 <= i < name@.len() && crate::text::alphabetic(#[trigger] name@[i]),
{
    let v = chars_of(name);
    let mut i: usize = 0;
    while i < v.len()
        invariant
            v@ == name@,
            i <= v@.len(),
            forall|j: int| 0 <= j < i ==> !crate::text::alphabetic(#[trigger] name@[j]),
        decreases v@.len() - i,
    {
        if crate::text::is_alphabetic(v[i]) {
            assert(crate::text::alphabetic(name@[i as int]));
            return true;
        }
        i += 1;
    }
    false
}

/// Whether `note` is worth offering for deletion, and why — see
/// [`junk_of`]. Deliberately three rules and no more; `scratch` is the one
/// note that is never on the list, whatever it holds.
pub fn junk(note: &Note, body: &str, scratch: &str) -> (r: Option<Junk>)
    ensures
        r == junk_of(note.path@, note.rel@, note.front.title is Some, body@, scratch@),
{
    if same_path_str(note.path.as_str(), scratch) {
        return None;
    }
    if substance_of(body) < MIN_BODY {
        return Some(Junk::Empty);
    }
    let name = stem(note.rel.as_str());
    if is_untitled(name) {
        return Some(Junk::Untitled);
    }
    if note.front.title.is_none() && !has_letter(name) {
        return Some(Junk::Unnamed);
    }
    None
}

// --- rows -------------------------------------------------------------------

/// A colour over a run of a row's characters.
#[derive(Debug)]
pub struct Tint {
    pub range: std::ops::Range<usize>,
    pub color: u8,
}

/// `text` padded with spaces to `width` characters on its right.
pub open spec fn padded(text: Seq<char>, width: nat) -> Seq<char> {
    if text.len() >= width {
        text
    } else {
        text + Seq::new((width - text.len()) as nat, |i: int| ' ')
    }
}

/// `text` padded with spaces to `width` characters on its left.
pub open spec fn padded_left(text: Seq<char>, width: nat) -> Seq<char> {
    if text.len() >= width {
        text
    } else {
        Seq::new((width - text.len()) as nat, |i: int| ' ') + text
    }
}

pub(crate) fn spaces(n: usize) -> (r: String)
    ensures
        r@ == Seq::new(n as nat, |i: int| ' '),
{
    let mut out = String::new();
    let mut i: usize = 0;
    while i < n
        invariant
            i <= n,
            out@ == Seq::new(i as nat, |k: int| ' '),
        decreases n - i,
    {
        push_char(&mut out, ' ');
        i += 1;
        assert(out@ =~= Seq::new(i as nat, |k: int| ' '));
    }
    out
}

/// Append `text` and pad it out to `width` characters.
pub(crate) fn push_column(row: &mut String, text: &str, width: usize)
    ensures
        final(row)@ == old(row)@ + padded(text@, width as nat),
{
    row.append(text);
    let n = text.unicode_len();
    if n < width {
        let pad = spaces(width - n);
        row.append(pad.as_str());
    }
}

/// Append `text` padded to `width` characters on its left.
fn push_right(row: &mut String, text: &str, width: usize)
    ensures
        final(row)@ == old(row)@ + padded_left(text@, width as nat),
{
    let n = text.unicode_len();
    if n < width {
        let pad = spaces(width - n);
        row.append(pad.as_str());
    }
    row.append(text);
}

/// The width of every column a note listing shares, measured over the whole
/// list so the columns line up. Counted in characters, not bytes.
#[derive(Debug, Clone, Copy, PartialEq, Eq, Structural)]
pub struct Widths {
    pub title: usize,
    pub group: usize,
    pub tags: usize,
    pub path: usize,
    /// The vault-relative path, which the cleanup list shows.
    pub rel: usize,
    /// The widest rendered [`size`], so the sizes right-align.
    pub size: usize,
}

impl Default for Widths {
    fn default() -> (r: Self)
        ensures
            r.title == 0 && r.group == 0 && r.tags == 0 && r.path == 0 && r.rel == 0 && r.size == 0,
    {
        Widths { title: 0, group: 0, tags: 0, path: 0, rel: 0, size: 0 }
    }
}

/// What a note calls itself: its `title`, else its filename's stem.
pub open spec fn title_of(n: Note) -> Seq<char> {
    match n.front.title {
        Some(t) => t@,
        None => stem_of(n.rel@),
    }
}

/// The group column of a note whose directory carries `label`.
pub open spec fn group_of(n: Note, label: Option<&str>) -> Seq<char> {
    match label {
        Some(l) => l@,
        None => n.dir@,
    }
}

/// The widest of `s`, 0 for none.
pub open spec fn widest_len(s: Seq<Seq<char>>) -> nat
    decreases s.len(),
{
    if s.len() == 0 {
        0
    } else {
        let rest = widest_len(s.drop_last());
        if s.last().len() > rest {
            s.last().len()
        } else {
            rest
        }
    }
}

fn widen(w: usize, text: &str) -> (r: usize)
    ensures
        r == (if text@.len() > w { text@.len() } else { w as nat }),
{
    let n = text.unicode_len();
    if n > w {
        n
    } else {
        w
    }
}

impl Widths {
    /// The widths a listing of `notes` shares, each note's directory carrying
    /// the label at the same place in `labels`. Counted in characters, so a
    /// name with an accent in it does not shift the column.
    pub fn of(notes: &[Note], labels: &[Option<&str>], home: &str) -> (r: Widths)
        requires
            labels@.len() == notes@.len(),
        ensures
            r.title == widest_len(notes@.map_values(|n: Note| title_of(n))),
            r.group == widest_len(Seq::new(notes@.len(), |i: int| group_of(notes@[i], labels@[i]))),
            r.tags == widest_len(notes@.map_values(|n: Note| tag_column_of(n.front.tags@.map_values(|t: String| t@)))),
            r.path == widest_len(notes@.map_values(|n: Note| displayed(n.path@, home@, false))),
            r.rel == widest_len(notes@.map_values(|n: Note| n.rel@)),
            r.size == 0,
    {
        let ghost ts = notes@.map_values(|n: Note| title_of(n));
        let ghost gs = Seq::new(notes@.len(), |i: int| group_of(notes@[i], labels@[i]));
        let ghost tg = notes@.map_values(|n: Note| tag_column_of(n.front.tags@.map_values(|t: String| t@)));
        let ghost ps = notes@.map_values(|n: Note| displayed(n.path@, home@, false));
        let ghost rs = notes@.map_values(|n: Note| n.rel@);
        let mut w = Widths::default();
        let mut i: usize = 0;
        while i < notes.len()
            invariant
                labels@.len() == notes@.len(),
                i <= notes@.len(),
                ts == notes@.map_values(|n: Note| title_of(n)),
                gs == Seq::new(notes@.len(), |i: int| group_of(notes@[i], labels@[i])),
                tg == notes@.map_values(|n: Note| tag_column_of(n.front.tags@.map_values(|t: String| t@))),
                ps == notes@.map_values(|n: Note| displayed(n.path@, home@, false)),
                rs == notes@.map_values(|n: Note| n.rel@),
                w.title == widest_len(ts.take(i as int)),
                w.group == widest_len(gs.take(i as int)),
                w.tags == widest_len(tg.take(i as int)),
                w.path == widest_len(ps.take(i as int)),
                w.rel == widest_len(rs.take(i as int)),
                w.size == 0,
            decreases notes@.len() - i,
        {
            let n = &notes[i];
            assert(ts.take(i + 1).drop_last() =~= ts.take(i as int));
            assert(gs.take(i + 1).drop_last() =~= gs.take(i as int));
            assert(tg.take(i + 1).drop_last() =~= tg.take(i as int));
            assert(ps.take(i + 1).drop_last() =~= ps.take(i as int));
            assert(rs.take(i + 1).drop_last() =~= rs.take(i as int));
            let title = widen(w.title, n.title());
            let group = widen(w.group, n.group(labels[i]));
            let tags = n.tag_column();
            let tags_w = widen(w.tags, tags.as_str());
            let shown = n.shown(home);
            let path_w = widen(w.path, shown.as_str());
            let rel_w = widen(w.rel, n.rel.as_str());
            w = Widths { title, group, tags: tags_w, path: path_w, rel: rel_w, size: 0 };
            i += 1;
        }
        assert(ts.take(ts.len() as int) =~= ts);
        assert(gs.take(gs.len() as int) =~= gs);
        assert(tg.take(tg.len() as int) =~= tg);
        assert(ps.take(ps.len() as int) =~= ps);
        assert(rs.take(rs.len() as int) =~= rs);
        w
    }
}

/// The widest of `sizes` once drawn, 0 for none.
pub open spec fn widest_size(sizes: Seq<u64>) -> nat
    decreases sizes.len(),
{
    if sizes.len() == 0 {
        0
    } else {
        let rest = widest_size(sizes.drop_last());
        let w = size_of(sizes.last()).len();
        if w > rest {
            w
        } else {
            rest
        }
    }
}

pub open spec fn pow10(k: nat) -> nat
    decreases k,
{
    if k == 0 {
        1
    } else {
        10 * pow10((k - 1) as nat)
    }
}

proof fn lemma_decimal_len(n: nat, k: nat)
    requires
        k >= 1,
        n < pow10(k),
    ensures
        decimal(n).len() <= k,
    decreases k,
{
    if n >= 10 {
        assert(k >= 2) by {
            if k == 1 {
                assert(pow10(1) == 10 * pow10(0));
            }
        }
        assert(pow10(k) == 10 * pow10((k - 1) as nat));
        assert(n / 10 < pow10((k - 1) as nat));
        lemma_decimal_len(n / 10, (k - 1) as nat);
    }
}

proof fn lemma_decimal_short(n: nat)
    requires
        n <= u64::MAX,
    ensures
        decimal(n).len() <= 20,
{
    assert(pow10(20) == 100000000000000000000nat) by {
        reveal_with_fuel(pow10, 21);
    }
    lemma_decimal_len(n, 20);
}

proof fn lemma_size_short(b: u64)
    ensures
        size_of(b).len() <= 21,
{
    reveal_strlit("b");
    reveal_strlit("k");
    reveal_strlit("M");
    if b < 1024 {
        lemma_decimal_short(b as nat);
    } else if b < 1048576 {
        lemma_decimal_short((b / 1024) as nat);
    } else {
        lemma_decimal_short((b / 1048576) as nat);
    }
}

proof fn lemma_widest_size_short(sizes: Seq<u64>)
    ensures
        widest_size(sizes) <= 21,
    decreases sizes.len(),
{
    if sizes.len() > 0 {
        lemma_widest_size_short(sizes.drop_last());
        lemma_size_short(sizes.last());
    }
}

impl Widths {
    /// The widths a cleanup list needs on top: the sizes it is going to draw.
    pub fn with_sizes(self, sizes: &[u64]) -> (r: Widths)
        ensures
            r == (Widths { size: widest_size(sizes@) as usize, ..self }),
    {
        let mut w: usize = 0;
        let mut i: usize = 0;
        while i < sizes.len()
            invariant
                i <= sizes@.len(),
                w == widest_size(sizes@.take(i as int)),
            decreases sizes@.len() - i,
        {
            assert(sizes@.take(i + 1).drop_last() =~= sizes@.take(i as int));
            proof {
                lemma_widest_size_short(sizes@.take(i as int));
            }
            let s = size(sizes[i]);
            let n = s.unicode_len();
            if n > w {
                w = n;
            }
            i += 1;
        }
        assert(sizes@.take(sizes@.len() as int) =~= sizes@);
        Widths { size: w, ..self }
    }
}

/// One selector row: what the note calls itself, and nothing else.
pub fn row(note: &Note) -> (r: String)
    ensures
        r@ == (match note.front.title {
            Some(t) => t@,
            None => stem_of(note.rel@),
        }),
{
    String::from_str(note.title())
}

/// The colour a note's row is drawn in: its label's, where its directory
/// carries one, else the terminal's own foreground. `label` is the label the
/// directory carries and `label_color` the colour the configuration gives it.
pub fn row_color(note: &Note, label: Option<&str>, label_color: Option<u8>) -> (r: Option<u8>)
    ensures
        r == (if label is Some {
            label_color
        } else {
            None
        }),
{
    if note.labelled(label) {
        label_color
    } else {
        None
    }
}

/// One row of the cleanup selector: why the note is here, where it is, and
/// how much of it there is, right-aligned.
pub open spec fn junk_row_of(reason: Seq<char>, rel: Seq<char>, bytes: u64, widths: Widths) -> Seq<
    char,
> {
    padded(reason, JUNK_REASON_WIDTH as nat) + COLUMN_GAP@ + padded(rel, widths.rel as nat)
        + COLUMN_GAP@ + padded_left(size_of(bytes), widths.size as nat)
}

/// One row of the cleanup selector — see [`junk_row_of`] — and the tint that
/// colours its reason.
pub fn junk_row(note: &Note, reason: Junk, bytes: u64, widths: &Widths) -> (r: (String, Vec<Tint>))
    ensures
        r.0@ == junk_row_of(junk_label(reason), note.rel@, bytes, *widths),
        r.1@.len() == 1,
        r.1@[0].range.start == 0,
        r.1@[0].range.end == junk_label(reason).len(),
        r.1@[0].color == junk_color(reason),
{
    let label = reason.label();
    let mut row = String::new();
    push_column(&mut row, label, JUNK_REASON_WIDTH);
    row.append(COLUMN_GAP);
    push_column(&mut row, note.rel.as_str(), widths.rel);
    row.append(COLUMN_GAP);
    let sz = size(bytes);
    push_right(&mut row, sz.as_str(), widths.size);
    let mut tints: Vec<Tint> = Vec::new();
    tints.push(Tint { range: 0..label.unicode_len(), color: reason.color() });
    (row, tints)
}

// --- search matches ---------------------------------------------------------

/// The field separator inside a search row's value: a control character,
/// since the value carries a path, which may hold a colon or a tab.
pub const FIELD: char = '\u{1}';

/// One line of a note that a search matched.
#[derive(Debug, Clone, PartialEq, Eq)]
pub struct Match {
    /// Absolute path, which is what an editor and a quickfix entry both want.
    pub path: String,
    /// Path below the vault root, which is what a row shows.
    pub rel: String,
    pub line: u32,
    pub column: u32,
    /// The matched line, as ripgrep printed it.
    pub text: String,
}

/// A run of digits followed by a colon: the number, and what follows the
/// colon.
pub open spec fn take_number_of(t: Seq<char>) -> Option<(u32, Seq<char>)> {
    let d = crate::gh::digit_run(t);
    if d == 0 || d >= t.len() || t[d as int] != ':' {
        None
    } else {
        match parse_nat(t.take(d as int)) {
            Some(n) => if n <= u32::MAX {
                Some((n as u32, t.skip(d as int + 1)))
            } else {
                None
            },
            None => None,
        }
    }
}

/// Two numbers, each followed by a colon, and the text after them.
pub open spec fn numbers_after(t: Seq<char>) -> Option<(u32, u32, Seq<char>)> {
    match take_number_of(t) {
        Some((l, rest)) => match take_number_of(rest) {
            Some((c, text)) => Some((l, c, text)),
            None => None,
        },
        None => None,
    }
}

/// The first colon at or after `at` whose next two fields are numbers ends the
/// path: the path, the two numbers, and the text after them.
pub open spec fn split_three_from(line: Seq<char>, at: int) -> Option<(Seq<char>, u32, u32, Seq<char>)>
    decreases line.len() - at,
{
    if at < 0 || at >= line.len() {
        None
    } else if line[at] == ':' && numbers_after(line.skip(at + 1)) is Some {
        let (l, c, text) = numbers_after(line.skip(at + 1)).unwrap();
        Some((line.take(at), l, c, text))
    } else {
        split_three_from(line, at + 1)
    }
}

fn take_number(v: &Vec<char>, lo: usize) -> (r: Option<(u32, usize)>)
    requires
        lo <= v@.len(),
    ensures
        match r {
            Some((n, k)) => lo < k <= v@.len() && take_number_of(v@.skip(lo as int)) == Some(
                (n, v@.skip(k as int)),
            ),
            None => take_number_of(v@.skip(lo as int)) is None,
        },
{
    let n = v.len();
    let ghost t = v@.skip(lo as int);
    let mut j = lo;
    while j < n && digit(v[j])
        invariant
            lo <= j <= n == v@.len(),
            t == v@.skip(lo as int),
            crate::gh::digit_run(t) == (j - lo) + crate::gh::digit_run(v@.skip(j as int)),
        decreases n - j,
    {
        assert(v@.skip(j as int).drop_first() =~= v@.skip(j + 1));
        j += 1;
    }
    assert(crate::gh::digit_run(v@.skip(j as int)) == 0);
    if j == lo || j >= n || v[j] != ':' {
        assert(j < n ==> t[j - lo] == v@[j as int]);
        return None;
    }
    assert(t[j - lo] == v@[j as int]);
    assert(t.take(j - lo) =~= v@.subrange(lo as int, j as int));
    assert(t.skip(j - lo + 1) =~= v@.skip(j + 1));
    match parse_unsigned(v, lo, j, 4294967295u64) {
        Some(m) => Some((m as u32, j + 1)),
        None => None,
    }
}

fn split_three(v: &Vec<char>) -> (r: Option<(usize, u32, u32, usize)>)
    ensures
        match r {
            Some((end, l, c, k)) => end < k <= v@.len() && split_three_from(v@, 0) == Some(
                (v@.take(end as int), l, c, v@.skip(k as int)),
            ),
            None => split_three_from(v@, 0) is None,
        },
{
    let n = v.len();
    let mut at: usize = 0;
    while at < n
        invariant
            at <= n == v@.len(),
            split_three_from(v@, 0) == split_three_from(v@, at as int),
        decreases n - at,
    {
        if v[at] == ':' {
            match take_number(v, at + 1) {
                Some((l, k1)) => {
                    match take_number(v, k1) {
                        Some((c, k2)) => {
                            return Some((at, l, c, k2));
                        },
                        None => {},
                    }
                },
                None => {},
            }
        }
        at += 1;
    }
    None
}

/// What is left of `path` below `root`, as `Path::strip_prefix` leaves it, or
/// `path` itself when it is not below it.
pub open spec fn rel_of(path: Seq<char>, root: Seq<char>) -> Seq<char> {
    match path_stripped(path, root) {
        Some(rest) => rest,
        None => path,
    }
}

fn rel_below(path: &str, root: &str) -> (r: String)
    ensures
        r@ == rel_of(path@, root@),
{
    match strip_root(path, root) {
        Some(rest) => rest,
        None => String::from_str(path),
    }
}

/// One `--vimgrep` line read: `path:line:column:text`, the path ending at the
/// first colon followed by two numbers, since a path may hold colons and the
/// matched text very often does.
pub open spec fn match_of(line: Seq<char>, root: Seq<char>) -> Option<(Seq<char>, Seq<char>, u32, u32, Seq<char>)> {
    match split_three_from(line, 0) {
        Some((path, l, c, text)) => Some((path, rel_of(path, root), l, c, text)),
        None => None,
    }
}

pub open spec fn match_view(m: Match) -> (Seq<char>, Seq<char>, u32, u32, Seq<char>) {
    (m.path@, m.rel@, m.line, m.column, m.text@)
}

/// Read one `--vimgrep` line — see [`match_of`].
pub fn parse_match(line: &str, root: &str) -> (r: Option<Match>)
    ensures
        match r {
            Some(m) => match_of(line@, root@) == Some(match_view(m)),
            None => match_of(line@, root@) is None,
        },
{
    let v = chars_of(line);
    match split_three(&v) {
        Some((end, l, c, k)) => {
            assert(v@.take(end as int) =~= v@.subrange(0, end as int));
            assert(v@.skip(k as int) =~= v@.subrange(k as int, v@.len() as int));
            let path = string_of(&v, 0, end);
            let rel = rel_below(path.as_str(), root);
            Some(Match { path, rel, line: l, column: c, text: string_of(&v, k, v.len()) })
        },
        None => None,
    }
}

/// The value a selector row carries for a match: its path, line, column and
/// text made safe as a row, joined by [`FIELD`].
pub open spec fn encoded(path: Seq<char>, line: u32, column: u32, text: Seq<char>) -> Seq<char> {
    path + seq![FIELD] + decimal(line as nat) + seq![FIELD] + decimal(column as nat) + seq![FIELD]
        + crate::history::row_text(text)
}

/// Pack a match into the string a selector row returns.
pub fn encode_match(found: &Match) -> (r: String)
    ensures
        r@ == encoded(found.path@, found.line, found.column, found.text@),
{
    let mut out = found.path.clone();
    push_char(&mut out, FIELD);
    push_decimal(&mut out, found.line as u64);
    push_char(&mut out, FIELD);
    push_decimal(&mut out, found.column as u64);
    push_char(&mut out, FIELD);
    out.append(crate::term::one_row(found.text.as_str()).as_str());
    out
}

/// `str::parse::<u32>`.
pub open spec fn parse_u32(s: Seq<char>) -> Option<u32> {
    match parse_nat(s) {
        Some(n) => if n <= u32::MAX {
            Some(n as u32)
        } else {
            None
        },
        None => None,
    }
}

/// What a selector row's value reads back as: at most four fields; the path,
/// then two numbers, then the text, which may be missing.
pub open spec fn decoded(value: Seq<char>, root: Seq<char>) -> Option<(Seq<char>, Seq<char>, u32, u32, Seq<char>)> {
    let f = splitn(value, 4, FIELD);
    if f.len() < 3 {
        None
    } else {
        match (parse_u32(f[1]), parse_u32(f[2])) {
            (Some(l), Some(c)) => Some(
                (
                    f[0],
                    rel_of(f[0], root),
                    l,
                    c,
                    if f.len() > 3 {
                        f[3]
                    } else {
                        Seq::empty()
                    },
                ),
            ),
            _ => None,
        }
    }
}

/// Read back what [`encode_match`] wrote.
pub fn decode_match(value: &str, root: &str) -> (r: Option<Match>)
    ensures
        match r {
            Some(m) => decoded(value@, root@) == Some(match_view(m)),
            None => decoded(value@, root@) is None,
        },
{
    let v = chars_of(value);
    assert(v@.subrange(0, v@.len() as int) =~= v@);
    let f = splitn_range(&v, 0, v.len(), 4, FIELD);
    let ghost fv = f@.map_values(|p: Vec<char>| p@);
    if f.len() < 3 {
        return None;
    }
    assert(fv[1] == f@[1]@ && fv[2] == f@[2]@ && fv[0] == f@[0]@);
    let l = match parse_unsigned(&f[1], 0, f[1].len(), 4294967295u64) {
        Some(l) => l as u32,
        None => {
            assert(f@[1]@.subrange(0, f@[1]@.len() as int) =~= f@[1]@);
            return None;
        },
    };
    assert(f@[1]@.subrange(0, f@[1]@.len() as int) =~= f@[1]@);
    let c = match parse_unsigned(&f[2], 0, f[2].len(), 4294967295u64) {
        Some(c) => c as u32,
        None => {
            assert(f@[2]@.subrange(0, f@[2]@.len() as int) =~= f@[2]@);
            return None;
        },
    };
    assert(f@[2]@.subrange(0, f@[2]@.len() as int) =~= f@[2]@);
    let path = string_from(&f[0]);
    let rel = rel_below(path.as_str(), root);
    let text = if f.len() > 3 {
        assert(fv[3] == f@[3]@);
        string_from(&f[3])
    } else {
        String::new()
    };
    Some(Match { path, rel, line: l, column: c, text })
}

/// One entry of a quickfix list, in the `file:line:column:text` shape vim's
/// `errorformat` is told to expect.
pub fn quickfix_line(found: &Match) -> (r: String)
    ensures
        r@ == found.path@ + seq![':'] + decimal(found.line as nat) + seq![':'] + decimal(
            found.column as nat,
        ) + seq![':'] + crate::history::row_text(found.text@),
{
    let mut out = found.path.clone();
    push_char(&mut out, ':');
    push_decimal(&mut out, found.line as u64);
    push_char(&mut out, ':');
    push_decimal(&mut out, found.column as u64);
    push_char(&mut out, ':');
    out.append(crate::term::one_row(found.text.as_str()).as_str());
    out
}

/// The width of a match's `rel:line`.
pub open spec fn location_width(m: Match) -> nat {
    m.rel@.len() + 1 + decimal(m.line as nat).len()
}

/// The widest `rel:line` in a batch of matches, 0 for none.
pub open spec fn widest_location(ms: Seq<Match>) -> nat
    decreases ms.len(),
{
    if ms.len() == 0 {
        0
    } else {
        let rest = widest_location(ms.drop_last());
        let w = location_width(ms.last());
        if w > rest {
            w
        } else {
            rest
        }
    }
}

proof fn lemma_widest_location_bound(ms: Seq<Match>, bound: nat)
    requires
        forall|i: int| 0 <= i < ms.len() ==> location_width(#[trigger] ms[i]) <= bound,
    ensures
        widest_location(ms) <= bound,
    decreases ms.len(),
{
    if ms.len() > 0 {
        assert forall|i: int| 0 <= i < ms.len() - 1 implies location_width(
            #[trigger] ms.drop_last()[i],
        ) <= bound by {
            assert(ms.drop_last()[i] == ms[i]);
        }
        lemma_widest_location_bound(ms.drop_last(), bound);
        assert(location_width(ms[ms.len() - 1]) <= bound);
    }
}

/// The widest `rel:line` in a batch of matches, so their text columns line up.
pub fn match_width(matches: &[Match]) -> (r: usize)
    requires
        forall|i: int|
            0 <= i < matches@.len() ==> location_width(#[trigger] matches@[i]) <= usize::MAX,
    ensures
        r == widest_location(matches@),
{
    let mut w: usize = 0;
    let mut i: usize = 0;
    while i < matches.len()
        invariant
            i <= matches@.len(),
            w == widest_location(matches@.take(i as int)),
            forall|k: int|
                0 <= k < matches@.len() ==> location_width(#[trigger] matches@[k]) <= usize::MAX,
        decreases matches@.len() - i,
    {
        assert(matches@.take(i + 1).drop_last() =~= matches@.take(i as int));
        let m = &matches[i];
        assert(location_width(matches@[i as int]) <= usize::MAX);
        let d = decimal_string(m.line as u64);
        let x = m.rel.unicode_len() + 1 + d.unicode_len();
        if x > w {
            w = x;
        }
        i += 1;
    }
    assert(matches@.take(matches@.len() as int) =~= matches@);
    w
}

/// One search row: where the match is, padded to `width`, then the line that
/// matched, made safe as a row and trimmed of its indentation and its
/// trailing whitespace.
pub open spec fn match_row_of(m: Match, width: usize) -> Seq<char> {
    padded(m.rel@ + seq![':'] + decimal(m.line as nat), width as nat) + COLUMN_GAP@
        + crate::text::trim_end(crate::history::row_text(crate::text::trim_start(m.text@)))
}

/// One search row — see [`match_row_of`] — with its location coloured: the
/// path blue, the `:line` yellow, and the matched text, the note's own words,
/// left alone.
pub fn match_row(found: &Match, width: usize) -> (r: (String, Vec<Tint>))
    ensures
        r.0@ == match_row_of(*found, width),
        r.1@.len() == 2,
        r.1@[0].range.start == 0,
        r.1@[0].range.end == found.rel@.len(),
        r.1@[0].color == FOLDER_COLOR,
        r.1@[1].range.start == found.rel@.len(),
        r.1@[1].range.end == found.rel@.len() + 1 + decimal(found.line as nat).len(),
        r.1@[1].color == LINE_COLOR,
{
    let mut location = found.rel.clone();
    push_char(&mut location, ':');
    push_decimal(&mut location, found.line as u64);
    let mut row = String::new();
    push_column(&mut row, location.as_str(), width);
    row.append(COLUMN_GAP);
    let v = chars_of(found.text.as_str());
    assert(v@.subrange(0, v@.len() as int) =~= v@);
    let a = crate::text::skip_ws(&v, 0, v.len());
    let lead = string_of(&v, a, v.len());
    let safe = crate::term::one_row(lead.as_str());
    let w = chars_of(safe.as_str());
    assert(w@.subrange(0, w@.len() as int) =~= w@);
    let b = crate::text::skip_ws_back(&w, 0, w.len());
    let tail = string_of(&w, 0, b);
    row.append(tail.as_str());
    let at = found.rel.unicode_len();
    let mut tints: Vec<Tint> = Vec::new();
    tints.push(Tint { range: 0..at, color: FOLDER_COLOR });
    tints.push(Tint { range: at..location.unicode_len(), color: LINE_COLOR });
    (row, tints)
}

// --- new notes --------------------------------------------------------------

/// A name split for numbering: the part before its extension, and the
/// extension with its dot — none when the name has no extension, or only a
/// leading dot.
pub open spec fn name_parts(name: Seq<char>) -> (Seq<char>, Seq<char>) {
    match crate::text::rsplit_once(name, '.') {
        Some((stem, ext)) => if stem.len() > 0 {
            (stem, seq!['.'] + ext)
        } else {
            (name, Seq::empty())
        },
        None => (name, Seq::empty()),
    }
}

/// The `n`th name tried after `name` itself: `stem-n.ext`.
pub open spec fn numbered(name: Seq<char>, n: nat) -> Seq<char> {
    name_parts(name).0 + seq!['-'] + decimal(n) + name_parts(name).1
}

/// Whether `taken` said `yes` of a name with this text.
pub open spec fn said<F: Fn(&str) -> bool>(taken: F, name: Seq<char>, yes: bool) -> bool {
    exists|t: &str| t@ == name && #[trigger] taken.ensures((t,), yes)
}

/// Whether `taken` answers no for every name with this text.
pub open spec fn never_taken<F: Fn(&str) -> bool>(taken: F, name: Seq<char>) -> bool {
    forall|t: &str, b: bool| t@ == name && #[trigger] taken.ensures((t,), b) ==> !b
}

fn split_name(name: &str) -> (r: (String, String))
    ensures
        (r.0@, r.1@) == name_parts(name@),
{
    let v = chars_of(name);
    let n = v.len();
    assert(v@.subrange(0, n as int) =~= v@);
    proof {
        name@.index_of_last_ensures('.');
    }
    match rfind_in(&v, 0, n, '.') {
        Some(i) => {
            if i > 0 {
                let mut ext = String::new();
                push_char(&mut ext, '.');
                crate::text::push_range(&mut ext, &v, i + 1, n);
                assert(ext@ =~= seq!['.'] + v@.subrange(i + 1, n as int));
                (string_of(&v, 0, i), ext)
            } else {
                (String::from_str(name), String::new())
            }
        },
        None => (String::from_str(name), String::new()),
    }
}

/// A name nothing is using yet: `name`, else `name-2`, `name-3` and so on,
/// each asked of `taken` in turn until one is free.
///
/// Two notes started in the same minute is not an error, and neither is one
/// name typed twice — the second is a second note. Only a taken `name` sends
/// the search past it, and the numbers it counts with are `i32`s: a free
/// numbered name within them is asked for then and only then.
pub fn free_name<F: Fn(&str) -> bool>(name: &str, taken: F) -> (r: String)
    requires
        forall|t: &str| #[trigger] taken.requires((t,)),
        never_taken(taken, name@) || exists|n: nat| 2 <= n <= i32::MAX && never_taken(
            taken,
            #[trigger] numbered(name@, n),
        ),
    ensures
        (said(taken, name@, false) && r@ == name@) || (said(taken, name@, true) && exists|n: nat|
            2 <= n && r@ == numbered(name@, n) && said(taken, r@, false) && forall|k: nat|
                2 <= k < n ==> said(taken, #[trigger] numbered(name@, k), true)),
{
    if !taken(name) {
        return String::from_str(name);
    }
    assert(said(taken, name@, true));
    assert(!never_taken(taken, name@));
    let (stem, ext) = split_name(name);
    let mut n: u64 = 2;
    while n <= 2147483647
        invariant
            2 <= n <= 2147483648,
            (stem@, ext@) == name_parts(name@),
            forall|t: &str| #[trigger] taken.requires((t,)),
            forall|k: nat| 2 <= k < n ==> said(taken, #[trigger] numbered(name@, k), true),
            said(taken, name@, true),
        decreases 2147483648 - n,
    {
        let mut candidate = stem.clone();
        push_char(&mut candidate, '-');
        push_decimal(&mut candidate, n);
        candidate.append(ext.as_str());
        assert(candidate@ =~= numbered(name@, n as nat));
        let c = candidate.as_str();
        if !taken(c) {
            assert(said(taken, candidate@, false));
            return candidate;
        }
        assert(said(taken, numbered(name@, n as nat), true));
        n += 1;
    }
    proof {
        let n0 = choose|n: nat| 2 <= n <= i32::MAX && never_taken(taken, #[trigger] numbered(name@, n));
        assert(said(taken, numbered(name@, n0), true));
    }
    String::new()
}

// --- ordering ---------------------------------------------------------------

/// Whether `a` sorts no later than `b`, character by character, as `str`'s
/// ordering compares them.
pub open spec fn lex_le(a: Seq<char>, b: Seq<char>) -> bool
    decreases a.len(),
{
    if a.len() == 0 {
        true
    } else if b.len() == 0 {
        false
    } else if a[0] != b[0] {
        a[0] < b[0]
    } else {
        lex_le(a.drop_first(), b.drop_first())
    }
}

pub proof fn lemma_lex_total(a: Seq<char>, b: Seq<char>)
    ensures
        lex_le(a, b) || lex_le(b, a),
    decreases a.len(),
{
    if a.len() > 0 && b.len() > 0 && a[0] == b[0] {
        lemma_lex_total(a.drop_first(), b.drop_first());
    }
}

pub proof fn lemma_lex_trans(a: Seq<char>, b: Seq<char>, c: Seq<char>)
    requires
        lex_le(a, b),
        lex_le(b, c),
    ensures
        lex_le(a, c),
    decreases a.len(),
{
    if a.len() > 0 && b.len() > 0 && c.len() > 0 && a[0] == b[0] && b[0] == c[0] {
        lemma_lex_trans(a.drop_first(), b.drop_first(), c.drop_first());
    }
}

fn lex_le_str(a: &str, b: &str) -> (r: bool)
    ensures
        r == lex_le(a@, b@),
{
    let x = chars_of(a);
    let y = chars_of(b);
    let mut i: usize = 0;
    assert(a@.skip(0) =~= a@);
    assert(b@.skip(0) =~= b@);
    while i < x.len() && i < y.len() && x[i] == y[i]
        invariant
            x@ == a@,
            y@ == b@,
            i <= x@.len(),
            i <= y@.len(),
            lex_le(a@, b@) == lex_le(a@.skip(i as int), b@.skip(i as int)),
        decreases x@.len() - i,
    {
        assert(a@.skip(i as int).drop_first() =~= a@.skip(i + 1));
        assert(b@.skip(i as int).drop_first() =~= b@.skip(i + 1));
        i += 1;
    }
    if i == x.len() {
        return true;
    }
    if i == y.len() {
        return false;
    }
    assert(a@.skip(i as int)[0] == x@[i as int]);
    assert(b@.skip(i as int)[0] == y@[i as int]);
    x[i] < y[i]
}

/// A listing's order: most recently modified first, then by path so notes
/// written in the same second do not shuffle between runs.
pub open spec fn newer_or_same(a: Note, b: Note) -> bool {
    a.modified > b.modified || (a.modified == b.modified && lex_le(a.rel@, b.rel@))
}

proof fn lemma_newer_total_trans()
    ensures
        forall|a: Note, b: Note| newer_or_same(a, b) || newer_or_same(b, a),
        forall|a: Note, b: Note, c: Note|
            newer_or_same(a, b) && newer_or_same(b, c) ==> newer_or_same(a, c),
{
    assert forall|a: Note, b: Note| newer_or_same(a, b) || newer_or_same(b, a) by {
        lemma_lex_total(a.rel@, b.rel@);
    }
    assert forall|a: Note, b: Note, c: Note|
        newer_or_same(a, b) && newer_or_same(b, c) implies newer_or_same(a, c) by {
        if a.modified == b.modified && b.modified == c.modified {
            lemma_lex_trans(a.rel@, b.rel@, c.rel@);
        }
    }
}

fn newest_index(rest: &Vec<Note>) -> (m: usize)
    requires
        rest@.len() > 0,
    ensures
        m < rest@.len(),
        forall|k: int| 0 <= k < rest@.len() ==> newer_or_same(rest@[m as int], #[trigger] rest@[k]),
{
    proof {
        lemma_newer_total_trans();
    }
    let mut m: usize = 0;
    let mut k: usize = 1;
    while k < rest.len()
        invariant
            m < k <= rest@.len(),
            forall|j: int| 0 <= j < k ==> newer_or_same(rest@[m as int], #[trigger] rest@[j]),
            forall|a: Note, b: Note| newer_or_same(a, b) || newer_or_same(b, a),
            forall|a: Note, b: Note, c: Note|
                newer_or_same(a, b) && newer_or_same(b, c) ==> newer_or_same(a, c),
        decreases rest@.len() - k,
    {
        let a = &rest[m];
        let b = &rest[k];
        let b_first = b.modified > a.modified || (b.modified == a.modified && !lex_le_str(
            a.rel.as_str(),
            b.rel.as_str(),
        ));
        if b_first {
            assert(!newer_or_same(rest@[m as int], rest@[k as int]));
            assert forall|j: int| 0 <= j <= k implies newer_or_same(
                rest@[k as int],
                #[trigger] rest@[j],
            ) by {
                if j < k {
                    assert(newer_or_same(rest@[m as int], rest@[j]));
                }
            }
            m = k;
        }
        k += 1;
    }
    m
}

/// Order a vault: most recently modified first, then by path — see
/// [`newer_or_same`]. The notes are the same ones, in a new order.
pub fn newest_first(notes: &mut Vec<Note>)
    ensures
        final(notes)@.to_multiset() == old(notes)@.to_multiset(),
        forall|i: int, j: int|
            0 <= i < j < final(notes)@.len() ==> newer_or_same(
                #[trigger] final(notes)@[i],
                #[trigger] final(notes)@[j],
            ),
{
    broadcast use vstd::seq_lib::group_to_multiset_ensures;
    broadcast use vstd::multiset::group_multiset_axioms;

    let ghost orig = notes@.to_multiset();
    let mut rest: Vec<Note> = Vec::new();
    std::mem::swap(&mut rest, notes);
    let mut out: Vec<Note> = Vec::new();
    while rest.len() > 0
        invariant
            out@.to_multiset().add(rest@.to_multiset()) == orig,
            forall|i: int, j: int|
                0 <= i < j < out@.len() ==> newer_or_same(#[trigger] out@[i], #[trigger] out@[j]),
            forall|i: int, k: int|
                0 <= i < out@.len() && 0 <= k < rest@.len() ==> newer_or_same(
                    #[trigger] out@[i],
                    #[trigger] rest@[k],
                ),
        decreases rest@.len(),
    {
        let m = newest_index(&rest);
        let ghost before_out = out@;
        let ghost before_rest = rest@;
        let x = rest.remove(m);
        assert(rest@ == before_rest.remove(m as int));
        out.push(x);
        proof {
            before_out.to_multiset_ensures();
            before_rest.to_multiset_ensures();
            assert(out@ == before_out.push(x));
            assert(before_rest[m as int] == x);
            assert(out@.to_multiset() =~= before_out.to_multiset().insert(x));
            assert(rest@.to_multiset() =~= before_rest.to_multiset().remove(x));
            assert(before_rest.to_multiset().count(x) > 0) by {
                assert(before_rest.contains(x)) by {
                    assert(before_rest[m as int] == x);
                }
            }
            assert(out@.to_multiset().add(rest@.to_multiset()) =~= before_out.to_multiset().add(
                before_rest.to_multiset(),
            ));
            assert forall|i: int, j: int| 0 <= i < j < out@.len() implies newer_or_same(
                #[trigger] out@[i],
                #[trigger] out@[j],
            ) by {
                if j == out@.len() - 1 {
                    assert(out@[j] == before_rest[m as int]);
                    assert(newer_or_same(before_out[i], before_rest[m as int]));
                } else {
                    assert(out@[i] == before_out[i] && out@[j] == before_out[j]);
                }
            }
            assert forall|i: int, k: int|
                0 <= i < out@.len() && 0 <= k < rest@.len() implies newer_or_same(
                #[trigger] out@[i],
                #[trigger] rest@[k],
            ) by {
                let k0 = if k < m { k } else { k + 1 };
                assert(rest@[k] == before_rest[k0]);
                if i == out@.len() - 1 {
                    assert(out@[i] == before_rest[m as int]);
                } else {
                    assert(out@[i] == before_out[i]);
                }
            }
        }
    }
    assert(rest@.to_multiset() =~= vstd::multiset::Multiset::<Note>::empty());
    assert(out@.to_multiset().add(vstd::multiset::Multiset::empty()) =~= out@.to_multiset());
    *notes = out;
}

/// A cleanup list's order: by what is wrong with each note, then smallest
/// first, then by path, so a listing does not shuffle between runs.
pub open spec fn cleanup_le(a: (Note, Junk, u64), b: (Note, Junk, u64)) -> bool {
    junk_rank(a.1) < junk_rank(b.1) || (junk_rank(a.1) == junk_rank(b.1) && (a.2 < b.2 || (a.2
        == b.2 && lex_le(a.0.rel@, b.0.rel@))))
}

proof fn lemma_cleanup_total_trans()
    ensures
        forall|a: (Note, Junk, u64), b: (Note, Junk, u64)| cleanup_le(a, b) || cleanup_le(b, a),
        forall|a: (Note, Junk, u64), b: (Note, Junk, u64), c: (Note, Junk, u64)|
            cleanup_le(a, b) && cleanup_le(b, c) ==> cleanup_le(a, c),
{
    assert forall|a: (Note, Junk, u64), b: (Note, Junk, u64)|
        cleanup_le(a, b) || cleanup_le(b, a) by {
        lemma_lex_total(a.0.rel@, b.0.rel@);
    }
    assert forall|a: (Note, Junk, u64), b: (Note, Junk, u64), c: (Note, Junk, u64)|
        cleanup_le(a, b) && cleanup_le(b, c) implies cleanup_le(a, c) by {
        if junk_rank(a.1) == junk_rank(b.1) && junk_rank(b.1) == junk_rank(c.1) && a.2 == b.2
            && b.2 == c.2 {
            lemma_lex_trans(a.0.rel@, b.0.rel@, c.0.rel@);
        }
    }
}

fn first_for_cleanup(rest: &Vec<(Note, Junk, u64)>) -> (m: usize)
    requires
        rest@.len() > 0,
    ensures
        m < rest@.len(),
        forall|k: int| 0 <= k < rest@.len() ==> cleanup_le(rest@[m as int], #[trigger] rest@[k]),
{
    proof {
        lemma_cleanup_total_trans();
    }
    let mut m: usize = 0;
    let mut k: usize = 1;
    while k < rest.len()
        invariant
            m < k <= rest@.len(),
            forall|j: int| 0 <= j < k ==> cleanup_le(rest@[m as int], #[trigger] rest@[j]),
            forall|a: (Note, Junk, u64), b: (Note, Junk, u64)| cleanup_le(a, b) || cleanup_le(b, a),
            forall|a: (Note, Junk, u64), b: (Note, Junk, u64), c: (Note, Junk, u64)|
                cleanup_le(a, b) && cleanup_le(b, c) ==> cleanup_le(a, c),
        decreases rest@.len() - k,
    {
        let a = &rest[m];
        let b = &rest[k];
        let (ra, rb) = (a.1.rank(), b.1.rank());
        let b_first = rb < ra || (rb == ra && (b.2 < a.2 || (b.2 == a.2 && !lex_le_str(
            a.0.rel.as_str(),
            b.0.rel.as_str(),
        ))));
        if b_first {
            assert(!cleanup_le(rest@[m as int], rest@[k as int]));
            assert forall|j: int| 0 <= j <= k implies cleanup_le(
                rest@[k as int],
                #[trigger] rest@[j],
            ) by {
                if j < k {
                    assert(cleanup_le(rest@[m as int], rest@[j]));
                }
            }
            m = k;
        }
        k += 1;
    }
    m
}

/// Order a cleanup list: by what is wrong with each note, then smallest
/// first — see [`cleanup_le`]. Grouping by reason is what makes the list
/// answerable a group at a time.
pub fn cleanup_order(candidates: &mut Vec<(Note, Junk, u64)>)
    ensures
        final(candidates)@.to_multiset() == old(candidates)@.to_multiset(),
        forall|i: int, j: int|
            0 <= i < j < final(candidates)@.len() ==> cleanup_le(
                #[trigger] final(candidates)@[i],
                #[trigger] final(candidates)@[j],
            ),
{
    broadcast use vstd::seq_lib::group_to_multiset_ensures;
    broadcast use vstd::multiset::group_multiset_axioms;

    let ghost orig = candidates@.to_multiset();
    let mut rest: Vec<(Note, Junk, u64)> = Vec::new();
    std::mem::swap(&mut rest, candidates);
    let mut out: Vec<(Note, Junk, u64)> = Vec::new();
    while rest.len() > 0
        invariant
            out@.to_multiset().add(rest@.to_multiset()) == orig,
            forall|i: int, j: int|
                0 <= i < j < out@.len() ==> cleanup_le(#[trigger] out@[i], #[trigger] out@[j]),
            forall|i: int, k: int|
                0 <= i < out@.len() && 0 <= k < rest@.len() ==> cleanup_le(
                    #[trigger] out@[i],
                    #[trigger] rest@[k],
                ),
        decreases rest@.len(),
    {
        let m = first_for_cleanup(&rest);
        let ghost before_out = out@;
        let ghost before_rest = rest@;
        let x = rest.remove(m);
        out.push(x);
        proof {
            before_out.to_multiset_ensures();
            before_rest.to_multiset_ensures();
            assert(out@ == before_out.push(x));
            assert(rest@ == before_rest.remove(m as int));
            assert(before_rest[m as int] == x);
            assert(out@.to_multiset() =~= before_out.to_multiset().insert(x));
            assert(rest@.to_multiset() =~= before_rest.to_multiset().remove(x));
            assert(before_rest.to_multiset().count(x) > 0) by {
                assert(before_rest.contains(x)) by {
                    assert(before_rest[m as int] == x);
                }
            }
            assert(out@.to_multiset().add(rest@.to_multiset()) =~= before_out.to_multiset().add(
                before_rest.to_multiset(),
            ));
            assert forall|i: int, j: int| 0 <= i < j < out@.len() implies cleanup_le(
                #[trigger] out@[i],
                #[trigger] out@[j],
            ) by {
                if j == out@.len() - 1 {
                    assert(out@[j] == before_rest[m as int]);
                    assert(cleanup_le(before_out[i], before_rest[m as int]));
                } else {
                    assert(out@[i] == before_out[i] && out@[j] == before_out[j]);
                }
            }
            assert forall|i: int, k: int|
                0 <= i < out@.len() && 0 <= k < rest@.len() implies cleanup_le(
                #[trigger] out@[i],
                #[trigger] rest@[k],
            ) by {
                let k0 = if k < m { k } else { k + 1 };
                assert(rest@[k] == before_rest[k0]);
                if i == out@.len() - 1 {
                    assert(out@[i] == before_rest[m as int]);
                } else {
                    assert(out@[i] == before_out[i]);
                }
            }
        }
    }
    assert(rest@.to_multiset() =~= vstd::multiset::Multiset::<(Note, Junk, u64)>::empty());
    assert(out@.to_multiset().add(vstd::multiset::Multiset::empty()) =~= out@.to_multiset());
    *candidates = out;
}

// --- what survives the selector ---------------------------------------------

proof fn lemma_splitn_head(a: Seq<char>, rest: Seq<char>, n: nat, c: char)
    requires
        n >= 2,
        !a.contains(c),
    ensures
        splitn(a + seq![c] + rest, n, c) == seq![a] + splitn(rest, (n - 1) as nat, c),
{
    let s = a + seq![c] + rest;
    s.index_of_first_ensures(c);
    assert(s[a.len() as int] == c);
    match s.index_of_first(c) {
        Some(i) => {
            if i < a.len() {
                assert(s[i] == a[i]);
                assert(a.contains(c));
            }
            if i > a.len() {
                assert(s[a.len() as int] != c);
            }
            assert(i == a.len());
            assert(s.subrange(0, i) =~= a);
            assert(s.subrange(i + 1, s.len() as int) =~= rest);
        },
        None => {
            assert(s.contains(c));
        },
    }
}

proof fn lemma_decimal_reads_back(n: nat)
    ensures
        decimal(n).len() > 0,
        all_digits(decimal(n)),
        crate::text::value(decimal(n)) == n,
    decreases n,
{
    let d = (n % 10) as nat;
    assert(crate::text::digit_value(crate::text::digit_char(d)) == d) by {
        assert(d < 10);
        assert(((d + 48) as u8) as char as u32 == d + 48);
    }
    if n >= 10 {
        lemma_decimal_reads_back(n / 10);
        let s = decimal(n);
        assert(s.drop_last() =~= decimal(n / 10));
        assert(s.last() == crate::text::digit_char(d));
        assert(crate::text::value(s) == crate::text::value(decimal(n / 10)) * 10 + d);
        assert((n / 10) * 10 + n % 10 == n) by (nonlinear_arith);
        assert forall|i: int| 0 <= i < s.len() implies is_digit(#[trigger] s[i]) by {
            if i < s.len() - 1 {
                assert(s[i] == decimal(n / 10)[i]);
            }
        }
    } else {
        let s = decimal(n);
        assert(s == seq![crate::text::digit_char(n)]);
        assert(s.drop_last() =~= Seq::<char>::empty());
        assert(crate::text::value(Seq::<char>::empty()) == 0);
        assert(s.last() == crate::text::digit_char(d));
        assert(crate::text::value(s) == crate::text::value(s.drop_last()) * 10
            + crate::text::digit_value(s.last()));
    }
}

proof fn lemma_parse_u32_decimal(n: u32)
    ensures
        parse_u32(decimal(n as nat)) == Some(n),
        !decimal(n as nat).contains(FIELD),
{
    lemma_decimal_reads_back(n as nat);
    let s = decimal(n as nat);
    assert(is_digit(s[0]));
    assert(s[0] != '+');
    if s.contains(FIELD) {
        let i = choose|i: int| 0 <= i < s.len() && s[i] == FIELD;
        assert(is_digit(s[i]));
    }
}

/// A match survives the trip through the selector: what [`decode_match`]
/// reads back from what [`encode_match`] wrote is the same path, line and
/// column, the text as the row drew it, and the path below `root` — for any
/// path that does not itself hold the [`FIELD`] separator.
pub proof fn lemma_match_round_trip(
    path: Seq<char>,
    line: u32,
    column: u32,
    text: Seq<char>,
    root: Seq<char>,
)
    requires
        !path.contains(FIELD),
    ensures
        decoded(encoded(path, line, column, text), root) == Some(
            (path, rel_of(path, root), line, column, crate::history::row_text(text)),
        ),
{
    let d1 = decimal(line as nat);
    let d2 = decimal(column as nat);
    let t = crate::history::row_text(text);
    lemma_parse_u32_decimal(line);
    lemma_parse_u32_decimal(column);
    let e = encoded(path, line, column, text);
    let r1 = d1 + seq![FIELD] + d2 + seq![FIELD] + t;
    let r2 = d2 + seq![FIELD] + t;
    assert(e =~= path + seq![FIELD] + r1);
    assert(r1 =~= d1 + seq![FIELD] + r2);
    lemma_splitn_head(path, r1, 4, FIELD);
    lemma_splitn_head(d1, r2, 3, FIELD);
    lemma_splitn_head(d2, t, 2, FIELD);
    assert(splitn(t, 1, FIELD) == seq![t]);
    let f = splitn(e, 4, FIELD);
    assert(f =~= seq![path, d1, d2, t]);
}

// --- dated rows ---------------------------------------------------------------

/// The dim column ahead of a selector row: the day the note was created, and
/// the gap after it. Drawn apart from the row, so a year typed into the search
/// box does not match a year's worth of notes.
pub fn prefix(note: &Note, offset: i32) -> (r: String)
    ensures
        r@ == crate::clock::date_at_offset(note.created, offset) + COLUMN_GAP@,
{
    let mut out = date(note.created, offset);
    out.append(COLUMN_GAP);
    out
}

/// One `note ls --status` row: the note's path with the home directory
/// collapsed, its group and its tags where those columns have any width, when
/// it was modified and the day it was created — trimmed at the end.
pub open spec fn status_row_of(
    note: Note,
    group: Seq<char>,
    widths: Widths,
    offset: i32,
    home: Seq<char>,
) -> Seq<char> {
    let path = padded(displayed(note.path@, home, false), widths.path as nat);
    let g = if widths.group > 0 {
        COLUMN_GAP@ + padded(group, widths.group as nat)
    } else {
        Seq::empty()
    };
    let t = if widths.tags > 0 {
        COLUMN_GAP@ + padded(
            tag_column_of(note.front.tags@.map_values(|t: String| t@)),
            widths.tags as nat,
        )
    } else {
        Seq::empty()
    };
    crate::text::trim_end(
        path + g + t + COLUMN_GAP@ + crate::clock::timestamp_at_offset(note.modified, offset)
            + COLUMN_GAP@ + crate::clock::date_at_offset(note.created, offset),
    )
}

/// One `note ls --status` row — see [`status_row_of`]. `label` is what the
/// note's directory is labelled, if anything, which decides its group.
pub fn status_row(note: &Note, label: Option<&str>, widths: &Widths, offset: i32, home: &str) -> (r:
    String)
    ensures
        r@ == status_row_of(
            *note,
            match label {
                Some(l) => l@,
                None => note.dir@,
            },
            *widths,
            offset,
            home@,
        ),
{
    let mut row = String::new();
    let shown = note.shown(home);
    push_column(&mut row, shown.as_str(), widths.path);
    let ghost a = row@;
    if widths.group > 0 {
        row.append(COLUMN_GAP);
        push_column(&mut row, note.group(label), widths.group);
    }
    let ghost b = row@;
    if widths.tags > 0 {
        row.append(COLUMN_GAP);
        let tags = note.tag_column();
        push_column(&mut row, tags.as_str(), widths.tags);
    }
    let ghost c = row@;
    let ts = timestamp(note.modified, offset);
    let day = date(note.created, offset);
    row.append(COLUMN_GAP);
    row.append(ts.as_str());
    row.append(COLUMN_GAP);
    row.append(day.as_str());
    let ghost t = if widths.tags > 0 {
        COLUMN_GAP@ + padded(
            tag_column_of(note.front.tags@.map_values(|t: String| t@)),
            widths.tags as nat,
        )
    } else {
        Seq::empty()
    };
    assert(a =~= padded(displayed(note.path@, home@, false), widths.path as nat));
    assert(c =~= b + t);
    assert(row@ =~= c + COLUMN_GAP@ + ts@ + COLUMN_GAP@ + day@);
    let v = chars_of(row.as_str());
    assert(v@.subrange(0, v@.len() as int) =~= v@);
    let e = crate::text::skip_ws_back(&v, 0, v.len());
    let ghost g = if widths.group > 0 {
        COLUMN_GAP@ + padded(
            match label {
                Some(l) => l@,
                None => note.dir@,
            },
            widths.group as nat,
        )
    } else {
        Seq::empty()
    };
    assert(b =~= a + g);
    string_of(&v, 0, e)
}

// --- reading front matter ---------------------------------------------------

/// What has been read of a front matter block so far, and whether the block
/// sequence being read is the one `tags:` opened.
pub struct FrontState {
    pub title: Option<Seq<char>>,
    pub tags: Seq<Seq<char>>,
    pub created: Option<i64>,
    pub in_tags: bool,
}

/// `s` without the carriage returns it ends with.
pub open spec fn trim_crs(s: Seq<char>) -> Seq<char>
    decreases s.len(),
{
    if s.len() > 0 && s.last() == '\r' {
        trim_crs(s.drop_last())
    } else {
        s
    }
}

/// `s` without the `#`s it starts with.
pub open spec fn trim_hashes(s: Seq<char>) -> Seq<char>
    decreases s.len(),
{
    if s.len() > 0 && s[0] == '#' {
        trim_hashes(s.drop_first())
    } else {
        s
    }
}

/// The value of a `- item` line, already trimmed: what follows the dash and
/// one space, trimmed, or nothing for a bare dash.
pub open spec fn sequence_item_of(t: Seq<char>) -> Option<Seq<char>> {
    if t.len() > 0 && t[0] == '-' {
        let rest = t.drop_first();
        if rest.len() == 0 {
            Some(Seq::empty())
        } else if rest[0] == ' ' {
            Some(crate::text::trim(rest.drop_first()))
        } else {
            None
        }
    } else {
        None
    }
}

/// `v` without one matching pair of surrounding quotes, double or single.
pub open spec fn unquote_of(v: Seq<char>) -> Seq<char> {
    if v.len() >= 2 && v[0] == '"' && v.last() == '"' {
        v.subrange(1, v.len() - 1)
    } else if v.len() >= 2 && v[0] == '\'' && v.last() == '\'' {
        v.subrange(1, v.len() - 1)
    } else {
        v
    }
}

/// A scalar value: trimmed and unquoted, `None` when nothing is left of it.
pub open spec fn scalar_of(v: Seq<char>) -> Option<Seq<char>> {
    let u = unquote_of(crate::text::trim(v));
    if u.len() > 0 {
        Some(u)
    } else {
        None
    }
}

/// `tags` with `tag` added: as a scalar, without its leading `#`s, and only
/// when something is left that is not already there.
pub open spec fn with_tag(tags: Seq<Seq<char>>, tag: Seq<char>) -> Seq<Seq<char>> {
    match scalar_of(tag) {
        Some(t) => {
            let t2 = trim_hashes(t);
            if t2.len() > 0 && !tags.contains(t2) {
                tags.push(t2)
            } else {
                tags
            }
        },
        None => tags,
    }
}

pub open spec fn with_tags(tags: Seq<Seq<char>>, list: Seq<Seq<char>>) -> Seq<Seq<char>>
    decreases list.len(),
{
    if list.len() == 0 {
        tags
    } else {
        with_tag(with_tags(tags, list.drop_last()), list.last())
    }
}

pub open spec fn tag_delim(c: char) -> bool {
    c == ',' || c == ' ' || c == '\t'
}

/// A one-line tag list split: `[a, b]`, `a, b` and `a b` are all written in
/// the wild, so commas, spaces and tabs all separate, inside one optional
/// pair of brackets.
pub open spec fn split_tags_of(value: Seq<char>) -> Seq<Seq<char>> {
    let inner = if value.len() >= 2 && value[0] == '[' && value.last() == ']' {
        value.subrange(1, value.len() - 1)
    } else {
        value
    };
    crate::text::split(inner.map_values(|c: char| if tag_delim(c) { ',' } else { c }), ',')
}

/// What precedes the first `T` or space: a date without its time.
pub open spec fn before_time(s: Seq<char>) -> Seq<char>
    decreases s.len(),
{
    if s.len() == 0 {
        s
    } else if s[0] == 'T' || s[0] == ' ' {
        Seq::empty()
    } else {
        seq![s[0]] + before_time(s.drop_first())
    }
}

pub open spec fn parse_i32_of(s: Seq<char>) -> Option<i32> {
    match crate::text::parse_int(s) {
        Some(n) => if i32::MIN <= n <= i32::MAX {
            Some(n as i32)
        } else {
            None
        },
        None => None,
    }
}

pub open spec fn parse_u8_of(s: Seq<char>) -> Option<u8> {
    match parse_nat(s) {
        Some(n) => if n <= u8::MAX {
            Some(n as u8)
        } else {
            None
        },
        None => None,
    }
}

/// A front matter date as local midnight on the day it names: the value
/// unquoted, whatever follows the date dropped, then exactly three
/// `-`-separated numbers.
pub open spec fn date_value_of(value: Seq<char>, offset: i32) -> Option<i64> {
    let date = before_time(unquote_of(crate::text::trim(value)));
    let parts = crate::text::split(date, '-');
    if parts.len() != 3 {
        None
    } else {
        match (
            parse_i32_of(crate::text::trim(parts[0])),
            parse_u8_of(crate::text::trim(parts[1])),
            parse_u8_of(crate::text::trim(parts[2])),
        ) {
            (Some(y), Some(m), Some(d)) => crate::clock::midnight_at(y, m, d, offset),
            _ => None,
        }
    }
}

/// One line of a front matter block read: comments and blank lines skipped, a
/// sequence item added to the tags when `tags:` opened the sequence, an
/// indented line skipped, and a `key: value` line read for `title`, `tags` or
/// `tag`, and `created` or `date` — the first date written wins.
pub open spec fn front_step(st: FrontState, raw: Seq<char>, offset: i32) -> FrontState {
    let line = trim_crs(raw);
    let t = crate::text::trim(line);
    if t.len() == 0 || t[0] == '#' {
        st
    } else {
        match sequence_item_of(t) {
            Some(item) => if st.in_tags {
                FrontState { tags: with_tag(st.tags, item), ..st }
            } else {
                st
            },
            None => if line[0] == ' ' || line[0] == '\t' {
                st
            } else {
                let st2 = FrontState { in_tags: false, ..st };
                match crate::text::split_once(line, ':') {
                    None => st2,
                    Some((key, raw_value)) => {
                        let k = crate::text::trim(key);
                        let value = crate::text::trim(raw_value);
                        if eq_ascii_ci(k, "title"@) {
                            FrontState { title: scalar_of(value), ..st2 }
                        } else if eq_ascii_ci(k, "tags"@) || eq_ascii_ci(k, "tag"@) {
                            if value.len() == 0 {
                                FrontState { in_tags: true, ..st2 }
                            } else {
                                FrontState { tags: with_tags(st2.tags, split_tags_of(value)), ..st2 }
                            }
                        } else if eq_ascii_ci(k, "created"@) || eq_ascii_ci(k, "date"@) {
                            FrontState {
                                created: match st2.created {
                                    Some(c) => Some(c),
                                    None => date_value_of(value, offset),
                                },
                                ..st2
                            }
                        } else {
                            st2
                        }
                    },
                }
            },
        }
    }
}

pub open spec fn front_fold(ls: Seq<Seq<char>>, offset: i32) -> FrontState
    decreases ls.len(),
{
    if ls.len() == 0 {
        FrontState { title: None, tags: Seq::empty(), created: None, in_tags: false }
    } else {
        front_step(front_fold(ls.drop_last(), offset), ls.last(), offset)
    }
}

/// What a front matter block says: read line by line — see [`front_step`].
pub open spec fn front_of(block: Seq<char>, offset: i32) -> FrontState {
    front_fold(crate::text::lines(block), offset)
}

pub open spec fn tag_views(tags: Seq<String>) -> Seq<Seq<char>> {
    tags.map_values(|t: String| t@)
}

fn unquote_range(v: &Vec<char>, lo: usize, hi: usize) -> (r: (usize, usize))
    requires
        lo <= hi <= v@.len(),
    ensures
        lo <= r.0 <= r.1 <= hi,
        v@.subrange(r.0 as int, r.1 as int) == unquote_of(v@.subrange(lo as int, hi as int)),
{
    let ghost s = v@.subrange(lo as int, hi as int);
    if hi - lo >= 2 && ((v[lo] == '"' && v[hi - 1] == '"') || (v[lo] == '\'' && v[hi - 1] == '\'')) {
        assert(s.subrange(1, s.len() - 1) =~= v@.subrange(lo + 1, hi - 1));
        (lo + 1, hi - 1)
    } else {
        (lo, hi)
    }
}

/// The scalar in `v[lo..hi]`, as its range in `v`.
fn scalar_range(v: &Vec<char>, lo: usize, hi: usize) -> (r: Option<(usize, usize)>)
    requires
        lo <= hi <= v@.len(),
    ensures
        match r {
            Some((a, b)) => lo <= a <= b <= hi && scalar_of(v@.subrange(lo as int, hi as int))
                == Some(v@.subrange(a as int, b as int)),
            None => scalar_of(v@.subrange(lo as int, hi as int)) is None,
        },
{
    let (a, b) = crate::text::trim_range(v, lo, hi);
    let (c, d) = unquote_range(v, a, b);
    if d > c {
        Some((c, d))
    } else {
        None
    }
}

fn holds_tag(tags: &Vec<String>, v: &Vec<char>, lo: usize, hi: usize) -> (r: bool)
    requires
        lo <= hi <= v@.len(),
    ensures
        r == tag_views(tags@).contains(v@.subrange(lo as int, hi as int)),
{
    let ghost tv = tag_views(tags@);
    let ghost t = v@.subrange(lo as int, hi as int);
    let mut i: usize = 0;
    while i < tags.len()
        invariant
            tv == tag_views(tags@),
            t == v@.subrange(lo as int, hi as int),
            lo <= hi <= v@.len(),
            i <= tv.len(),
            forall|j: int| 0 <= j < i ==> tv[j] != t,
        decreases tv.len() - i,
    {
        if crate::text::range_is(v, lo, hi, tags[i].as_str()) {
            assert(tv[i as int] == t);
            return true;
        }
        i += 1;
    }
    false
}

fn add_tag(tags: &mut Vec<String>, v: &Vec<char>, lo: usize, hi: usize)
    requires
        lo <= hi <= v@.len(),
    ensures
        tag_views(final(tags)@) == with_tag(tag_views(old(tags)@), v@.subrange(lo as int, hi as int)),
{
    match scalar_range(v, lo, hi) {
        Some((a, b)) => {
            let mut k = a;
            while k < b && v[k] == '#'
                invariant
                    a <= k <= b <= v@.len(),
                    trim_hashes(v@.subrange(a as int, b as int)) == trim_hashes(
                        v@.subrange(k as int, b as int),
                    ),
                decreases b - k,
            {
                assert(v@.subrange(k as int, b as int).drop_first() =~= v@.subrange(k + 1, b as int));
                k += 1;
            }
            assert(trim_hashes(v@.subrange(k as int, b as int)) == v@.subrange(k as int, b as int));
            if k < b && !holds_tag(tags, v, k, b) {
                let ghost before = tag_views(tags@);
                let t = string_of(v, k, b);
                tags.push(t);
                assert(tag_views(tags@) =~= before.push(v@.subrange(k as int, b as int)));
            }
        },
        None => {},
    }
}

fn add_tags(tags: &mut Vec<String>, v: &Vec<char>, lo: usize, hi: usize)
    requires
        lo <= hi <= v@.len(),
    ensures
        tag_views(final(tags)@) == with_tags(
            tag_views(old(tags)@),
            split_tags_of(v@.subrange(lo as int, hi as int)),
        ),
{
    let ghost value = v@.subrange(lo as int, hi as int);
    let (a, b) = if hi - lo >= 2 && v[lo] == '[' && v[hi - 1] == ']' {
        (lo + 1, hi - 1)
    } else {
        (lo, hi)
    };
    let ghost inner = v@.subrange(a as int, b as int);
    assert(inner =~= (if value.len() >= 2 && value[0] == '[' && value.last() == ']' {
        value.subrange(1, value.len() - 1)
    } else {
        value
    }));
    let mut mapped: Vec<char> = Vec::new();
    let mut k = a;
    while k < b
        invariant
            a <= k <= b <= v@.len(),
            mapped@ == v@.subrange(a as int, k as int).map_values(
                |c: char| if tag_delim(c) { ',' } else { c },
            ),
        decreases b - k,
    {
        let c = v[k];
        mapped.push(if c == ',' || c == ' ' || c == '\t' { ',' } else { c });
        assert(v@.subrange(a as int, k + 1) =~= v@.subrange(a as int, k as int).push(c));
        assert(mapped@ =~= v@.subrange(a as int, k + 1).map_values(
            |c: char| if tag_delim(c) { ',' } else { c },
        ));
        k += 1;
    }
    assert(mapped@.subrange(0, mapped@.len() as int) =~= mapped@);
    let pieces = crate::text::split_range(&mapped, 0, mapped.len(), ',');
    let ghost pv = pieces@.map_values(|p: Vec<char>| p@);
    let ghost start = tag_views(tags@);
    let mut i: usize = 0;
    while i < pieces.len()
        invariant
            pv == pieces@.map_values(|p: Vec<char>| p@),
            pv == split_tags_of(value),
            i <= pv.len(),
            tag_views(tags@) == with_tags(start, pv.take(i as int)),
        decreases pv.len() - i,
    {
        assert(pv.take(i + 1).drop_last() =~= pv.take(i as int));
        let p = &pieces[i];
        assert(p@.subrange(0, p@.len() as int) =~= p@);
        add_tag(tags, p, 0, p.len());
        i += 1;
    }
    assert(pv.take(pv.len() as int) =~= pv);
}

fn date_value(v: &Vec<char>, lo: usize, hi: usize, offset: i32) -> (r: Option<i64>)
    requires
        lo <= hi <= v@.len(),
    ensures
        r == date_value_of(v@.subrange(lo as int, hi as int), offset),
{
    let (a, b) = crate::text::trim_range(v, lo, hi);
    let (c, d) = unquote_range(v, a, b);
    let mut e = c;
    while e < d && v[e] != 'T' && v[e] != ' '
        invariant
            c <= e <= d <= v@.len(),
            before_time(v@.subrange(c as int, d as int)) == v@.subrange(c as int, e as int)
                + before_time(v@.subrange(e as int, d as int)),
        decreases d - e,
    {
        assert(v@.subrange(e as int, d as int).drop_first() =~= v@.subrange(e + 1, d as int));
        assert(v@.subrange(c as int, e + 1) =~= v@.subrange(c as int, e as int) + seq![v@[e as int]]);
        e += 1;
    }
    assert(before_time(v@.subrange(e as int, d as int)) =~= Seq::<char>::empty());
    assert(v@.subrange(c as int, e as int) + Seq::<char>::empty() =~= v@.subrange(c as int, e as int));
    let parts = crate::text::split_range(v, c, e, '-');
    let ghost pv = parts@.map_values(|p: Vec<char>| p@);
    if parts.len() != 3 {
        return None;
    }
    assert(pv[0] == parts@[0]@ && pv[1] == parts@[1]@ && pv[2] == parts@[2]@);
    let p0 = &parts[0];
    let p1 = &parts[1];
    let p2 = &parts[2];
    assert(p0@.subrange(0, p0@.len() as int) =~= p0@);
    assert(p1@.subrange(0, p1@.len() as int) =~= p1@);
    assert(p2@.subrange(0, p2@.len() as int) =~= p2@);
    let (y0, y1) = crate::text::trim_range(p0, 0, p0.len());
    let (m0, m1) = crate::text::trim_range(p1, 0, p1.len());
    let (d0, d1) = crate::text::trim_range(p2, 0, p2.len());
    let year = match crate::text::parse_i64(p0, y0, y1) {
        Some(y) => if -2147483648 <= y && y <= 2147483647 {
            y as i32
        } else {
            return None;
        },
        None => {
            return None;
        },
    };
    let month = match parse_unsigned(p1, m0, m1, 255) {
        Some(m) => m as u8,
        None => {
            return None;
        },
    };
    let day = match parse_unsigned(p2, d0, d1, 255) {
        Some(d) => d as u8,
        None => {
            return None;
        },
    };
    crate::clock::local_midnight(year, month, day, offset)
}

/// Read a front matter block — see [`front_of`].
///
/// A deliberately small reader rather than a YAML parser: it takes top-level
/// `key: value` lines and the block or flow sequences under them, and skips
/// everything else. `offset` dates a `created:` value, which names a day
/// rather than an instant: the day is the writer's own, so it becomes local
/// midnight.
pub fn parse_front(block: &str, offset: i32) -> (r: Front)
    ensures
        match r.title {
            Some(t) => front_of(block@, offset).title == Some(t@),
            None => front_of(block@, offset).title is None,
        },
        tag_views(r.tags@) == front_of(block@, offset).tags,
        r.created == front_of(block@, offset).created,
{
    let ls = crate::text::lines_of(block);
    let ghost lv = ls@.map_values(|p: Vec<char>| p@);
    let mut title: Option<String> = None;
    let mut tags: Vec<String> = Vec::new();
    let mut created: Option<i64> = None;
    let mut in_tags = false;
    let mut i: usize = 0;
    while i < ls.len()
        invariant
            lv == ls@.map_values(|p: Vec<char>| p@),
            lv == crate::text::lines(block@),
            i <= lv.len(),
            ({
                let st = front_fold(lv.take(i as int), offset);
                &&& (match title {
                    Some(t) => st.title == Some(t@),
                    None => st.title is None,
                })
                &&& tag_views(tags@) == st.tags
                &&& created == st.created
                &&& in_tags == st.in_tags
            }),
        decreases lv.len() - i,
    {
        assert(lv.take(i + 1).drop_last() =~= lv.take(i as int));
        let raw = &ls[i];
        assert(lv.take(i + 1).last() == raw@);
        let mut end = raw.len();
        assert(raw@.subrange(0, raw@.len() as int) =~= raw@);
        while end > 0 && raw[end - 1] == '\r'
            invariant
                end <= raw@.len(),
                trim_crs(raw@) == trim_crs(raw@.subrange(0, end as int)),
            decreases end,
        {
            assert(raw@.subrange(0, end as int).drop_last() =~= raw@.subrange(0, end - 1));
            end -= 1;
        }
        assert(raw@.subrange(0, raw@.len() as int) =~= raw@);
        let ghost line = raw@.subrange(0, end as int);
        assert(trim_crs(raw@) == line);
        let (a, b) = crate::text::trim_range(raw, 0, end);
        let ghost t = raw@.subrange(a as int, b as int);
        if a == b || raw[a] == '#' {
            i += 1;
            continue;
        }
        assert(t[0] == raw@[a as int]);
        let item = if raw[a] == '-' {
            if b == a + 1 {
                assert(t.drop_first() =~= Seq::<char>::empty());
                Some((a + 1, a + 1))
            } else if raw[a + 1] == ' ' {
                assert(t.drop_first()[0] == raw@[a + 1]);
                assert(t.drop_first().drop_first() =~= raw@.subrange(a + 2, b as int));
                let (c, d) = crate::text::trim_range(raw, a + 2, b);
                Some((c, d))
            } else {
                assert(t.drop_first()[0] == raw@[a + 1]);
                None
            }
        } else {
            None
        };
        match item {
            Some((c, d)) => {
                assert(sequence_item_of(t) == Some(raw@.subrange(c as int, d as int)));
                if in_tags {
                    add_tag(&mut tags, raw, c, d);
                }
                i += 1;
                continue;
            },
            None => {},
        }
        assert(sequence_item_of(t) is None);
        assert(line[0] == raw@[0]);
        if raw[0] == ' ' || raw[0] == '\t' {
            i += 1;
            continue;
        }
        in_tags = false;
        proof {
            line.index_of_first_ensures(':');
        }
        let colon = match find_in(raw, 0, end, ':') {
            Some(k) => k,
            None => {
                i += 1;
                continue;
            },
        };
        let (k0, k1) = crate::text::trim_range(raw, 0, colon);
        let (v0, v1) = crate::text::trim_range(raw, colon + 1, end);
        assert(line.subrange(0, colon as int) =~= raw@.subrange(0, colon as int));
        assert(line.subrange(colon + 1, line.len() as int) =~= raw@.subrange(colon + 1, end as int));
        if range_eq_ci(raw, k0, k1, "title") {
            title = match scalar_range(raw, v0, v1) {
                Some((x, y)) => Some(string_of(raw, x, y)),
                None => None,
            };
        } else if range_eq_ci(raw, k0, k1, "tags") || range_eq_ci(raw, k0, k1, "tag") {
            if v0 == v1 {
                in_tags = true;
            } else {
                add_tags(&mut tags, raw, v0, v1);
            }
        } else if range_eq_ci(raw, k0, k1, "created") || range_eq_ci(raw, k0, k1, "date") {
            if created.is_none() {
                created = date_value(raw, v0, v1, offset);
            }
        }
        i += 1;
    }
    assert(lv.take(lv.len() as int) =~= lv);
    Front { title, tags, created }
}

} // verus!
