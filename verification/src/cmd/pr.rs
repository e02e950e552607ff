//! `scriv pr`'s decisions: when there is no repository to ask about, what an
//! empty or truncated listing says, and how a pull request's row is laid out.

use vstd::prelude::*;

use crate::cmd::worktree::widest;
use crate::gh::{
    check_views, color_of, mergeable_of, readiness_of, tally, verdict, CheckResult, Checks, Mergeable,
    PullRequest, Readiness,
};
use crate::note::{padded, push_column};
use crate::select::SelectItem;
use crate::text::{decimal, decimal_string, join, join_strings};

verus! {

/// Why `pr` refuses to run outside a repository when `GH_REPO` names none.
pub open spec fn no_target_text() -> Seq<char> {
    "not inside a git repository — `pr` acts on the repository you are standing in, or the one `GH_REPO` names"@
}

/// Fail before `gh` does when there is no repository for it to be about:
/// `GH_REPO` names one, or the working directory is in one.
pub fn ensure_target(has_gh_repo: bool, in_repository: bool) -> (r: Result<(), String>)
    ensures
        r is Ok <==> (has_gh_repo || in_repository),
        r matches Err(e) ==> e@ == no_target_text(),
{
    if has_gh_repo || in_repository {
        Ok(())
    } else {
        Err(String::from_str(
            "not inside a git repository — `pr` acts on the repository you are standing in, or the one `GH_REPO` names",
        ))
    }
}

/// What an empty listing says: the state it was filtered to, unless that was
/// every state.
pub open spec fn none_found_text(state: Seq<char>) -> Seq<char> {
    "no "@ + (if state == "all"@ {
        Seq::empty()
    } else {
        state + " "@
    }) + "pull requests found for this repository"@
}

/// What an empty listing says.
pub fn none_found(state: &str) -> (r: String)
    ensures
        r@ == none_found_text(state@),
{
    let mut out = String::from_str("no ");
    if !crate::text::same(state, "all") {
        out.append(state);
        out.append(" ");
    }
    out.append("pull requests found for this repository");
    out
}

/// The note printed when a listing came back full: a full page cannot be
/// told from a repository with exactly that many, so the limit names itself.
pub open spec fn limit_note_text(found: nat, limit: nat) -> Option<Seq<char>> {
    if found == limit {
        Some("note: showing the first "@ + decimal(limit) + " pull requests; pass --limit to raise it"@)
    } else {
        None
    }
}

/// The note printed when a listing came back full, if it did.
pub fn limit_note(found: usize, limit: usize) -> (r: Option<String>)
    ensures
        match r {
            Some(n) => limit_note_text(found as nat, limit as nat) == Some(n@),
            None => limit_note_text(found as nat, limit as nat) is None,
        },
{
    if found == limit {
        let mut out = String::from_str("note: showing the first ");
        let n = decimal_string(limit as u64);
        out.append(n.as_str());
        out.append(" pull requests; pass --limit to raise it");
        Some(out)
    } else {
        None
    }
}

/// A pull request's checks, tallied.
pub open spec fn checks_of(p: PullRequest) -> Checks {
    Checks {
        passed: tally(check_views(p.status_check_rollup@), CheckResult::Pass) as usize,
        failed: tally(check_views(p.status_check_rollup@), CheckResult::Fail) as usize,
        pending: tally(check_views(p.status_check_rollup@), CheckResult::Pending) as usize,
    }
}

/// Whether a pull request reports any check at all.
pub open spec fn has_checks(p: PullRequest) -> bool {
    tally(check_views(p.status_check_rollup@), CheckResult::Pass) + tally(
        check_views(p.status_check_rollup@),
        CheckResult::Fail,
    ) + tally(check_views(p.status_check_rollup@), CheckResult::Pending) > 0
}

/// Whether a pull request conflicts with its base.
pub open spec fn conflicting(p: PullRequest) -> bool {
    mergeable_of(p.mergeable@) == Mergeable::Conflicting
}

/// The glyph a pull request's checks show.
pub open spec fn check_glyph_of(p: PullRequest) -> Seq<char> {
    match verdict(checks_of(p)) {
        None => " "@,
        Some(CheckResult::Pass) => "✓"@,
        Some(CheckResult::Fail) => "✗"@,
        Some(CheckResult::Pending) => "⧗"@,
    }
}

/// The glyph a pull request's mergeability shows: only a conflict has one.
pub open spec fn merge_glyph_of(p: PullRequest) -> Seq<char> {
    if conflicting(p) {
        "⊘"@
    } else {
        " "@
    }
}

/// Which status glyph columns a set of pull requests earns: a column appears
/// only when some pull request has something to put in it.
#[derive(Debug, Clone, Copy)]
pub struct StatusColumns {
    pub checks: bool,
    pub merge: bool,
}

/// One pull request's glyph cells and the gap after them; nothing where the
/// set earned no column.
pub open spec fn cells_of(c: StatusColumns, p: PullRequest) -> Seq<char> {
    let parts = (if c.checks {
        seq![check_glyph_of(p)]
    } else {
        Seq::empty()
    }) + (if c.merge {
        seq![merge_glyph_of(p)]
    } else {
        Seq::empty()
    });
    if parts.len() == 0 {
        Seq::empty()
    } else {
        join(parts, " "@) + "  "@
    }
}

impl StatusColumns {
    /// The columns `prs` earn.
    pub fn of(prs: &[PullRequest]) -> (r: StatusColumns)
        ensures
            r.checks == exists|i: int| 0 <= i < prs@.len() && has_checks(#[trigger] prs@[i]),
            r.merge == exists|i: int| 0 <= i < prs@.len() && conflicting(#[trigger] prs@[i]),
    {
        let mut checks = false;
        let mut merge = false;
        let mut i: usize = 0;
        while i < prs.len()
            invariant
                i <= prs@.len(),
                checks == exists|j: int| 0 <= j < i && has_checks(#[trigger] prs@[j]),
                merge == exists|j: int| 0 <= j < i && conflicting(#[trigger] prs@[j]),
            decreases prs@.len() - i,
        {
            let c = prs[i].checks();
            if !c.is_empty() {
                checks = true;
            }
            match prs[i].mergeable() {
                Mergeable::Conflicting => {
                    merge = true;
                },
                _ => {},
            }
            i += 1;
        }
        StatusColumns { checks, merge }
    }

    /// One pull request's glyphs, followed by the usual two-space gap, ready
    /// to go in front of its title; bare, for a row painted as a whole.
    pub fn cells(self, pr: &PullRequest) -> (r: String)
        ensures
            r@ == cells_of(self, *pr),
    {
        let mut parts: Vec<String> = Vec::new();
        if self.checks {
            let c = pr.checks();
            parts.push(String::from_str(c.glyph()));
        }
        if self.merge {
            let m = pr.mergeable();
            parts.push(String::from_str(m.glyph()));
        }
        if parts.len() == 0 {
            return String::new();
        }
        assert(parts@.map_values(|p: String| p@) =~= (if self.checks {
            seq![check_glyph_of(*pr)]
        } else {
            Seq::empty()
        }) + (if self.merge {
            seq![merge_glyph_of(*pr)]
        } else {
            Seq::empty()
        }));
        let mut out = join_strings(&parts, " ");
        out.append("  ");
        out
    }
}

/// Width of the widest pull request number, so the `#123` column aligns.
pub fn number_width(prs: &[PullRequest]) -> (r: usize)
    ensures
        r == widest(prs@.map_values(|p: PullRequest| decimal(p.number as nat))),
{
    let ghost s = prs@.map_values(|p: PullRequest| decimal(p.number as nat));
    let mut w: usize = 0;
    let mut i: usize = 0;
    while i < prs.len()
        invariant
            s == prs@.map_values(|p: PullRequest| decimal(p.number as nat)),
            i <= prs@.len(),
            w == widest(s.take(i as int)),
        decreases prs@.len() - i,
    {
        assert(s.take(i + 1).drop_last() =~= s.take(i as int));
        let n = decimal_string(prs[i].number);
        let len = n.unicode_len();
        if len > w {
            w = len;
        }
        i += 1;
    }
    assert(s.take(prs@.len() as int) =~= s);
    w
}

/// What tints a selector row.
#[derive(Debug, Clone, Copy, PartialEq, Eq, Structural)]
pub enum Tint {
    /// By pull request state, for choosing which pull request.
    State,
    /// By readiness to merge, for whether it can be merged.
    Readiness,
}

pub open spec fn readiness_color(r: Readiness) -> u8 {
    match r {
        Readiness::Ready => 2,
        Readiness::Waiting => 3,
        Readiness::Blocked => 1,
        Readiness::Unavailable => 8,
    }
}

/// The colour a tint gives a pull request's row.
pub open spec fn tint_color(t: Tint, p: PullRequest) -> u8 {
    match t {
        Tint::State => color_of(p.is_draft, p.state@),
        Tint::Readiness => readiness_color(
            readiness_of(p.is_draft, p.state@, checks_of(p), mergeable_of(p.mergeable@)),
        ),
    }
}

impl Tint {
    pub fn color(self, pr: &PullRequest) -> (r: u8)
        ensures
            r == tint_color(self, *pr),
    {
        match self {
            Tint::State => pr.color(),
            Tint::Readiness => pr.readiness().color(),
        }
    }
}

/// Who wrote a pull request, or `unknown` where the account is gone.
pub open spec fn author_of(p: PullRequest) -> Seq<char> {
    match p.author {
        Some(a) => a.login@,
        None => "unknown"@,
    }
}

/// A selector row: the number in its column, the glyph cells, the title, the
/// author and the source branch.
pub open spec fn pr_row(p: PullRequest, width: nat, c: StatusColumns) -> Seq<char> {
    "#"@ + padded(decimal(p.number as nat), width) + "  "@ + cells_of(c, p) + p.title@ + "  @"@ + author_of(p)
        + "  ["@ + p.head_ref_name@ + "]"@
}

/// Build selector rows, each handing back its number and drawn in the colour
/// `tint` gives it.
pub fn items(prs: &[PullRequest], tint: Tint) -> (r: Vec<SelectItem>)
    ensures
        r@.len() == prs@.len(),
        forall|i: int|
            0 <= i < r@.len() ==> {
                let p = #[trigger] prs@[i];
                &&& r@[i].label@ == pr_row(
                    p,
                    widest(prs@.map_values(|q: PullRequest| decimal(q.number as nat))),
                    StatusColumns {
                        checks: exists|j: int| 0 <= j < prs@.len() && has_checks(#[trigger] prs@[j]),
                        merge: exists|j: int| 0 <= j < prs@.len() && conflicting(#[trigger] prs@[j]),
                    },
                )
                &&& r@[i].value@ == decimal(p.number as nat)
                &&& r@[i].color == Some(tint_color(tint, p))
            },
{
    let width = number_width(prs);
    let columns = StatusColumns::of(prs);
    let mut out: Vec<SelectItem> = Vec::new();
    let mut i: usize = 0;
    while i < prs.len()
        invariant
            width == widest(prs@.map_values(|q: PullRequest| decimal(q.number as nat))),
            columns.checks == exists|j: int| 0 <= j < prs@.len() && has_checks(#[trigger] prs@[j]),
            columns.merge == exists|j: int| 0 <= j < prs@.len() && conflicting(#[trigger] prs@[j]),
            i <= prs@.len(),
            out@.len() == i,
            forall|j: int|
                0 <= j < i ==> {
                    let p = #[trigger] prs@[j];
                    &&& out@[j].label@ == pr_row(p, width as nat, columns)
                    &&& out@[j].value@ == decimal(p.number as nat)
                    &&& out@[j].color == Some(tint_color(tint, p))
                },
        decreases prs@.len() - i,
    {
        let pr = &prs[i];
        let number = decimal_string(pr.number);
        let mut label = String::from_str("#");
        push_column(&mut label, number.as_str(), width);
        label.append("  ");
        let cells = columns.cells(pr);
        label.append(cells.as_str());
        label.append(pr.title.as_str());
        label.append("  @");
        label.append(pr.author_login());
        label.append("  [");
        label.append(pr.head_ref_name.as_str());
        label.append("]");
        let item = SelectItem::new(label, number).color(tint.color(pr));
        out.push(item);
        i += 1;
    }
    out
}

/// A `pr ls` row, before it is painted in the pull request's colour: the
/// number and glyph cells, the title and author, and with `status` the state
/// tag, the source branch and the day it was last updated.
pub open spec fn ls_row_of(p: PullRequest, width: nat, c: StatusColumns, status: bool) -> Seq<char> {
    if status {
        "#"@ + padded(decimal(p.number as nat), width) + "  "@ + padded(
            crate::gh::tag_of(p.is_draft, p.state@),
            6,
        ) + "  "@ + cells_of(c, p) + p.title@ + "  @"@ + author_of(p) + "  ["@ + p.head_ref_name@ + "]  "@
            + crate::gh::date_part(p.updated_at@)
    } else {
        "#"@ + padded(decimal(p.number as nat), width) + "  "@ + cells_of(c, p) + p.title@ + "  @"@
            + author_of(p)
    }
}

/// One `pr ls` row.
pub fn ls_row(pr: &PullRequest, width: usize, columns: StatusColumns, status: bool) -> (r: String)
    ensures
        r@ == ls_row_of(*pr, width as nat, columns, status),
{
    let number = decimal_string(pr.number);
    let mut row = String::from_str("#");
    push_column(&mut row, number.as_str(), width);
    row.append("  ");
    if status {
        push_column(&mut row, pr.tag(), 6);
        row.append("  ");
    }
    let cells = columns.cells(pr);
    row.append(cells.as_str());
    row.append(pr.title.as_str());
    row.append("  @");
    row.append(pr.author_login());
    if status {
        row.append("  [");
        row.append(pr.head_ref_name.as_str());
        row.append("]  ");
        row.append(pr.updated_date());
    }
    row
}

/// What `pr open --current` opens: the checked-out branch's pull request, or,
/// where it has none or there is no branch at all, the repository's list —
/// with a note saying so, since the list page could be taken for the pull
/// request that was asked for.
#[derive(Debug, PartialEq, Eq)]
pub enum Opening {
    Pull(u64),
    List(String),
}

pub open spec fn opening_of(branch: Option<Seq<char>>, number: Option<u64>) -> (bool, u64, Seq<char>) {
    match number {
        Some(n) => (true, n, Seq::empty()),
        None => match branch {
            Some(b) => (false, 0, "note: no pull request from `"@ + b + "`; opening the list"@),
            None => (false, 0, "note: HEAD is detached; opening the pull request list"@),
        },
    }
}

/// See [`opening_of`]. `number` is the pull request found for `branch`; none
/// is looked for on a detached HEAD.
pub fn opening(branch: Option<&str>, number: Option<u64>) -> (r: Opening)
    ensures
        match r {
            Opening::Pull(n) => opening_of(crate::config::opt_view(branch), number) == (true, n, Seq::<char>::empty()),
            Opening::List(note) => opening_of(crate::config::opt_view(branch), number) == (false, 0u64, note@),
        },
{
    match number {
        Some(n) => Opening::Pull(n),
        None => match branch {
            Some(b) => {
                let mut note = String::from_str("note: no pull request from `");
                note.append(b);
                note.append("`; opening the list");
                Opening::List(note)
            },
            None => Opening::List(String::from_str("note: HEAD is detached; opening the pull request list")),
        },
    }
}

} // verus!
