//! GitHub pull requests and repositories, as `gh` reports them.
//!
//! scriv does no GitHub authentication of its own: it runs `gh`, which already
//! holds the user's token. What is decided here — what a check's fields add up
//! to, whether a pull request is ready, which page a listing ends at, which
//! arguments `gh` is given — is a function of what `gh` printed.

use vstd::prelude::*;

use crate::git::arg_views;
use crate::history::row_text;
use crate::text::{
    all_digits, chars_of, decimal, decimal_string, digit, eq_ascii_ci, eq_ignore_case, find_in,
    find_str_in, find_sub, is_ascii_alnum, is_digit, join, join_strings, parse_nat, parse_unsigned,
    push_decimal, range_eq_ci, split, split_once, split_range, string_of, trim, trim_range,
};

verus! {

/// JSON fields requested from `gh pr list`.
pub const FIELDS: &'static str = "number,title,author,headRefName,isDraft,state,updatedAt,body,statusCheckRollup,mergeable";

/// Display width of every status glyph, and of the blank that stands in for
/// one.
pub const GLYPH_WIDTH: usize = 1;

/// The blank that keeps a column aligned when there is nothing to say.
pub const NO_GLYPH: &'static str = " ";

/// Rows per request: GitHub's maximum.
pub const PAGE_SIZE: usize = 100;

/// How many pages are asked for at once.
pub const PAGE_WORKERS: usize = 8;

/// How many pages are asked for before anything is known about how many there
/// are.
pub const SPECULATIVE_PAGES: usize = 4;

pub open spec fn ci(a: Seq<char>, b: Seq<char>) -> bool {
    eq_ascii_ci(a, b)
}

// --- checks -----------------------------------------------------------------

/// One entry in a pull request's status check rollup. GitHub returns two shapes
/// in the same array: `CheckRun`, which reports a `status` and a `conclusion`,
/// and the older `StatusContext`, which reports a single `state`.
#[derive(Debug, Clone, PartialEq, Eq)]
pub struct Check {
    /// A `CheckRun`'s name.
    pub name: String,
    /// A `StatusContext`'s name.
    pub context: String,
    /// The workflow a `CheckRun` belongs to.
    pub workflow_name: String,
    /// `CheckRun`: `QUEUED`, `IN_PROGRESS`, or `COMPLETED`.
    pub status: String,
    /// `CheckRun`: `SUCCESS`, `FAILURE`, `SKIPPED`, …; empty until completed.
    pub conclusion: String,
    /// `StatusContext`: `SUCCESS`, `PENDING`, `FAILURE`, `ERROR`, `EXPECTED`.
    pub state: String,
}

pub struct CheckView {
    pub name: Seq<char>,
    pub context: Seq<char>,
    pub workflow_name: Seq<char>,
    pub status: Seq<char>,
    pub conclusion: Seq<char>,
    pub state: Seq<char>,
}

impl View for Check {
    type V = CheckView;

    open spec fn view(&self) -> CheckView {
        CheckView {
            name: self.name@,
            context: self.context@,
            workflow_name: self.workflow_name@,
            status: self.status@,
            conclusion: self.conclusion@,
            state: self.state@,
        }
    }
}

/// What one check says right now.
#[derive(Debug, Clone, Copy, PartialEq, Eq, Structural)]
pub enum CheckResult {
    Pass,
    Fail,
    Pending,
}

impl CheckResult {
    pub fn tag(self) -> (r: &'static str)
        ensures
            r@ == (match self {
                CheckResult::Pass => "pass"@,
                CheckResult::Fail => "fail"@,
                CheckResult::Pending => "pending"@,
            }),
    {
        match self {
            CheckResult::Pass => "pass",
            CheckResult::Fail => "fail",
            CheckResult::Pending => "pending",
        }
    }

    /// The glyph for a list row, one column wide; the colour is
    /// [`Self::color`].
    pub fn glyph(self) -> (r: &'static str)
        ensures
            r@ == (match self {
                CheckResult::Pass => "✓"@,
                CheckResult::Fail => "✗"@,
                CheckResult::Pending => "⧗"@,
            }),
    {
        match self {
            CheckResult::Pass => "✓",
            CheckResult::Fail => "✗",
            CheckResult::Pending => "⧗",
        }
    }

    /// ANSI 256-colour index matching [`Self::tag`].
    pub fn color(self) -> (r: u8)
        ensures
            r == (match self {
                CheckResult::Pass => 2u8,
                CheckResult::Fail => 1u8,
                CheckResult::Pending => 3u8,
            }),
    {
        match self {
            CheckResult::Pass => 2,
            CheckResult::Fail => 1,
            CheckResult::Pending => 3,
        }
    }
}

/// One check's fields reduced to a verdict, whichever shape it arrived in. A
/// `StatusContext`'s `state` decides on its own; a `CheckRun` that has not
/// finished is pending; a finished one with no conclusion yet is pending too;
/// `SKIPPED` and `NEUTRAL` pass, as GitHub treats them.
pub open spec fn result_of(status: Seq<char>, conclusion: Seq<char>, state: Seq<char>) -> CheckResult {
    if state.len() > 0 {
        if ci(state, "SUCCESS"@) {
            CheckResult::Pass
        } else if ci(state, "PENDING"@) || ci(state, "EXPECTED"@) {
            CheckResult::Pending
        } else {
            CheckResult::Fail
        }
    } else if status.len() > 0 && !ci(status, "COMPLETED"@) {
        CheckResult::Pending
    } else if conclusion.len() == 0 {
        CheckResult::Pending
    } else if ci(conclusion, "SUCCESS"@) || ci(conclusion, "SKIPPED"@) || ci(
        conclusion,
        "NEUTRAL"@,
    ) {
        CheckResult::Pass
    } else {
        CheckResult::Fail
    }
}

/// A `StatusContext` is judged by its `state` alone, in any case: `SUCCESS`
/// passes and nothing else does; `PENDING` and `EXPECTED` — a required check
/// that has not reported yet — wait, and never fail; `FAILURE` and `ERROR`
/// fail. Whatever `status` and `conclusion` say is not read.
pub proof fn lemma_status_context_verdict(status: Seq<char>, conclusion: Seq<char>, state: Seq<char>)
    requires
        state.len() > 0,
    ensures
        eq_ascii_ci(state, "SUCCESS"@) ==> result_of(status, conclusion, state) == CheckResult::Pass,
        eq_ascii_ci(state, "PENDING"@) ==> result_of(status, conclusion, state) == CheckResult::Pending,
        eq_ascii_ci(state, "EXPECTED"@) ==> result_of(status, conclusion, state) == CheckResult::Pending,
        eq_ascii_ci(state, "FAILURE"@) ==> result_of(status, conclusion, state) == CheckResult::Fail,
        eq_ascii_ci(state, "ERROR"@) ==> result_of(status, conclusion, state) == CheckResult::Fail,
        result_of(status, conclusion, state) == CheckResult::Pass ==> eq_ascii_ci(state, "SUCCESS"@),
        result_of(status, conclusion, state) == CheckResult::Fail ==> !eq_ascii_ci(state, "SUCCESS"@)
            && !eq_ascii_ci(state, "PENDING"@) && !eq_ascii_ci(state, "EXPECTED"@),
        forall|s2: Seq<char>, c2: Seq<char>| #[trigger] result_of(s2, c2, state) == result_of(status, conclusion, state),
{
    reveal_strlit("SUCCESS");
    reveal_strlit("PENDING");
    reveal_strlit("EXPECTED");
    reveal_strlit("FAILURE");
    reveal_strlit("ERROR");
    if eq_ascii_ci(state, "PENDING"@) {
        assert(crate::text::lower(state[0]) == crate::text::lower("PENDING"@[0]));
        if eq_ascii_ci(state, "SUCCESS"@) {
            assert(crate::text::lower(state[0]) == crate::text::lower("SUCCESS"@[0]));
        }
    }
    if eq_ascii_ci(state, "FAILURE"@) {
        assert(crate::text::lower(state[0]) == crate::text::lower("FAILURE"@[0]));
        if eq_ascii_ci(state, "SUCCESS"@) {
            assert(crate::text::lower(state[0]) == crate::text::lower("SUCCESS"@[0]));
        }
        if eq_ascii_ci(state, "PENDING"@) {
            assert(crate::text::lower(state[0]) == crate::text::lower("PENDING"@[0]));
        }
    }
}

pub open spec fn check_result(c: CheckView) -> CheckResult {
    result_of(c.status, c.conclusion, c.state)
}

/// Reduce one check's fields to a verdict — see [`result_of`].
pub fn result_for(status: &str, conclusion: &str, state: &str) -> (r: CheckResult)
    ensures
        r == result_of(status@, conclusion@, state@),
{
    if state.unicode_len() > 0 {
        return if eq_ignore_case(state, "SUCCESS") {
            CheckResult::Pass
        } else if eq_ignore_case(state, "PENDING") || eq_ignore_case(state, "EXPECTED") {
            CheckResult::Pending
        } else {
            CheckResult::Fail
        };
    }
    if status.unicode_len() > 0 && !eq_ignore_case(status, "COMPLETED") {
        return CheckResult::Pending;
    }
    if conclusion.unicode_len() == 0 {
        return CheckResult::Pending;
    }
    if eq_ignore_case(conclusion, "SUCCESS") || eq_ignore_case(conclusion, "SKIPPED")
        || eq_ignore_case(conclusion, "NEUTRAL") {
        CheckResult::Pass
    } else {
        CheckResult::Fail
    }
}

/// The name a check is shown under: a `CheckRun`'s job name, or a
/// `StatusContext`'s context when it has none, qualified by its workflow.
pub open spec fn label_of(c: CheckView) -> Seq<char> {
    let name = if c.name.len() == 0 {
        c.context
    } else {
        c.name
    };
    if c.workflow_name.len() == 0 {
        name
    } else {
        name + " ("@ + c.workflow_name + ")"@
    }
}

impl Check {
    /// The name to show: a `CheckRun`'s job name qualified by its workflow, or
    /// a `StatusContext`'s context.
    pub fn label(&self) -> (r: String)
        ensures
            r@ == label_of(self@),
    {
        let name = if self.name.unicode_len() == 0 {
            &self.context
        } else {
            &self.name
        };
        if self.workflow_name.unicode_len() == 0 {
            name.clone()
        } else {
            let mut out = name.clone();
            out.append(" (");
            out.append(self.workflow_name.as_str());
            out.append(")");
            out
        }
    }

    pub fn result(&self) -> (r: CheckResult)
        ensures
            r == check_result(self@),
    {
        result_for(self.status.as_str(), self.conclusion.as_str(), self.state.as_str())
    }
}

pub open spec fn check_views(cs: Seq<Check>) -> Seq<CheckView> {
    cs.map_values(|c: Check| c@)
}

/// How many of `cs` come to the verdict `r`.
pub open spec fn tally(cs: Seq<CheckView>, r: CheckResult) -> nat
    decreases cs.len(),
{
    if cs.len() == 0 {
        0
    } else {
        tally(cs.drop_last(), r) + if check_result(cs.last()) == r {
            1nat
        } else {
            0nat
        }
    }
}

proof fn lemma_tally_bound(cs: Seq<CheckView>)
    ensures
        tally(cs, CheckResult::Pass) + tally(cs, CheckResult::Fail) + tally(cs, CheckResult::Pending)
            == cs.len(),
    decreases cs.len(),
{
    if cs.len() > 0 {
        lemma_tally_bound(cs.drop_last());
    }
}

/// How a pull request's checks add up: the counts, and the one-word verdict
/// derived from them.
#[derive(Debug, Clone, Copy, PartialEq, Eq, Structural)]
pub struct Checks {
    pub passed: usize,
    pub failed: usize,
    pub pending: usize,
}

impl Default for Checks {
    fn default() -> (r: Self)
        ensures
            r.passed == 0 && r.failed == 0 && r.pending == 0,
    {
        Checks { passed: 0, failed: 0, pending: 0 }
    }
}

/// The verdict of a set of checks, worst first; `None` when there are none.
pub open spec fn verdict(c: Checks) -> Option<CheckResult> {
    if c.passed + c.failed + c.pending == 0 {
        None
    } else if c.failed > 0 {
        Some(CheckResult::Fail)
    } else if c.pending > 0 {
        Some(CheckResult::Pending)
    } else {
        Some(CheckResult::Pass)
    }
}

/// `n` and a word, as `format!("{n} {word}")` writes it.
pub open spec fn counted(n: usize, word: Seq<char>) -> Seq<char> {
    decimal(n as nat) + " "@ + word
}

/// The human count: failures, then pending, then passes, each only when there
/// are some.
pub open spec fn summary_of(c: Checks) -> Seq<char> {
    let parts = (if c.failed > 0 {
        seq![counted(c.failed, "failed"@)]
    } else {
        Seq::empty()
    }) + (if c.pending > 0 {
        seq![counted(c.pending, "pending"@)]
    } else {
        Seq::empty()
    }) + (if c.passed > 0 {
        seq![counted(c.passed, "passed"@)]
    } else {
        Seq::empty()
    });
    join(parts, ", "@)
}

fn counted_string(n: usize, word: &str) -> (r: String)
    ensures
        r@ == counted(n, word@),
{
    let mut out = decimal_string(n as u64);
    out.append(" ");
    out.append(word);
    out
}

impl Checks {
    /// Tally `checks` into passed/failed/pending.
    pub fn of(checks: &[Check]) -> (r: Checks)
        ensures
            r.passed == tally(check_views(checks@), CheckResult::Pass),
            r.failed == tally(check_views(checks@), CheckResult::Fail),
            r.pending == tally(check_views(checks@), CheckResult::Pending),
    {
        let ghost cv = check_views(checks@);
        let mut out = Checks { passed: 0, failed: 0, pending: 0 };
        let mut i: usize = 0;
        while i < checks.len()
            invariant
                cv == check_views(checks@),
                i <= checks@.len(),
                out.passed == tally(cv.take(i as int), CheckResult::Pass),
                out.failed == tally(cv.take(i as int), CheckResult::Fail),
                out.pending == tally(cv.take(i as int), CheckResult::Pending),
            decreases checks@.len() - i,
        {
            proof {
                lemma_tally_bound(cv.take(i as int));
                assert(cv.take(i + 1).drop_last() =~= cv.take(i as int));
                assert(cv.take(i + 1).last() == checks@[i as int]@);
            }
            match checks[i].result() {
                CheckResult::Pass => out.passed = out.passed + 1,
                CheckResult::Fail => out.failed = out.failed + 1,
                CheckResult::Pending => out.pending = out.pending + 1,
            }
            i += 1;
        }
        assert(cv.take(checks@.len() as int) =~= cv);
        out
    }

    pub fn total(&self) -> (r: usize)
        requires
            self.passed + self.failed + self.pending <= usize::MAX,
        ensures
            r == self.passed + self.failed + self.pending,
    {
        self.passed + self.failed + self.pending
    }

    pub fn is_empty(&self) -> (r: bool)
        ensures
            r == (self.passed + self.failed + self.pending == 0),
    {
        self.passed == 0 && self.failed == 0 && self.pending == 0
    }

    /// The verdict, worst-first. Empty when there are no checks, so a
    /// repository without CI does not look like one whose checks have not
    /// started.
    pub fn tag(&self) -> (r: &'static str)
        ensures
            r@ == (match verdict(*self) {
                None => ""@,
                Some(CheckResult::Fail) => "fail"@,
                Some(CheckResult::Pending) => "pending"@,
                Some(CheckResult::Pass) => "pass"@,
            }),
    {
        if self.is_empty() {
            ""
        } else if self.failed > 0 {
            "fail"
        } else if self.pending > 0 {
            "pending"
        } else {
            "pass"
        }
    }

    /// The verdict as a single [`CheckResult`], or `None` when there are no
    /// checks to roll up.
    pub fn result(&self) -> (r: Option<CheckResult>)
        ensures
            r == verdict(*self),
    {
        if self.is_empty() {
            None
        } else if self.failed > 0 {
            Some(CheckResult::Fail)
        } else if self.pending > 0 {
            Some(CheckResult::Pending)
        } else {
            Some(CheckResult::Pass)
        }
    }

    /// The glyph for a list row, blank when the repository reports no checks
    /// at all.
    pub fn glyph(&self) -> (r: &'static str)
        ensures
            r@ == (match verdict(*self) {
                None => " "@,
                Some(CheckResult::Pass) => "✓"@,
                Some(CheckResult::Fail) => "✗"@,
                Some(CheckResult::Pending) => "⧗"@,
            }),
    {
        match self.result() {
            Some(res) => res.glyph(),
            None => NO_GLYPH,
        }
    }

    /// ANSI 256-colour index matching [`Self::tag`], grey when there is
    /// nothing to report.
    pub fn color(&self) -> (r: u8)
        ensures
            r == (match verdict(*self) {
                None => 8u8,
                Some(CheckResult::Pass) => 2u8,
                Some(CheckResult::Fail) => 1u8,
                Some(CheckResult::Pending) => 3u8,
            }),
    {
        match self.result() {
            Some(res) => res.color(),
            None => 8,
        }
    }

    /// A human count, e.g. `2 failed, 1 pending, 3 passed`. Empty when there
    /// are no checks.
    pub fn summary(&self) -> (r: String)
        ensures
            r@ == summary_of(*self),
    {
        let mut parts: Vec<String> = Vec::new();
        if self.failed > 0 {
            parts.push(counted_string(self.failed, "failed"));
        }
        if self.pending > 0 {
            parts.push(counted_string(self.pending, "pending"));
        }
        if self.passed > 0 {
            parts.push(counted_string(self.passed, "passed"));
        }
        let r = join_strings(&parts, ", ");
        assert(parts@.map_values(|p: String| p@) =~= (if self.failed > 0 {
            seq![counted(self.failed, "failed"@)]
        } else {
            Seq::empty()
        }) + (if self.pending > 0 {
            seq![counted(self.pending, "pending"@)]
        } else {
            Seq::empty()
        }) + (if self.passed > 0 {
            seq![counted(self.passed, "passed"@)]
        } else {
            Seq::empty()
        }));
        r
    }
}

// --- mergeability and readiness ---------------------------------------------

/// Whether GitHub thinks a pull request can be merged into its base.
#[derive(Debug, Clone, Copy, PartialEq, Eq, Structural)]
pub enum Mergeable {
    Clean,
    Conflicting,
    /// GitHub computes mergeability lazily and reports `UNKNOWN` until that
    /// job has run. Rendered as nothing rather than guessed at.
    Unknown,
}

pub open spec fn mergeable_of(raw: Seq<char>) -> Mergeable {
    if ci(raw, "MERGEABLE"@) {
        Mergeable::Clean
    } else if ci(raw, "CONFLICTING"@) {
        Mergeable::Conflicting
    } else {
        Mergeable::Unknown
    }
}

impl Mergeable {
    pub fn parse(raw: &str) -> (r: Mergeable)
        ensures
            r == mergeable_of(raw@),
    {
        if eq_ignore_case(raw, "MERGEABLE") {
            Mergeable::Clean
        } else if eq_ignore_case(raw, "CONFLICTING") {
            Mergeable::Conflicting
        } else {
            Mergeable::Unknown
        }
    }

    pub fn tag(self) -> (r: &'static str)
        ensures
            r@ == (match self {
                Mergeable::Clean => "clean"@,
                Mergeable::Conflicting => "conflict"@,
                Mergeable::Unknown => ""@,
            }),
    {
        match self {
            Mergeable::Clean => "clean",
            Mergeable::Conflicting => "conflict",
            Mergeable::Unknown => "",
        }
    }

    /// The glyph for a list row, and only for a conflict, which is the answer
    /// that changes what happens next.
    pub fn glyph(self) -> (r: &'static str)
        ensures
            r@ == (match self {
                Mergeable::Conflicting => "⊘"@,
                _ => " "@,
            }),
    {
        match self {
            Mergeable::Conflicting => "⊘",
            _ => NO_GLYPH,
        }
    }

    /// ANSI 256-colour index matching [`Self::tag`].
    pub fn color(self) -> (r: u8)
        ensures
            r == (match self {
                Mergeable::Clean => 2u8,
                Mergeable::Conflicting => 1u8,
                Mergeable::Unknown => 8u8,
            }),
    {
        match self {
            Mergeable::Clean => 2,
            Mergeable::Conflicting => 1,
            Mergeable::Unknown => 8,
        }
    }
}

/// Whether a pull request looks mergeable right now.
#[derive(Debug, Clone, Copy, PartialEq, Eq, Structural)]
pub enum Readiness {
    /// Nothing in the way: open, not a draft, no failing check, no conflict.
    Ready,
    /// Checks are still running.
    Waiting,
    /// A failing check or a conflict with the base branch.
    Blocked,
    /// Not a candidate at all — a draft, or already merged or closed.
    Unavailable,
}

impl Readiness {
    /// ANSI 256-colour index: the traffic light this describes.
    pub fn color(self) -> (r: u8)
        ensures
            r == (match self {
                Readiness::Ready => 2u8,
                Readiness::Waiting => 3u8,
                Readiness::Blocked => 1u8,
                Readiness::Unavailable => 8u8,
            }),
    {
        match self {
            Readiness::Ready => 2,
            Readiness::Waiting => 3,
            Readiness::Blocked => 1,
            Readiness::Unavailable => 8,
        }
    }
}

// --- pull requests ----------------------------------------------------------

#[derive(Debug, Clone, PartialEq, Eq)]
pub struct Author {
    pub login: String,
}

/// A pull request, as much of it as the selector needs.
#[derive(Debug, Clone, PartialEq, Eq)]
pub struct PullRequest {
    pub number: u64,
    pub title: String,
    /// Absent when the author's account is gone.
    pub author: Option<Author>,
    /// The PR's source branch.
    pub head_ref_name: String,
    pub is_draft: bool,
    /// `OPEN`, `CLOSED`, or `MERGED`.
    pub state: String,
    /// ISO-8601 timestamp, e.g. `2026-07-27T09:12:33Z`.
    pub updated_at: String,
    /// The description, as markdown. Empty when none was written.
    pub body: String,
    /// Every check reported against the head commit.
    pub status_check_rollup: Vec<Check>,
    /// `MERGEABLE`, `CONFLICTING`, or `UNKNOWN`. See [`Mergeable`].
    pub mergeable: String,
}

/// The checks of `cs` whose verdict is `r`, in order.
pub open spec fn with_result(cs: Seq<CheckView>, r: CheckResult) -> Seq<CheckView> {
    cs.filter_map(|c: CheckView| if check_result(c) == r { Some(c) } else { None })
}

pub open spec fn with_result_fn(r: CheckResult) -> spec_fn(CheckView) -> Option<CheckView> {
    |c: CheckView| if check_result(c) == r { Some(c) } else { None }
}

/// A pull request's readiness: unavailable unless open and not a draft;
/// blocked by a failing check or a conflict; waiting on a pending check.
pub open spec fn readiness_of(
    is_draft: bool,
    state: Seq<char>,
    checks: Checks,
    mergeable: Mergeable,
) -> Readiness {
    if is_draft || !ci(state, "OPEN"@) {
        Readiness::Unavailable
    } else if checks.failed > 0 || mergeable == Mergeable::Conflicting {
        Readiness::Blocked
    } else if checks.pending > 0 {
        Readiness::Waiting
    } else {
        Readiness::Ready
    }
}

/// What precedes the first `T` of a timestamp: its date.
pub open spec fn date_part(s: Seq<char>) -> Seq<char> {
    match s.index_of_first('T') {
        Some(i) => s.take(i),
        None => s,
    }
}

fn date_of(s: &str) -> (r: &str)
    ensures
        r@ == date_part(s@),
{
    let v = chars_of(s);
    assert(v@.subrange(0, v@.len() as int) =~= v@);
    proof {
        v@.index_of_first_ensures('T');
    }
    match find_in(&v, 0, v.len(), 'T') {
        Some(i) => {
            assert(s@.take(i as int) =~= s@.subrange(0, i as int));
            s.substring_char(0, i)
        },
        None => s,
    }
}

/// A pull request's colour: a merged or closed one is history first, a draft
/// is not ready to review, and an open one is.
pub open spec fn color_of(is_draft: bool, state: Seq<char>) -> u8 {
    if ci(state, "MERGED"@) {
        5
    } else if ci(state, "CLOSED"@) {
        1
    } else if is_draft {
        8
    } else {
        2
    }
}

pub open spec fn tag_of(is_draft: bool, state: Seq<char>) -> Seq<char> {
    if ci(state, "MERGED"@) {
        "merged"@
    } else if ci(state, "CLOSED"@) {
        "closed"@
    } else if is_draft {
        "draft"@
    } else {
        "open"@
    }
}

/// Colour a PR by what can be done with it — see [`color_of`].
pub fn color_for(is_draft: bool, state: &str) -> (r: u8)
    ensures
        r == color_of(is_draft, state@),
{
    if eq_ignore_case(state, "MERGED") {
        5
    } else if eq_ignore_case(state, "CLOSED") {
        1
    } else if is_draft {
        8
    } else {
        2
    }
}

/// The word for a PR's state, matching [`color_for`].
pub fn tag_for(is_draft: bool, state: &str) -> (r: &'static str)
    ensures
        r@ == tag_of(is_draft, state@),
{
    if eq_ignore_case(state, "MERGED") {
        "merged"
    } else if eq_ignore_case(state, "CLOSED") {
        "closed"
    } else if is_draft {
        "draft"
    } else {
        "open"
    }
}

impl PullRequest {
    pub fn author_login(&self) -> (r: &str)
        ensures
            r@ == (match self.author {
                Some(a) => a.login@,
                None => "unknown"@,
            }),
    {
        match &self.author {
            Some(a) => a.login.as_str(),
            None => "unknown",
        }
    }

    pub fn checks(&self) -> (r: Checks)
        ensures
            r.passed == tally(check_views(self.status_check_rollup@), CheckResult::Pass),
            r.failed == tally(check_views(self.status_check_rollup@), CheckResult::Fail),
            r.pending == tally(check_views(self.status_check_rollup@), CheckResult::Pending),
    {
        Checks::of(self.status_check_rollup.as_slice())
    }

    pub fn mergeable(&self) -> (r: Mergeable)
        ensures
            r == mergeable_of(self.mergeable@),
    {
        Mergeable::parse(self.mergeable.as_str())
    }

    /// Whether this looks mergeable — see [`readiness_of`]. A draft counts as
    /// unavailable rather than blocked.
    pub fn readiness(&self) -> (r: Readiness)
        ensures
            r == readiness_of(
                self.is_draft,
                self.state@,
                Checks {
                    passed: tally(check_views(self.status_check_rollup@), CheckResult::Pass) as usize,
                    failed: tally(check_views(self.status_check_rollup@), CheckResult::Fail) as usize,
                    pending: tally(check_views(self.status_check_rollup@), CheckResult::Pending) as usize,
                },
                mergeable_of(self.mergeable@),
            ),
    {
        if self.is_draft || !eq_ignore_case(self.state.as_str(), "OPEN") {
            return Readiness::Unavailable;
        }
        let checks = self.checks();
        if checks.failed > 0 || self.mergeable() == Mergeable::Conflicting {
            Readiness::Blocked
        } else if checks.pending > 0 {
            Readiness::Waiting
        } else {
            Readiness::Ready
        }
    }

    /// The checks that are not passing, failures first, each half keeping the
    /// rollup's own order.
    pub fn failing_checks(&self) -> (r: Vec<&Check>)
        ensures
            r@.map_values(|c: &Check| c@) == with_result(
                check_views(self.status_check_rollup@),
                CheckResult::Fail,
            ) + with_result(check_views(self.status_check_rollup@), CheckResult::Pending),
    {
        let ghost cv = check_views(self.status_check_rollup@);
        let mut failed: Vec<&Check> = Vec::new();
        let mut pending: Vec<&Check> = Vec::new();
        let mut i: usize = 0;
        while i < self.status_check_rollup.len()
            invariant
                cv == check_views(self.status_check_rollup@),
                i <= cv.len(),
                failed@.map_values(|c: &Check| c@) == cv.take(i as int).filter_map(
                    with_result_fn(CheckResult::Fail),
                ),
                pending@.map_values(|c: &Check| c@) == cv.take(i as int).filter_map(
                    with_result_fn(CheckResult::Pending),
                ),
            decreases cv.len() - i,
        {
            proof {
                cv.lemma_filter_map_take_succ(with_result_fn(CheckResult::Fail), i as int);
                cv.lemma_filter_map_take_succ(with_result_fn(CheckResult::Pending), i as int);
            }
            let ghost f0 = failed@.map_values(|c: &Check| c@);
            let ghost p0 = pending@.map_values(|c: &Check| c@);
            let check = &self.status_check_rollup[i];
            match check.result() {
                CheckResult::Pass => {},
                CheckResult::Fail => {
                    failed.push(check);
                    assert(failed@.map_values(|c: &Check| c@) =~= f0.push(check@));
                },
                CheckResult::Pending => {
                    pending.push(check);
                    assert(pending@.map_values(|c: &Check| c@) =~= p0.push(check@));
                },
            }
            proof {
                assert(cv[i as int] == check@);
                if check_result(check@) != CheckResult::Fail {
                    assert(f0 + Seq::<CheckView>::empty() =~= f0);
                } else {
                    assert(f0 + seq![check@] =~= f0.push(check@));
                }
                if check_result(check@) != CheckResult::Pending {
                    assert(p0 + Seq::<CheckView>::empty() =~= p0);
                } else {
                    assert(p0 + seq![check@] =~= p0.push(check@));
                }
            }
            i += 1;
        }
        assert(cv.take(cv.len() as int) =~= cv);
        let ghost f0 = failed@.map_values(|c: &Check| c@);
        let ghost p0 = pending@.map_values(|c: &Check| c@);
        failed.append(&mut pending);
        assert(failed@.map_values(|c: &Check| c@) =~= f0 + p0);
        assert(with_result(cv, CheckResult::Fail) == cv.filter_map(with_result_fn(CheckResult::Fail)));
        assert(with_result(cv, CheckResult::Pending) == cv.filter_map(with_result_fn(CheckResult::Pending)));
        failed
    }

    /// Just the date part of [`Self::updated_at`].
    pub fn updated_date(&self) -> (r: &str)
        ensures
            r@ == date_part(self.updated_at@),
    {
        date_of(self.updated_at.as_str())
    }

    /// ANSI 256-colour index for this PR, used in both the selector and `ls`.
    pub fn color(&self) -> (r: u8)
        ensures
            r == color_of(self.is_draft, self.state@),
    {
        color_for(self.is_draft, self.state.as_str())
    }

    pub fn tag(&self) -> (r: &'static str)
        ensures
            r@ == tag_of(self.is_draft, self.state@),
    {
        tag_for(self.is_draft, self.state.as_str())
    }
}


// --- the arguments `gh` is given --------------------------------------------

/// The arguments that list pull requests; `state` is passed through to `gh`
/// (`open`, `closed`, `merged`, `all`).
pub fn list(state: &str, limit: usize) -> (r: Vec<String>)
    ensures
        arg_views(r@) == seq![
            "pr"@,
            "list"@,
            "--json"@,
            FIELDS@,
            "--state"@,
            state@,
            "--limit"@,
            decimal(limit as nat),
        ],
{
    let mut args: Vec<String> = Vec::new();
    args.push(String::from_str("pr"));
    args.push(String::from_str("list"));
    args.push(String::from_str("--json"));
    args.push(String::from_str(FIELDS));
    args.push(String::from_str("--state"));
    args.push(String::from_str(state));
    args.push(String::from_str("--limit"));
    args.push(decimal_string(limit as u64));
    assert(arg_views(args@) =~= seq![
        "pr"@,
        "list"@,
        "--json"@,
        FIELDS@,
        "--state"@,
        state@,
        "--limit"@,
        decimal(limit as nat),
    ]);
    args
}

/// The arguments that check out a pull request's branch; `gh` creates the
/// local branch and sets its upstream, including for PRs from forks.
pub fn checkout(number: u64) -> (r: Vec<String>)
    ensures
        arg_views(r@) == seq!["pr"@, "checkout"@, decimal(number as nat)],
{
    let mut args: Vec<String> = Vec::new();
    args.push(String::from_str("pr"));
    args.push(String::from_str("checkout"));
    args.push(decimal_string(number));
    assert(arg_views(args@) =~= seq!["pr"@, "checkout"@, decimal(number as nat)]);
    args
}

/// The arguments that open a pull request in the browser.
pub fn view_web(number: u64) -> (r: Vec<String>)
    ensures
        arg_views(r@) == seq!["pr"@, "view"@, "--web"@, decimal(number as nat)],
{
    let mut args: Vec<String> = Vec::new();
    args.push(String::from_str("pr"));
    args.push(String::from_str("view"));
    args.push(String::from_str("--web"));
    args.push(decimal_string(number));
    assert(arg_views(args@) =~= seq!["pr"@, "view"@, "--web"@, decimal(number as nat)]);
    args
}

/// The arguments that open the repository's pull request list in the browser.
pub fn list_web() -> (r: Vec<String>)
    ensures
        arg_views(r@) == seq!["pr"@, "list"@, "--web"@],
{
    let mut args: Vec<String> = Vec::new();
    args.push(String::from_str("pr"));
    args.push(String::from_str("list"));
    args.push(String::from_str("--web"));
    assert(arg_views(args@) =~= seq!["pr"@, "list"@, "--web"@]);
    args
}

/// The arguments that ask for the most recent pull request opened from
/// `branch`, in any state: a branch whose pull request has merged still has
/// one.
pub fn pr_for_branch(branch: &str) -> (r: Vec<String>)
    ensures
        arg_views(r@) == seq![
            "pr"@,
            "list"@,
            "--head"@,
            branch@,
            "--state"@,
            "all"@,
            "--limit"@,
            "1"@,
            "--json"@,
            "number"@,
            "--jq"@,
            ".[0].number"@,
        ],
{
    let mut args: Vec<String> = Vec::new();
    args.push(String::from_str("pr"));
    args.push(String::from_str("list"));
    args.push(String::from_str("--head"));
    args.push(String::from_str(branch));
    args.push(String::from_str("--state"));
    args.push(String::from_str("all"));
    args.push(String::from_str("--limit"));
    args.push(String::from_str("1"));
    args.push(String::from_str("--json"));
    args.push(String::from_str("number"));
    args.push(String::from_str("--jq"));
    args.push(String::from_str(".[0].number"));
    assert(arg_views(args@) =~= seq![
        "pr"@,
        "list"@,
        "--head"@,
        branch@,
        "--state"@,
        "all"@,
        "--limit"@,
        "1"@,
        "--json"@,
        "number"@,
        "--jq"@,
        ".[0].number"@,
    ]);
    args
}

/// What [`pr_for_branch`]'s query printed, read: nothing is no pull request,
/// a number is that one, anything else is refused with what `gh` said.
pub open spec fn pr_number_of(out: Seq<char>, branch: Seq<char>) -> Result<Option<u64>, Seq<char>> {
    let t = trim(out);
    if t.len() == 0 {
        Ok(None)
    } else {
        match parse_nat(t) {
            Some(n) => if n <= u64::MAX {
                Ok(Some(n as u64))
            } else {
                Err(not_a_number(t, branch))
            },
            None => Err(not_a_number(t, branch)),
        }
    }
}

pub open spec fn not_a_number(out: Seq<char>, branch: Seq<char>) -> Seq<char> {
    "gh returned `"@ + out + "` as the pull request number for "@ + branch
}

/// Read the number [`pr_for_branch`]'s query printed — see [`pr_number_of`].
pub fn pr_number(out: &str, branch: &str) -> (r: Result<Option<u64>, String>)
    ensures
        match r {
            Ok(n) => pr_number_of(out@, branch@) == Ok::<Option<u64>, Seq<char>>(n),
            Err(m) => pr_number_of(out@, branch@) == Err::<Option<u64>, Seq<char>>(m@),
        },
{
    let v = chars_of(out);
    assert(v@.subrange(0, v@.len() as int) =~= v@);
    let (a, b) = trim_range(&v, 0, v.len());
    if a == b {
        return Ok(None);
    }
    match parse_unsigned(&v, a, b, u64::MAX) {
        Some(n) => Ok(Some(n)),
        None => {
            let mut m = String::from_str("gh returned `");
            m.append(string_of(&v, a, b).as_str());
            m.append("` as the pull request number for ");
            m.append(branch);
            Err(m)
        },
    }
}

/// How to merge a pull request. `None` at the call site leaves the choice to
/// `gh`, which asks.
#[derive(Debug, Clone, Copy, PartialEq, Eq, Structural)]
pub enum MergeMethod {
    Merge,
    Squash,
    Rebase,
}

pub open spec fn flag_of(m: MergeMethod) -> Seq<char> {
    match m {
        MergeMethod::Merge => "--merge"@,
        MergeMethod::Squash => "--squash"@,
        MergeMethod::Rebase => "--rebase"@,
    }
}

impl MergeMethod {
    pub fn flag(self) -> (r: &'static str)
        ensures
            r@ == flag_of(self),
    {
        match self {
            MergeMethod::Merge => "--merge",
            MergeMethod::Squash => "--squash",
            MergeMethod::Rebase => "--rebase",
        }
    }
}

/// The arguments that merge a pull request. With no `method`, `gh` prompts for
/// one.
pub fn merge(number: u64, method: Option<MergeMethod>, delete_branch: bool, auto: bool) -> (r: Vec<
    String,
>)
    ensures
        arg_views(r@) == seq!["pr"@, "merge"@, decimal(number as nat)] + (match method {
            Some(m) => seq![flag_of(m)],
            None => Seq::empty(),
        }) + (if delete_branch {
            seq!["--delete-branch"@]
        } else {
            Seq::empty()
        }) + (if auto {
            seq!["--auto"@]
        } else {
            Seq::empty()
        }),
{
    let mut args: Vec<String> = Vec::new();
    args.push(String::from_str("pr"));
    args.push(String::from_str("merge"));
    args.push(decimal_string(number));
    let ghost a0 = arg_views(args@);
    match method {
        Some(m) => args.push(String::from_str(m.flag())),
        None => {},
    }
    let ghost a1 = arg_views(args@);
    assert(a1 =~= a0 + (match method {
        Some(m) => seq![flag_of(m)],
        None => Seq::empty(),
    }));
    if delete_branch {
        args.push(String::from_str("--delete-branch"));
    }
    let ghost a2 = arg_views(args@);
    assert(a2 =~= a1 + (if delete_branch {
        seq!["--delete-branch"@]
    } else {
        Seq::empty()
    }));
    if auto {
        args.push(String::from_str("--auto"));
    }
    assert(arg_views(args@) =~= a2 + (if auto {
        seq!["--auto"@]
    } else {
        Seq::empty()
    }));
    assert(a0 =~= seq!["pr"@, "merge"@, decimal(number as nat)]);
    args
}

// --- repositories -----------------------------------------------------------

/// Who can see a repository. `Internal` exists only under an enterprise.
#[derive(Debug, Clone, Copy, PartialEq, Eq, Structural)]
pub enum Visibility {
    Public,
    Private,
    Internal,
}

/// Anything GitHub did not say is public: the safe direction to be wrong in.
pub open spec fn visibility_of(raw: Seq<char>) -> Visibility {
    if ci(raw, "PRIVATE"@) {
        Visibility::Private
    } else if ci(raw, "INTERNAL"@) {
        Visibility::Internal
    } else {
        Visibility::Public
    }
}

pub open spec fn visibility_tag(v: Visibility) -> Seq<char> {
    match v {
        Visibility::Public => ""@,
        Visibility::Private => "private"@,
        Visibility::Internal => "internal"@,
    }
}

impl Visibility {
    /// Read GitHub's word for who can see a repository — see
    /// [`visibility_of`].
    pub fn parse(raw: &str) -> (r: Visibility)
        ensures
            r == visibility_of(raw@),
    {
        if eq_ignore_case(raw, "PRIVATE") {
            Visibility::Private
        } else if eq_ignore_case(raw, "INTERNAL") {
            Visibility::Internal
        } else {
            Visibility::Public
        }
    }

    /// The tag for a list row, empty for the case that says nothing.
    pub fn tag(self) -> (r: &'static str)
        ensures
            r@ == visibility_tag(self),
    {
        match self {
            Visibility::Public => "",
            Visibility::Private => "private",
            Visibility::Internal => "internal",
        }
    }

    /// ANSI 256-colour index, or `None` for public — the ordinary case keeps
    /// the terminal's own foreground.
    pub fn color(self) -> (r: Option<u8>)
        ensures
            r == (match self {
                Visibility::Public => None,
                Visibility::Private => Some(3u8),
                Visibility::Internal => Some(5u8),
            }),
    {
        match self {
            Visibility::Public => None,
            Visibility::Private => Some(3),
            Visibility::Internal => Some(5),
        }
    }
}

/// A repository on GitHub, as much of it as the clone selector needs.
#[derive(Debug, Clone, PartialEq, Eq)]
pub struct Repo {
    /// `owner/name`.
    pub full_name: String,
    /// Null for a repository with no description.
    pub description: Option<String>,
    /// GitHub's own word: `public`, `private` or `internal`.
    pub visibility: String,
    pub archived: bool,
    pub fork: bool,
    /// The language GitHub counts most of, null for a repository with none.
    pub language: Option<String>,
    /// ISO-8601 timestamp of the last push.
    pub pushed_at: String,
}

pub struct RepoView {
    pub full_name: Seq<char>,
    pub description: Option<Seq<char>>,
    pub visibility: Seq<char>,
    pub archived: bool,
    pub fork: bool,
    pub language: Option<Seq<char>>,
    pub pushed_at: Seq<char>,
}

pub open spec fn opt_seq(o: Option<String>) -> Option<Seq<char>> {
    match o {
        Some(s) => Some(s@),
        None => None,
    }
}

impl View for Repo {
    type V = RepoView;

    open spec fn view(&self) -> RepoView {
        RepoView {
            full_name: self.full_name@,
            description: opt_seq(self.description),
            visibility: self.visibility@,
            archived: self.archived,
            fork: self.fork,
            language: opt_seq(self.language),
            pushed_at: self.pushed_at@,
        }
    }
}

fn copy_opt(o: &Option<String>) -> (r: Option<String>)
    ensures
        opt_seq(r) == opt_seq(*o),
{
    match o {
        Some(s) => Some(s.clone()),
        None => None,
    }
}

impl Default for Repo {
    fn default() -> (r: Self)
        ensures
            r.full_name@ == Seq::<char>::empty(),
            r.description is None,
            r.visibility@ == Seq::<char>::empty(),
            !r.archived,
            !r.fork,
            r.language is None,
            r.pushed_at@ == Seq::<char>::empty(),
    {
        Repo {
            full_name: String::new(),
            description: None,
            visibility: String::new(),
            archived: false,
            fork: false,
            language: None,
            pushed_at: String::new(),
        }
    }
}

pub open spec fn opt_text(o: Option<String>) -> Seq<char> {
    match o {
        Some(s) => s@,
        None => Seq::empty(),
    }
}

/// The tags worth showing: what makes a repository unusual.
pub open spec fn repo_tags(archived: bool, visibility: Visibility, fork: bool) -> Seq<Seq<char>> {
    (if archived {
        seq!["archived"@]
    } else {
        Seq::empty()
    }) + (if visibility_tag(visibility).len() > 0 {
        seq![visibility_tag(visibility)]
    } else {
        Seq::empty()
    }) + (if fork {
        seq!["fork"@]
    } else {
        Seq::empty()
    })
}

impl Repo {
    /// A copy of this repository, field for field.
    pub fn duplicate(&self) -> (r: Repo)
        ensures
            r@ == self@,
    {
        Repo {
            full_name: self.full_name.clone(),
            description: copy_opt(&self.description),
            visibility: self.visibility.clone(),
            archived: self.archived,
            fork: self.fork,
            language: copy_opt(&self.language),
            pushed_at: self.pushed_at.clone(),
        }
    }

    /// The repository name without its owner — the directory it clones into.
    pub fn name(&self) -> (r: &str)
        ensures
            r@ == (match split_once(self.full_name@, '/') {
                Some((_, name)) => name,
                None => self.full_name@,
            }),
    {
        let s = self.full_name.as_str();
        let v = chars_of(s);
        assert(v@.subrange(0, v@.len() as int) =~= v@);
        proof {
            s@.index_of_first_ensures('/');
        }
        match find_in(&v, 0, v.len(), '/') {
            Some(i) => s.substring_char(i + 1, v.len()),
            None => s,
        }
    }

    pub fn owner(&self) -> (r: &str)
        ensures
            r@ == (match split_once(self.full_name@, '/') {
                Some((owner, _)) => owner,
                None => Seq::empty(),
            }),
    {
        let s = self.full_name.as_str();
        let v = chars_of(s);
        assert(v@.subrange(0, v@.len() as int) =~= v@);
        proof {
            s@.index_of_first_ensures('/');
            reveal_strlit("");
        }
        match find_in(&v, 0, v.len(), '/') {
            Some(i) => s.substring_char(0, i),
            None => "",
        }
    }

    /// What `owner/name` is written as everywhere a slug is wanted.
    pub fn name_with_owner(&self) -> (r: &str)
        ensures
            r@ == self.full_name@,
    {
        self.full_name.as_str()
    }

    pub fn description(&self) -> (r: &str)
        ensures
            r@ == opt_text(self.description),
    {
        proof {
            reveal_strlit("");
        }
        match &self.description {
            Some(d) => d.as_str(),
            None => "",
        }
    }

    pub fn language(&self) -> (r: &str)
        ensures
            r@ == opt_text(self.language),
    {
        proof {
            reveal_strlit("");
        }
        match &self.language {
            Some(l) => l.as_str(),
            None => "",
        }
    }

    /// Just the date part of [`Self::pushed_at`].
    pub fn pushed_date(&self) -> (r: &str)
        ensures
            r@ == date_part(self.pushed_at@),
    {
        date_of(self.pushed_at.as_str())
    }

    pub fn visibility(&self) -> (r: Visibility)
        ensures
            r == visibility_of(self.visibility@),
    {
        Visibility::parse(self.visibility.as_str())
    }

    /// The one-word tags worth showing. A public, unarchived, non-fork
    /// repository is the default and says nothing.
    pub fn tags(&self) -> (r: Vec<&'static str>)
        ensures
            r@.map_values(|t: &str| t@) == repo_tags(
                self.archived,
                visibility_of(self.visibility@),
                self.fork,
            ),
    {
        let mut tags: Vec<&'static str> = Vec::new();
        if self.archived {
            tags.push("archived");
        }
        let ghost t0 = tags@.map_values(|t: &str| t@);
        let visibility = self.visibility().tag();
        if visibility.unicode_len() > 0 {
            tags.push(visibility);
        }
        let ghost t1 = tags@.map_values(|t: &str| t@);
        if self.fork {
            tags.push("fork");
        }
        assert(t0 =~= (if self.archived {
            seq!["archived"@]
        } else {
            Seq::empty()
        }));
        assert(t1 =~= t0 + (if visibility_tag(visibility_of(self.visibility@)).len() > 0 {
            seq![visibility_tag(visibility_of(self.visibility@))]
        } else {
            Seq::empty()
        }));
        assert(tags@.map_values(|t: &str| t@) =~= t1 + (if self.fork {
            seq!["fork"@]
        } else {
            Seq::empty()
        }));
        tags
    }
}

/// A character GitHub allows in an owner or repository name.
pub open spec fn slug_char(c: char) -> bool {
    is_ascii_alnum(c) || c == '-' || c == '_' || c == '.'
}

pub open spec fn slug_part(p: Seq<char>) -> bool {
    &&& p.len() > 0
    &&& p[0] != '-'
    &&& forall|i: int| 0 <= i < p.len() ==> slug_char(#[trigger] p[i])
    &&& p != seq!['.', '.']
    &&& p != seq!['.']
}

/// An `owner` or `owner/repo` scriv will act on: one or two parts, each
/// non-empty, not starting with `-`, made of GitHub's name characters, and
/// neither `.` nor `..`.
pub open spec fn valid_slug_of(slug: Seq<char>) -> bool {
    let parts = split(slug, '/');
    1 <= parts.len() <= 2 && forall|i: int| 0 <= i < parts.len() ==> slug_part(#[trigger] parts[i])
}

fn slug_part_ok(p: &Vec<char>) -> (r: bool)
    ensures
        r == slug_part(p@),
{
    let n = p.len();
    if n == 0 || p[0] == '-' {
        return false;
    }
    let mut i: usize = 0;
    while i < n
        invariant
            n == p@.len(),
            i <= n,
            forall|j: int| 0 <= j < i ==> slug_char(#[trigger] p@[j]),
        decreases n - i,
    {
        let c = p[i];
        if !(crate::text::ascii_alnum(c) || c == '-' || c == '_' || c == '.') {
            assert(!slug_char(p@[i as int]));
            return false;
        }
        i += 1;
    }
    if n == 2 && p[0] == '.' && p[1] == '.' {
        assert(p@ =~= seq!['.', '.']);
        return false;
    }
    if n == 1 && p[0] == '.' {
        assert(p@ =~= seq!['.']);
        return false;
    }
    proof {
        if p@ == seq!['.', '.'] {
            assert(p@[0] == '.' && p@[1] == '.');
        }
        if p@ == seq!['.'] {
            assert(p@[0] == '.');
        }
    }
    true
}

/// Whether `slug` is a GitHub `owner` or `owner/repo` scriv will act on. It is
/// a positional argument to `gh` and a component of the clone path: a leading
/// `-` reads as a flag, and `..` or an extra `/` escapes the root.
pub fn valid_slug(slug: &str) -> (r: bool)
    ensures
        r == valid_slug_of(slug@),
{
    let v = chars_of(slug);
    assert(v@.subrange(0, v@.len() as int) =~= v@);
    let parts = split_range(&v, 0, v.len(), '/');
    let ghost pv = parts@.map_values(|p: Vec<char>| p@);
    if parts.len() < 1 || parts.len() > 2 {
        return false;
    }
    let mut i: usize = 0;
    while i < parts.len()
        invariant
            pv == parts@.map_values(|p: Vec<char>| p@),
            pv == split(slug@, '/'),
            i <= parts@.len(),
            forall|j: int| 0 <= j < i ==> slug_part(#[trigger] pv[j]),
        decreases parts@.len() - i,
    {
        if !slug_part_ok(&parts[i]) {
            assert(!slug_part(pv[i as int]));
            return false;
        }
        i += 1;
    }
    true
}

// --- paging through an owner's repositories ---------------------------------

/// Where an owner's repositories are listed. GitHub keeps orgs, other people
/// and the authenticated user in three different places, and only the last of
/// them shows the private repositories the token's owner has.
#[derive(Debug, Clone, PartialEq, Eq)]
pub enum Source {
    Org(String),
    Person(String),
    /// The authenticated user themselves, whose private repositories
    /// `users/{login}/repos` would hide.
    Me,
}

pub enum SourceView {
    Org(Seq<char>),
    Person(Seq<char>),
    Me,
}

impl View for Source {
    type V = SourceView;

    open spec fn view(&self) -> SourceView {
        match self {
            Source::Org(o) => SourceView::Org(o@),
            Source::Person(o) => SourceView::Person(o@),
            Source::Me => SourceView::Me,
        }
    }
}

pub open spec fn page_query(page: usize) -> Seq<char> {
    "per_page="@ + decimal(PAGE_SIZE as nat) + "&page="@ + decimal(page as nat)
}

/// The path one page of a listing is read from.
pub open spec fn page_path(source: SourceView, page: usize) -> Seq<char> {
    match source {
        SourceView::Org(o) => "orgs/"@ + o + "/repos?"@ + page_query(page),
        SourceView::Person(o) => "users/"@ + o + "/repos?"@ + page_query(page),
        SourceView::Me => "user/repos?affiliation=owner&"@ + page_query(page),
    }
}

impl Source {
    /// The path one page of this listing is read from.
    pub fn page(&self, page: usize) -> (r: String)
        ensures
            r@ == page_path(self@, page),
    {
        let mut out = match self {
            Source::Org(owner) => {
                let mut o = String::from_str("orgs/");
                o.append(owner.as_str());
                o.append("/repos?");
                o
            },
            Source::Person(owner) => {
                let mut o = String::from_str("users/");
                o.append(owner.as_str());
                o.append("/repos?");
                o
            },
            Source::Me => String::from_str("user/repos?affiliation=owner&"),
        };
        let ghost head = out@;
        out.append("per_page=");
        push_decimal(&mut out, PAGE_SIZE as u64);
        out.append("&page=");
        push_decimal(&mut out, page as u64);
        assert(out@ =~= head + page_query(page));
        out
    }
}

/// Where `owner` keeps repositories once GitHub has said it is no org: the
/// token's own owner is [`Source::Me`], anyone else a person. `login` is who
/// the token belongs to, `None` when that could not be learned.
pub fn person_or_me(owner: &str, login: Option<&str>) -> (r: Source)
    ensures
        r@ == (match login {
            Some(l) => if ci(l@, owner@) {
                SourceView::Me
            } else {
                SourceView::Person(owner@)
            },
            None => SourceView::Person(owner@),
        }),
{
    match login {
        Some(l) => {
            if eq_ignore_case(l, owner) {
                return Source::Me;
            }
        },
        None => {},
    }
    Source::Person(String::from_str(owner))
}

/// The first item of `s` that `p` holds of.
pub open spec fn first_where(s: Seq<Seq<char>>, p: spec_fn(Seq<char>) -> bool) -> Option<Seq<char>>
    decreases s.len(),
{
    if s.len() == 0 {
        None
    } else if p(s[0]) {
        Some(s[0])
    } else {
        first_where(s.drop_first(), p)
    }
}

/// A header line named `link`, in any case.
pub open spec fn is_link_line(l: Seq<char>) -> bool {
    match split_once(l, ':') {
        Some((name, _)) => ci(name, "link"@),
        None => false,
    }
}

pub open spec fn is_last_rel(part: Seq<char>) -> bool {
    find_sub(part, "rel=\"last\""@) is Some
}

/// What follows the page parameter of a link: after `&page=`, else after
/// `?page=` — on the separator, since `per_page=100` ends in `page=` too.
pub open spec fn page_tail(part: Seq<char>) -> Option<Seq<char>> {
    match crate::text::split_once_str(part, "&page="@) {
        Some((_, rest)) => Some(rest),
        None => match crate::text::split_once_str(part, "?page="@) {
            Some((_, rest)) => Some(rest),
            None => None,
        },
    }
}

/// How many characters `s` starts with that are digits.
pub open spec fn digit_run(s: Seq<char>) -> nat
    decreases s.len(),
{
    if s.len() > 0 && is_digit(s[0]) {
        1 + digit_run(s.drop_first())
    } else {
        0
    }
}

pub open spec fn page_number(part: Seq<char>) -> Option<usize> {
    match page_tail(part) {
        Some(rest) => match parse_nat(rest.take(digit_run(rest) as int)) {
            Some(n) => if n <= usize::MAX {
                Some(n as usize)
            } else {
                None
            },
            None => None,
        },
        None => None,
    }
}

/// The last page of a listing, from the `Link` header GitHub sends with the
/// first: the page number of its `rel="last"` link; 1 when there is none.
pub open spec fn last_page_of(headers: Seq<char>) -> usize {
    match first_where(crate::text::lines(headers), |l: Seq<char>| is_link_line(l)) {
        Some(link) => match first_where(split(link, ','), |p: Seq<char>| is_last_rel(p)) {
            Some(part) => match page_number(part) {
                Some(n) => n,
                None => 1,
            },
            None => 1,
        },
        None => 1,
    }
}

fn first_link(ls: &Vec<Vec<char>>) -> (r: Option<usize>)
    ensures
        match r {
            Some(i) => i < ls@.len() && first_where(
                ls@.map_values(|p: Vec<char>| p@),
                |l: Seq<char>| is_link_line(l),
            ) == Some(ls@[i as int]@),
            None => first_where(ls@.map_values(|p: Vec<char>| p@), |l: Seq<char>| is_link_line(l))
                is None,
        },
{
    let ghost lv = ls@.map_values(|p: Vec<char>| p@);
    let ghost pred = |l: Seq<char>| is_link_line(l);
    let mut i: usize = 0;
    assert(lv.skip(0) =~= lv);
    while i < ls.len()
        invariant
            lv == ls@.map_values(|p: Vec<char>| p@),
            pred == (|l: Seq<char>| is_link_line(l)),
            i <= lv.len(),
            first_where(lv, pred) == first_where(lv.skip(i as int), pred),
        decreases lv.len() - i,
    {
        let l = &ls[i];
        assert(lv.skip(i as int)[0] == l@);
        assert(lv.skip(i as int).drop_first() =~= lv.skip(i + 1));
        proof {
            l@.index_of_first_ensures(':');
        }
        assert(l@.subrange(0, l@.len() as int) =~= l@);
        match find_in(l, 0, l.len(), ':') {
            Some(k) => {
                if range_eq_ci(l, 0, k, "link") {
                    return Some(i);
                }
            },
            None => {},
        }
        i += 1;
    }
    assert(lv.skip(lv.len() as int).len() == 0);
    None
}

fn first_last_rel(parts: &Vec<Vec<char>>) -> (r: Option<usize>)
    ensures
        match r {
            Some(i) => i < parts@.len() && first_where(
                parts@.map_values(|p: Vec<char>| p@),
                |p: Seq<char>| is_last_rel(p),
            ) == Some(parts@[i as int]@),
            None => first_where(parts@.map_values(|p: Vec<char>| p@), |p: Seq<char>| is_last_rel(p))
                is None,
        },
{
    let ghost pv = parts@.map_values(|p: Vec<char>| p@);
    let ghost pred = |p: Seq<char>| is_last_rel(p);
    let mut i: usize = 0;
    assert(pv.skip(0) =~= pv);
    while i < parts.len()
        invariant
            pv == parts@.map_values(|p: Vec<char>| p@),
            pred == (|p: Seq<char>| is_last_rel(p)),
            i <= pv.len(),
            first_where(pv, pred) == first_where(pv.skip(i as int), pred),
        decreases pv.len() - i,
    {
        let p = &parts[i];
        assert(pv.skip(i as int)[0] == p@);
        assert(pv.skip(i as int).drop_first() =~= pv.skip(i + 1));
        assert(p@.subrange(0, p@.len() as int) =~= p@);
        if find_str_in(p, 0, p.len(), "rel=\"last\"").is_some() {
            return Some(i);
        }
        i += 1;
    }
    assert(pv.skip(pv.len() as int).len() == 0);
    None
}

fn page_number_in(part: &Vec<char>) -> (r: Option<usize>)
    ensures
        r == page_number(part@),
{
    let n = part.len();
    assert(part@.subrange(0, n as int) =~= part@);
    proof {
        crate::text::lemma_find_sub(part@, "&page="@);
        crate::text::lemma_find_sub(part@, "?page="@);
    }
    let start = match find_str_in(part, 0, n, "&page=") {
        Some(i) => i + "&page=".unicode_len(),
        None => match find_str_in(part, 0, n, "?page=") {
            Some(i) => i + "?page=".unicode_len(),
            None => {
                return None;
            },
        },
    };
    proof {
        crate::text::lemma_find_sub(part@, "&page="@);
        crate::text::lemma_find_sub(part@, "?page="@);
    }
    assert(start <= n);
    let ghost rest = part@.subrange(start as int, n as int);
    assert(page_tail(part@) == Some(rest));
    let mut j = start;
    while j < n && digit(part[j])
        invariant
            start <= j <= n == part@.len(),
            rest == part@.subrange(start as int, n as int),
            digit_run(rest) == (j - start) + digit_run(part@.subrange(j as int, n as int)),
            forall|k: int| start <= k < j ==> is_digit(#[trigger] part@[k]),
        decreases n - j,
    {
        assert(part@.subrange(j as int, n as int).drop_first() =~= part@.subrange(j + 1, n as int));
        j += 1;
    }
    assert(digit_run(part@.subrange(j as int, n as int)) == 0);
    assert(rest.take(digit_run(rest) as int) =~= part@.subrange(start as int, j as int));
    match parse_unsigned(part, start, j, usize::MAX as u64) {
        Some(m) => Some(m as usize),
        None => None,
    }
}

/// The last page of a listing, read from the `Link` header GitHub sends with
/// the first — `<…page=4>; rel="last"`. One page when there is no such link,
/// which is what a listing that fits in one says.
pub fn last_page(headers: &str) -> (r: usize)
    ensures
        r == last_page_of(headers@),
{
    let ls = crate::text::lines_of(headers);
    match first_link(&ls) {
        Some(i) => {
            let link = &ls[i];
            assert(link@.subrange(0, link@.len() as int) =~= link@);
            let parts = split_range(link, 0, link.len(), ',');
            match first_last_rel(&parts) {
                Some(k) => match page_number_in(&parts[k]) {
                    Some(n) => n,
                    None => 1,
                },
                None => 1,
            }
        },
        None => 1,
    }
}

/// Split what `gh api --include` prints into its headers and its body, at the
/// first blank line; a response with none is all body.
pub open spec fn split_response_of(raw: Seq<char>) -> (Seq<char>, Seq<char>) {
    match crate::text::split_once_str(raw, "\r\n\r\n"@) {
        Some(hb) => hb,
        None => match crate::text::split_once_str(raw, "\n\n"@) {
            Some(hb) => hb,
            None => (Seq::empty(), raw),
        },
    }
}

/// Split what `gh api --include` prints into its headers and its body. A
/// response with no blank line in it is all body, which is what an error page
/// scriv should try to parse anyway looks like.
pub fn split_response(raw: &str) -> (r: (&str, &str))
    ensures
        (r.0@, r.1@) == split_response_of(raw@),
{
    let v = chars_of(raw);
    let n = v.len();
    assert(v@.subrange(0, n as int) =~= v@);
    proof {
        crate::text::lemma_find_sub(raw@, "\r\n\r\n"@);
        crate::text::lemma_find_sub(raw@, "\n\n"@);
    }
    match find_str_in(&v, 0, n, "\r\n\r\n") {
        Some(i) => {
            let k = i + "\r\n\r\n".unicode_len();
            assert(raw@.take(i as int) =~= raw@.subrange(0, i as int));
            assert(raw@.skip(k as int) =~= raw@.subrange(k as int, n as int));
            return (raw.substring_char(0, i), raw.substring_char(k, n));
        },
        None => {},
    }
    match find_str_in(&v, 0, n, "\n\n") {
        Some(i) => {
            let k = i + "\n\n".unicode_len();
            assert(raw@.take(i as int) =~= raw@.subrange(0, i as int));
            assert(raw@.skip(k as int) =~= raw@.subrange(k as int, n as int));
            (raw.substring_char(0, i), raw.substring_char(k, n))
        },
        None => {
            proof {
                reveal_strlit("");
            }
            ("", raw)
        },
    }
}

/// Whether a failed `gh api` call failed because there is no such thing, as
/// opposed to a network or an authentication failure. Only that one is worth
/// trying somewhere else.
pub fn is_not_found(message: &str) -> (r: bool)
    ensures
        r == (find_sub(message@, "HTTP 404"@) is Some || find_sub(message@, "Not Found"@) is Some),
{
    let v = chars_of(message);
    assert(v@.subrange(0, v@.len() as int) =~= v@);
    find_str_in(&v, 0, v.len(), "HTTP 404").is_some() || find_str_in(&v, 0, v.len(), "Not Found").is_some()
}

/// How many pages a listing of at most `limit` repositories is capped at:
/// `limit` divided by [`PAGE_SIZE`], rounded up, and at least one.
pub open spec fn page_cap_of(limit: usize) -> nat {
    let pages: int = (limit + PAGE_SIZE - 1) / (PAGE_SIZE as int);
    if pages == 0 {
        1
    } else {
        pages as nat
    }
}

/// How many pages a listing of at most `limit` repositories is capped at.
pub fn page_cap(limit: usize) -> (r: usize)
    ensures
        r == page_cap_of(limit),
{
    let pages = limit / PAGE_SIZE + if limit % PAGE_SIZE != 0 {
        1usize
    } else {
        0usize
    };
    assert((limit + 99) / 100 == limit / 100 + if limit % 100 != 0 {
        1int
    } else {
        0int
    }) by (nonlinear_arith);
    if pages == 0 {
        1
    } else {
        pages
    }
}

/// How many pages are asked for before the first says how many there are:
/// [`SPECULATIVE_PAGES`], or fewer when the cap is lower.
pub fn speculative_pages(cap: usize) -> (r: usize)
    ensures
        r == (if cap < SPECULATIVE_PAGES {
            cap
        } else {
            SPECULATIVE_PAGES
        }),
{
    if cap < SPECULATIVE_PAGES {
        cap
    } else {
        SPECULATIVE_PAGES
    }
}

/// The pages still to fetch once the first has said the listing ends at
/// `last`: from the one after the `speculative` already asked for to the
/// lesser of `last` and `cap`, or none.
pub fn remaining_pages(last: usize, cap: usize, speculative: usize) -> (r: Option<(usize, usize)>)
    ensures
        match r {
            Some((first, end)) => {
                let wanted = if last < cap {
                    last
                } else {
                    cap
                };
                &&& wanted > speculative
                &&& first == speculative + 1
                &&& end == wanted
            },
            None => (if last < cap {
                last
            } else {
                cap
            }) <= speculative,
        },
{
    let wanted = if last < cap {
        last
    } else {
        cap
    };
    if wanted > speculative {
        Some((speculative + 1, wanted))
    } else {
        None
    }
}

pub open spec fn kept_fn(archived: bool) -> spec_fn(RepoView) -> Option<RepoView> {
    |r: RepoView| if archived || !r.archived { Some(r) } else { None }
}

pub open spec fn repo_views(rs: Seq<Repo>) -> Seq<RepoView> {
    rs.map_values(|r: Repo| r@)
}

/// The pages' repositories in page order, archived ones only when
/// `archived`, and at most `limit` of them.
pub open spec fn listed(pages: Seq<Seq<RepoView>>, limit: usize, archived: bool) -> Seq<RepoView> {
    let kept = pages.flatten().filter_map(kept_fn(archived));
    if kept.len() <= limit {
        kept
    } else {
        kept.take(limit as int)
    }
}

/// Every repository of the fetched `pages`, archived ones only when
/// `archived`, and at most `limit` of them. Archived rows are dropped after
/// the fact — GitHub's listing has no filter for them.
pub fn list_repos(pages: Vec<Vec<Repo>>, limit: usize, archived: bool) -> (r: Vec<Repo>)
    ensures
        repo_views(r@) == listed(pages@.map_values(|p: Vec<Repo>| repo_views(p@)), limit, archived),
{
    let ghost pv = pages@.map_values(|p: Vec<Repo>| repo_views(p@));
    let mut all: Vec<Repo> = Vec::new();
    let mut i: usize = 0;
    while i < pages.len()
        invariant
            pv == pages@.map_values(|p: Vec<Repo>| repo_views(p@)),
            i <= pages@.len(),
            repo_views(all@) == pv.take(i as int).flatten(),
        decreases pages@.len() - i,
    {
        let page = &pages[i];
        let ghost before = repo_views(all@);
        let mut k: usize = 0;
        while k < page.len()
            invariant
                k <= page@.len(),
                repo_views(all@) == before + repo_views(page@).take(k as int),
            decreases page@.len() - k,
        {
            let ghost b = repo_views(all@);
            let d = page[k].duplicate();
            all.push(d);
            assert(repo_views(all@) =~= b.push(d@));
            assert(repo_views(page@).take(k + 1) =~= repo_views(page@).take(k as int).push(page@[k as int]@));
            k += 1;
        }
        proof {
            assert(repo_views(page@).take(page@.len() as int) =~= repo_views(page@));
            assert(pv.take(i + 1).drop_last() =~= pv.take(i as int));
            assert(pv.take(i + 1).last() == repo_views(page@));
            pv.take(i as int).lemma_flatten_push(pv[i as int]);
            assert(pv.take(i as int).push(pv[i as int]) =~= pv.take(i + 1));
        }
        i += 1;
    }
    assert(pv.take(pages@.len() as int) =~= pv);
    let ghost flat = repo_views(all@);
    let mut out: Vec<Repo> = Vec::new();
    let mut j: usize = 0;
    while j < all.len()
        invariant
            flat == repo_views(all@),
            j <= flat.len(),
            repo_views(out@) == flat.take(j as int).filter_map(kept_fn(archived)),
        decreases flat.len() - j,
    {
        proof {
            flat.lemma_filter_map_take_succ(kept_fn(archived), j as int);
        }
        let ghost b = repo_views(out@);
        if archived || !all[j].archived {
            let d = all[j].duplicate();
            out.push(d);
            assert(repo_views(out@) =~= b.push(d@));
        } else {
            assert(b + Seq::<RepoView>::empty() =~= b);
        }
        j += 1;
    }
    assert(flat.take(flat.len() as int) =~= flat);
    if out.len() > limit {
        let ghost b = repo_views(out@);
        out.truncate(limit);
        assert(repo_views(out@) =~= b.take(limit as int));
    }
    out
}

// --- the rest of what is asked of `gh` --------------------------------------

/// The arguments that ask who the token belongs to.
pub fn login_args() -> (r: Vec<String>)
    ensures
        arg_views(r@) == seq!["api"@, "user"@, "--jq"@, ".login"@],
{
    let mut args: Vec<String> = Vec::new();
    args.push(String::from_str("api"));
    args.push(String::from_str("user"));
    args.push(String::from_str("--jq"));
    args.push(String::from_str(".login"));
    assert(arg_views(args@) =~= seq!["api"@, "user"@, "--jq"@, ".login"@]);
    args
}

/// Who the token belongs to, from what [`login_args`] printed: the output,
/// trimmed.
pub fn login(output: &str) -> (r: String)
    ensures
        r@ == trim(output@),
{
    crate::text::trimmed(output)
}

/// The arguments that list the organisations the authenticated user belongs
/// to, one login a line.
pub fn orgs_args() -> (r: Vec<String>)
    ensures
        arg_views(r@) == seq!["api"@, "user/orgs"@, "--jq"@, ".[].login"@],
{
    let mut args: Vec<String> = Vec::new();
    args.push(String::from_str("api"));
    args.push(String::from_str("user/orgs"));
    args.push(String::from_str("--jq"));
    args.push(String::from_str(".[].login"));
    assert(arg_views(args@) =~= seq!["api"@, "user/orgs"@, "--jq"@, ".[].login"@]);
    args
}

/// The authenticated user's login, then the organisations they belong to —
/// the owners to suggest on a machine with nothing cloned yet — from what
/// [`login_args`] and [`orgs_args`] printed.
pub fn owners(login_output: &str, orgs_output: &str) -> (r: Vec<String>)
    ensures
        arg_views(r@) == crate::config::words(login_output@) + crate::config::words(orgs_output@),
{
    let mut out = crate::config::split_words(login_output);
    let mut orgs = crate::config::split_words(orgs_output);
    let ghost a = arg_views(out@);
    let ghost b = arg_views(orgs@);
    out.append(&mut orgs);
    assert(arg_views(out@) =~= a + b);
    out
}

/// The arguments that clone `owner/repo` into `dest`.
pub fn clone(name_with_owner: &str, dest: &str) -> (r: Vec<String>)
    ensures
        arg_views(r@) == seq!["repo"@, "clone"@, name_with_owner@, dest@],
{
    let mut args: Vec<String> = Vec::new();
    args.push(String::from_str("repo"));
    args.push(String::from_str("clone"));
    args.push(String::from_str(name_with_owner));
    args.push(String::from_str(dest));
    assert(arg_views(args@) =~= seq!["repo"@, "clone"@, name_with_owner@, dest@]);
    args
}

/// What a failed clone is reported as: what `gh` said, trimmed, or that the
/// clone failed when it said nothing.
pub fn clone_failure(name_with_owner: &str, stderr: &str) -> (r: String)
    ensures
        r@ == (if trim(stderr@).len() == 0 {
            "cloning "@ + name_with_owner@ + " failed"@
        } else {
            trim(stderr@)
        }),
{
    let t = crate::text::trimmed(stderr);
    if t.unicode_len() == 0 {
        let mut m = String::from_str("cloning ");
        m.append(name_with_owner);
        m.append(" failed");
        m
    } else {
        t
    }
}

/// The arguments that open the GitHub page of the repository `gh` is run in.
pub fn view_repo_web() -> (r: Vec<String>)
    ensures
        arg_views(r@) == seq!["repo"@, "view"@, "--web"@],
{
    let mut args: Vec<String> = Vec::new();
    args.push(String::from_str("repo"));
    args.push(String::from_str("view"));
    args.push(String::from_str("--web"));
    assert(arg_views(args@) =~= seq!["repo"@, "view"@, "--web"@]);
    args
}

/// The arguments that test the stored token against the host.
pub fn auth_status_args() -> (r: Vec<String>)
    ensures
        arg_views(r@) == seq!["auth"@, "status"@, "--active"@],
{
    let mut args: Vec<String> = Vec::new();
    args.push(String::from_str("auth"));
    args.push(String::from_str("status"));
    args.push(String::from_str("--active"));
    assert(arg_views(args@) =~= seq!["auth"@, "status"@, "--active"@]);
    args
}

/// The arguments that read one page of a listing; `headers` asks for the
/// response headers too, which only the first page's are read from.
pub fn page_args(source: &Source, page: usize, headers: bool) -> (r: Vec<String>)
    ensures
        arg_views(r@) == seq!["api"@] + (if headers {
            seq!["--include"@]
        } else {
            Seq::empty()
        }) + seq![page_path(source@, page)],
{
    let mut args: Vec<String> = Vec::new();
    args.push(String::from_str("api"));
    if headers {
        args.push(String::from_str("--include"));
    }
    let path = source.page(page);
    let ghost before = arg_views(args@);
    args.push(path);
    assert(arg_views(args@) =~= before.push(page_path(source@, page)));
    assert(arg_views(args@) =~= seq!["api"@] + (if headers {
        seq!["--include"@]
    } else {
        Seq::empty()
    }) + seq![page_path(source@, page)]);
    args
}

/// What a failed `gh` call is reported as: what it said on stderr, trimmed,
/// or the command that failed when it said nothing.
pub fn failure(args: &Vec<String>, stderr: &str) -> (r: String)
    ensures
        r@ == (if trim(stderr@).len() == 0 {
            "gh "@ + join(arg_views(args@), " "@) + " failed"@
        } else {
            trim(stderr@)
        }),
{
    let t = crate::text::trimmed(stderr);
    if t.unicode_len() == 0 {
        let mut m = String::from_str("gh ");
        m.append(join_strings(args, " ").as_str());
        m.append(" failed");
        m
    } else {
        t
    }
}

// --- foreign text made safe -------------------------------------------------

pub open spec fn safe_check(c: CheckView, d: CheckView) -> bool {
    &&& d.name == row_text(c.name)
    &&& d.context == row_text(c.context)
    &&& d.workflow_name == row_text(c.workflow_name)
    &&& d.status == c.status
    &&& d.conclusion == c.conclusion
    &&& d.state == c.state
}

/// A pull request whose text is safe to draw: its title, branch, author and
/// check names as rows, its body as a block. Everything else is kept.
pub fn made_safe(pr: &PullRequest) -> (r: PullRequest)
    ensures
        r.number == pr.number,
        r.title@ == row_text(pr.title@),
        r.head_ref_name@ == row_text(pr.head_ref_name@),
        r.body@ == crate::term::block_of(pr.body@),
        match (r.author, pr.author) {
            (Some(a), Some(b)) => a.login@ == row_text(b.login@),
            (None, None) => true,
            _ => false,
        },
        r.is_draft == pr.is_draft,
        r.state@ == pr.state@,
        r.updated_at@ == pr.updated_at@,
        r.mergeable@ == pr.mergeable@,
        r.status_check_rollup@.len() == pr.status_check_rollup@.len(),
        forall|i: int|
            0 <= i < pr.status_check_rollup@.len() ==> safe_check(
                pr.status_check_rollup@[i]@,
                #[trigger] r.status_check_rollup@[i]@,
            ),
{
    let mut checks: Vec<Check> = Vec::new();
    let mut i: usize = 0;
    while i < pr.status_check_rollup.len()
        invariant
            i <= pr.status_check_rollup@.len(),
            checks@.len() == i,
            forall|j: int|
                0 <= j < i ==> safe_check(pr.status_check_rollup@[j]@, #[trigger] checks@[j]@),
        decreases pr.status_check_rollup@.len() - i,
    {
        let c = &pr.status_check_rollup[i];
        checks.push(
            Check {
                name: crate::term::one_row(c.name.as_str()),
                context: crate::term::one_row(c.context.as_str()),
                workflow_name: crate::term::one_row(c.workflow_name.as_str()),
                status: c.status.clone(),
                conclusion: c.conclusion.clone(),
                state: c.state.clone(),
            },
        );
        i += 1;
    }
    let author = match &pr.author {
        Some(a) => Some(Author { login: crate::term::one_row(a.login.as_str()) }),
        None => None,
    };
    PullRequest {
        number: pr.number,
        title: crate::term::one_row(pr.title.as_str()),
        author,
        head_ref_name: crate::term::one_row(pr.head_ref_name.as_str()),
        is_draft: pr.is_draft,
        state: pr.state.clone(),
        updated_at: pr.updated_at.clone(),
        body: crate::term::block(pr.body.as_str()),
        status_check_rollup: checks,
        mergeable: pr.mergeable.clone(),
    }
}

fn safe_opt(o: &Option<String>) -> (r: Option<String>)
    ensures
        match (r, *o) {
            (Some(a), Some(b)) => a@ == row_text(b@),
            (None, None) => true,
            _ => false,
        },
{
    match o {
        Some(s) => Some(crate::term::one_row(s.as_str())),
        None => None,
    }
}

/// A repository whose description and language are safe to draw as rows.
/// `full_name` is left alone: it is not display text but the slug handed to
/// `gh repo clone`, guarded by [`valid_slug`].
pub fn repo_made_safe(repo: &Repo) -> (r: Repo)
    ensures
        r.full_name@ == repo.full_name@,
        match (r.description, repo.description) {
            (Some(a), Some(b)) => a@ == row_text(b@),
            (None, None) => true,
            _ => false,
        },
        match (r.language, repo.language) {
            (Some(a), Some(b)) => a@ == row_text(b@),
            (None, None) => true,
            _ => false,
        },
        r.visibility@ == repo.visibility@,
        r.archived == repo.archived,
        r.fork == repo.fork,
        r.pushed_at@ == repo.pushed_at@,
{
    Repo {
        full_name: repo.full_name.clone(),
        description: safe_opt(&repo.description),
        visibility: repo.visibility.clone(),
        archived: repo.archived,
        fork: repo.fork,
        language: safe_opt(&repo.language),
        pushed_at: repo.pushed_at.clone(),
    }
}

} // verus!
