//! Git branches and worktrees: which refs are local, which are remote-only,
//! what checking out a name means, and what `git worktree list` says.
//!
//! Everything here works on the text git prints; running git is the caller's.

use vstd::prelude::*;

use crate::text::{
    lemma_first_true, lemma_no_true, starts_with, range_starts_with,
    ends_with, lines, lines_of, range_ends_with, split_once, split_once_vec, splitn, splitn_range,
    strip_prefix, strip_prefix_vec, string_from, trim, trim_range, vec_eq,
};

verus! {

/// Field separator in the `for-each-ref` format: ASCII unit separator, so
/// commit subjects containing tabs or pipes cannot split a row.
pub const SEP: char = '\x1f';

/// Where a branch exists.
#[derive(Debug, Clone, Copy, PartialEq, Eq, Structural)]
pub enum BranchKind {
    /// Only in this clone — never pushed, or its upstream is gone.
    Local,
    /// Both here and on a remote.
    Both,
    /// Only on a remote; checking it out creates the local branch.
    Remote,
}

pub open spec fn kind_color(kind: BranchKind) -> u8 {
    match kind {
        BranchKind::Local => 3,
        BranchKind::Both => 2,
        BranchKind::Remote => 6,
    }
}

impl BranchKind {
    /// ANSI 256-colour index used for this kind: yellow for here only, green for
    /// in sync with a remote, cyan for not here yet.
    pub fn color(self) -> (r: u8)
        ensures
            r == kind_color(self),
    {
        match self {
            BranchKind::Local => 3,
            BranchKind::Both => 2,
            BranchKind::Remote => 6,
        }
    }

    /// Short tag shown in `branch ls --status`, for when colour is unavailable.
    pub fn tag(self) -> (r: &'static str)
        ensures
            r@ == (match self {
                BranchKind::Local => "local"@,
                BranchKind::Both => "both"@,
                BranchKind::Remote => "remote"@,
            }),
    {
        match self {
            BranchKind::Local => "local",
            BranchKind::Both => "both",
            BranchKind::Remote => "remote",
        }
    }
}

/// Which branches a listing includes.
#[derive(Debug, Clone, Copy, PartialEq, Eq, Structural)]
pub enum Filter {
    /// Local and remote-only branches. The default.
    All,
    /// Branches that exist in this clone.
    Local,
    /// Branches that exist on a remote.
    Remote,
}

impl Default for Filter {
    fn default() -> (r: Self)
        ensures
            r == Filter::All,
    {
        Filter::All
    }
}

pub open spec fn accepts(filter: Filter, kind: BranchKind) -> bool {
    match filter {
        Filter::All => true,
        Filter::Local => kind != BranchKind::Remote,
        Filter::Remote => kind != BranchKind::Local,
    }
}

impl Filter {
    /// Resolve the mutually exclusive `--local` / `--remote` flags: one of them
    /// alone narrows the listing, anything else lists all.
    pub fn from_flags(local: bool, remote: bool) -> (r: Self)
        ensures
            r == (if local && !remote {
                Filter::Local
            } else if remote && !local {
                Filter::Remote
            } else {
                Filter::All
            }),
    {
        match (local, remote) {
            (true, false) => Filter::Local,
            (false, true) => Filter::Remote,
            _ => Filter::All,
        }
    }

    pub fn accepts(self, kind: BranchKind) -> (r: bool)
        ensures
            r == accepts(self, kind),
    {
        match self {
            Filter::All => true,
            Filter::Local => kind != BranchKind::Remote,
            Filter::Remote => kind != BranchKind::Local,
        }
    }
}

/// A branch as offered to the user.
#[derive(Debug, Clone, PartialEq, Eq)]
pub struct Branch {
    /// Displayed and returned name: `main` for a local branch, `origin/main`
    /// for a remote-only one, so the remote is never ambiguous.
    pub name: String,
    pub kind: BranchKind,
    /// Whether this is the currently checked-out branch.
    pub head: bool,
    /// Relative commit date, e.g. `2 days ago`.
    pub date: String,
    /// Commit subject line.
    pub subject: String,
}

pub struct BranchView {
    pub name: Seq<char>,
    pub kind: BranchKind,
    pub head: bool,
    pub date: Seq<char>,
    pub subject: Seq<char>,
}

impl View for Branch {
    type V = BranchView;

    open spec fn view(&self) -> BranchView {
        BranchView {
            name: self.name@,
            kind: self.kind,
            head: self.head,
            date: self.date@,
            subject: self.subject@,
        }
    }
}

/// One row of `for-each-ref` output, before classification.
#[derive(Debug, Clone, PartialEq, Eq)]
pub struct RefLine {
    pub refname: String,
    pub head: bool,
    /// What a symbolic ref points at, in short form: `origin/main` for
    /// `refs/remotes/origin/HEAD`. Empty for every ordinary branch.
    pub symref: String,
    /// Configured upstream in short form (`origin/main`), empty when unset.
    pub upstream: String,
    pub date: String,
    pub subject: String,
}

pub struct RefLineView {
    pub refname: Seq<char>,
    pub head: bool,
    pub symref: Seq<char>,
    pub upstream: Seq<char>,
    pub date: Seq<char>,
    pub subject: Seq<char>,
}

impl View for RefLine {
    type V = RefLineView;

    open spec fn view(&self) -> RefLineView {
        RefLineView {
            refname: self.refname@,
            head: self.head,
            symref: self.symref@,
            upstream: self.upstream@,
            date: self.date@,
            subject: self.subject@,
        }
    }
}

/// What checking out a given name should do.
#[derive(Debug, Clone, PartialEq, Eq)]
pub enum Checkout {
    /// Switch to an existing local branch.
    Switch(String),
    /// Create a local branch tracking `remote_ref` (`origin/main`).
    Track { remote_ref: String },
}

// --- parsing `for-each-ref` -------------------------------------------------

/// One `for-each-ref` row: at least five separated fields and a non-empty
/// refname, the subject last and unsplit so separators inside it survive.
pub open spec fn ref_line(l: Seq<char>) -> Option<RefLineView> {
    let f = splitn(l, 6, SEP);
    if f.len() < 5 || f[0].len() == 0 {
        None
    } else {
        Some(
            RefLineView {
                refname: f[0],
                head: trim(f[1]) == seq!['*'],
                symref: f[2],
                upstream: f[3],
                date: f[4],
                subject: if f.len() > 5 {
                    f[5]
                } else {
                    Seq::empty()
                },
            },
        )
    }
}

pub open spec fn ref_line_fn() -> spec_fn(Seq<char>) -> Option<RefLineView> {
    |l: Seq<char>| ref_line(l)
}

/// Every readable row of `for-each-ref` output, in order.
pub open spec fn ref_lines(output: Seq<char>) -> Seq<RefLineView> {
    lines(output).filter_map(ref_line_fn())
}

fn parse_ref_line(v: &Vec<char>) -> (r: Option<RefLine>)
    ensures
        match r {
            Some(x) => ref_line(v@) == Some(x@),
            None => ref_line(v@) is None,
        },
{
    assert(v@.subrange(0, v@.len() as int) =~= v@);
    let f = splitn_range(v, 0, v.len(), 6, SEP);
    let ghost fv = f@.map_values(|p: Vec<char>| p@);
    assert(fv.len() == f@.len());
    if f.len() < 5 || f[0].len() == 0 {
        assert(f@.len() >= 5 ==> fv[0] == f@[0]@);
        return None;
    }
    let head_field = &f[1];
    let (a, b) = trim_range(head_field, 0, head_field.len());
    assert(head_field@.subrange(0, head_field@.len() as int) =~= head_field@);
    let star = b > a && b - a == 1 && head_field[a] == '*';
    proof {
        let sub = head_field@.subrange(a as int, b as int);
        if sub == seq!['*'] {
            assert(sub.len() == 1);
            assert(sub[0] == '*');
            assert(head_field@[a as int] == '*');
        }
        if star {
            assert(sub =~= seq!['*']);
        }
    }
    let subject = if f.len() > 5 {
        string_from(&f[5])
    } else {
        String::new()
    };
    let line = RefLine {
        refname: string_from(&f[0]),
        head: star,
        symref: string_from(&f[2]),
        upstream: string_from(&f[3]),
        date: string_from(&f[4]),
        subject,
    };
    assert(fv[0] == f@[0]@ && fv[1] == f@[1]@ && fv[2] == f@[2]@ && fv[3] == f@[3]@ && fv[4] == f@[4]@);
    assert(f@.len() > 5 ==> fv[5] == f@[5]@);
    assert(line@ == ref_line(v@).unwrap());
    Some(line)
}

/// Parse `for-each-ref` output written with the [`SEP`]-joined format. Rows
/// with too few fields are skipped rather than failing the listing.
pub fn parse_ref_lines(output: &str) -> (r: Vec<RefLine>)
    ensures
        r@.map_values(|x: RefLine| x@) == ref_lines(output@),
{
    let ls = lines_of(output);
    let ghost lv = ls@.map_values(|p: Vec<char>| p@);
    let mut out: Vec<RefLine> = Vec::new();
    let mut i: usize = 0;
    while i < ls.len()
        invariant
            lv == ls@.map_values(|p: Vec<char>| p@),
            lv == lines(output@),
            i <= ls@.len(),
            out@.map_values(|x: RefLine| x@) == lv.take(i as int).filter_map(ref_line_fn()),
        decreases ls@.len() - i,
    {
        proof {
            lv.lemma_filter_map_take_succ(ref_line_fn(), i as int);
        }
        assert(lv[i as int] == ls@[i as int]@);
        let ghost before = out@.map_values(|x: RefLine| x@);
        match parse_ref_line(&ls[i]) {
            Some(x) => {
                out.push(x);
                assert(out@.map_values(|x: RefLine| x@) =~= before + seq![x@]);
            },
            None => {},
        }
        i += 1;
    }
    assert(lv.take(ls@.len() as int) =~= lv);
    out
}

// --- classifying ------------------------------------------------------------

/// A local branch's name: the refname below `refs/heads/`.
pub open spec fn local_name(refname: Seq<char>) -> Option<Seq<char>> {
    strip_prefix(refname, "refs/heads/"@)
}

/// A remote ref's short name: the refname below `refs/remotes/`.
pub open spec fn remote_short(refname: Seq<char>) -> Option<Seq<char>> {
    strip_prefix(refname, "refs/remotes/"@)
}

/// Split a remote ref short name (`origin/feat/x`) into remote and branch.
/// Branch names may contain `/`; remote names may not, so the first component
/// is the remote. Both parts must be non-empty.
pub open spec fn split_remote(short: Seq<char>) -> Option<(Seq<char>, Seq<char>)> {
    match split_once(short, '/') {
        Some((r, b)) => if r.len() > 0 && b.len() > 0 {
            Some((r, b))
        } else {
            None
        },
        None => None,
    }
}

/// `origin/HEAD` and its like: a remote's pointer to its default branch.
pub open spec fn is_head_pointer(short: Seq<char>) -> bool {
    ends_with(short, "/HEAD"@)
}

/// The branch part of a remote ref that is not a HEAD pointer.
pub open spec fn remote_branch(refname: Seq<char>) -> Option<Seq<char>> {
    match remote_short(refname) {
        Some(short) => if is_head_pointer(short) {
            None
        } else {
            match split_remote(short) {
                Some((_, b)) => Some(b),
                None => None,
            }
        },
        None => None,
    }
}

/// Some local branch is called `name`.
pub open spec fn has_local(lines: Seq<RefLineView>, name: Seq<char>) -> bool {
    exists|j: int| 0 <= j < lines.len() && local_name(#[trigger] lines[j].refname) == Some(name)
}

/// Some local branch has `short` as its configured upstream.
pub open spec fn claimed_upstream(lines: Seq<RefLineView>, short: Seq<char>) -> bool {
    short.len() > 0 && exists|j: int|
        0 <= j < lines.len() && (#[trigger] local_name(lines[j].refname)) is Some && lines[j].upstream
            == short
}

/// `branch` exists on some remote: it is the branch part of a remote ref.
pub open spec fn on_remote(lines: Seq<RefLineView>, branch: Seq<char>) -> bool {
    exists|j: int| 0 <= j < lines.len() && remote_branch(#[trigger] lines[j].refname) == Some(branch)
}

/// What one row contributes to the branch list, given every row: a local
/// branch is `Both` when its counterpart — its configured upstream's branch, or
/// its own name — is on a remote; a remote ref is listed only when no local
/// branch has its name or claims it as upstream; HEAD pointers are dropped.
pub open spec fn branch_of(lines: Seq<RefLineView>, line: RefLineView) -> Option<BranchView> {
    match local_name(line.refname) {
        Some(name) => {
            let counterpart = match split_remote(line.upstream) {
                Some((_, b)) => b,
                None => name,
            };
            Some(
                BranchView {
                    name,
                    kind: if on_remote(lines, counterpart) {
                        BranchKind::Both
                    } else {
                        BranchKind::Local
                    },
                    head: line.head,
                    date: line.date,
                    subject: line.subject,
                },
            )
        },
        None => match remote_short(line.refname) {
            Some(short) => match remote_branch(line.refname) {
                Some(b) => if has_local(lines, b) || claimed_upstream(lines, short) {
                    None
                } else {
                    Some(
                        BranchView {
                            name: short,
                            kind: BranchKind::Remote,
                            head: false,
                            date: line.date,
                            subject: line.subject,
                        },
                    )
                },
                None => None,
            },
            None => None,
        },
    }
}

pub open spec fn branch_of_fn(lines: Seq<RefLineView>) -> spec_fn(RefLineView) -> Option<BranchView> {
    |line: RefLineView| branch_of(lines, line)
}

/// The branch list: each row's contribution, in input order.
pub open spec fn classified(lines: Seq<RefLineView>) -> Seq<BranchView> {
    lines.filter_map(branch_of_fn(lines))
}

fn split_remote_vec(short: &Vec<char>) -> (r: Option<(Vec<char>, Vec<char>)>)
    ensures
        match r {
            Some(x) => split_remote(short@) == Some((x.0@, x.1@)),
            None => split_remote(short@) is None,
        },
{
    match split_once_vec(short, '/') {
        Some((a, b)) => if a.len() > 0 && b.len() > 0 {
            Some((a, b))
        } else {
            None
        },
        None => None,
    }
}

fn remote_branch_vec(refname: &Vec<char>) -> (r: Option<Vec<char>>)
    ensures
        match r {
            Some(x) => remote_branch(refname@) == Some(x@),
            None => remote_branch(refname@) is None,
        },
{
    match strip_prefix_vec(refname, "refs/remotes/") {
        Some(short) => {
            assert(short@.subrange(0, short@.len() as int) =~= short@);
            if range_ends_with(&short, 0, short.len(), "/HEAD") {
                None
            } else {
                match split_remote_vec(&short) {
                    Some((_, b)) => Some(b),
                    None => None,
                }
            }
        },
        None => None,
    }
}

/// What the rows say, computed once: each row's local name, remote branch,
/// refname and upstream as characters.
struct Facts {
    locals: Vec<Option<Vec<char>>>,
    remotes: Vec<Option<Vec<char>>>,
    refnames: Vec<Vec<char>>,
    upstreams: Vec<Vec<char>>,
}

impl Facts {
    spec fn of(self, lines: Seq<RefLineView>) -> bool {
        &&& self.locals@.len() == lines.len()
        &&& self.remotes@.len() == lines.len()
        &&& self.refnames@.len() == lines.len()
        &&& self.upstreams@.len() == lines.len()
        &&& forall|j: int|
            0 <= j < lines.len() ==> {
                &&& (#[trigger] self.refnames@[j])@ == lines[j].refname
                &&& self.upstreams@[j]@ == lines[j].upstream
                &&& match self.locals@[j] {
                    Some(x) => local_name(lines[j].refname) == Some(x@),
                    None => local_name(lines[j].refname) is None,
                }
                &&& match self.remotes@[j] {
                    Some(x) => remote_branch(lines[j].refname) == Some(x@),
                    None => remote_branch(lines[j].refname) is None,
                }
            }
    }

    fn gather(lines: &[RefLine]) -> (r: Facts)
        ensures
            r.of(lines@.map_values(|x: RefLine| x@)),
    {
        let ghost lv = lines@.map_values(|x: RefLine| x@);
        let mut facts = Facts {
            locals: Vec::new(),
            remotes: Vec::new(),
            refnames: Vec::new(),
            upstreams: Vec::new(),
        };
        let mut i: usize = 0;
        while i < lines.len()
            invariant
                lv == lines@.map_values(|x: RefLine| x@),
                i <= lines@.len(),
                facts.locals@.len() == i,
                facts.remotes@.len() == i,
                facts.refnames@.len() == i,
                facts.upstreams@.len() == i,
                forall|j: int|
                    0 <= j < i ==> {
                        &&& (#[trigger] facts.refnames@[j])@ == lv[j].refname
                        &&& facts.upstreams@[j]@ == lv[j].upstream
                        &&& match facts.locals@[j] {
                            Some(x) => local_name(lv[j].refname) == Some(x@),
                            None => local_name(lv[j].refname) is None,
                        }
                        &&& match facts.remotes@[j] {
                            Some(x) => remote_branch(lv[j].refname) == Some(x@),
                            None => remote_branch(lv[j].refname) is None,
                        }
                    },
            decreases lines@.len() - i,
        {
            let refname = crate::text::chars_of(lines[i].refname.as_str());
            let upstream = crate::text::chars_of(lines[i].upstream.as_str());
            let local = strip_prefix_vec(&refname, "refs/heads/");
            let remote = remote_branch_vec(&refname);
            assert(lv[i as int] == lines@[i as int]@);
            let ghost prev = facts;
            facts.locals.push(local);
            facts.remotes.push(remote);
            facts.refnames.push(refname);
            facts.upstreams.push(upstream);
            assert forall|j: int| 0 <= j < i implies facts.refnames@[j] == prev.refnames@[j]
                && facts.upstreams@[j] == prev.upstreams@[j] && facts.locals@[j] == prev.locals@[j]
                && facts.remotes@[j] == prev.remotes@[j] by {}
            i += 1;
        }
        assert(facts.of(lv));
        facts
    }

    /// Whether some local branch is called `name`.
    fn any_local(&self, Ghost(lines): Ghost<Seq<RefLineView>>, name: &Vec<char>) -> (r: bool)
        requires
            self.of(lines),
        ensures
            r == has_local(lines, name@),
    {
        let mut j: usize = 0;
        while j < self.locals.len()
            invariant
                self.of(lines),
                j <= lines.len(),
                forall|k: int| 0 <= k < j ==> local_name(#[trigger] lines[k].refname) != Some(name@),
            decreases lines.len() - j,
        {
            assert(self.refnames@[j as int]@ == lines[j as int].refname);
            match &self.locals[j] {
                Some(x) => {
                    if vec_eq(x, name) {
                        assert(local_name(lines[j as int].refname) == Some(name@));
                        return true;
                    }
                },
                None => {},
            }
            j += 1;
        }
        false
    }

    /// Whether some local branch has `short` as its upstream.
    fn any_claim(&self, Ghost(lines): Ghost<Seq<RefLineView>>, short: &Vec<char>) -> (r: bool)
        requires
            self.of(lines),
        ensures
            r == claimed_upstream(lines, short@),
    {
        if short.len() == 0 {
            return false;
        }
        let mut j: usize = 0;
        while j < self.locals.len()
            invariant
                self.of(lines),
                short@.len() > 0,
                j <= lines.len(),
                forall|k: int|
                    0 <= k < j ==> !((#[trigger] local_name(lines[k].refname)) is Some
                        && lines[k].upstream == short@),
            decreases lines.len() - j,
        {
            assert(self.refnames@[j as int]@ == lines[j as int].refname);
            if self.locals[j].is_some() && vec_eq(&self.upstreams[j], short) {
                assert(local_name(lines[j as int].refname) is Some && lines[j as int].upstream == short@);
                return true;
            }
            j += 1;
        }
        false
    }

    /// Whether `branch` is the branch part of some remote ref.
    fn any_remote(&self, Ghost(lines): Ghost<Seq<RefLineView>>, branch: &Vec<char>) -> (r: bool)
        requires
            self.of(lines),
        ensures
            r == on_remote(lines, branch@),
    {
        let mut j: usize = 0;
        while j < self.remotes.len()
            invariant
                self.of(lines),
                j <= lines.len(),
                forall|k: int|
                    0 <= k < j ==> remote_branch(#[trigger] lines[k].refname) != Some(branch@),
            decreases lines.len() - j,
        {
            assert(self.refnames@[j as int]@ == lines[j as int].refname);
            match &self.remotes[j] {
                Some(x) => {
                    if vec_eq(x, branch) {
                        assert(remote_branch(lines[j as int].refname) == Some(branch@));
                        return true;
                    }
                },
                None => {},
            }
            j += 1;
        }
        false
    }
}

/// Fold ref rows into the branch list shown to the user: a local branch whose
/// name also exists on a remote is [`BranchKind::Both`] rather than two rows,
/// and `origin/HEAD` is dropped. Input order is preserved.
pub fn classify(lines: &[RefLine]) -> (r: Vec<Branch>)
    ensures
        r@.map_values(|b: Branch| b@) == classified(lines@.map_values(|x: RefLine| x@)),
{
    let ghost lv = lines@.map_values(|x: RefLine| x@);
    let facts = Facts::gather(lines);
    let mut out: Vec<Branch> = Vec::new();
    let mut i: usize = 0;
    while i < lines.len()
        invariant
            lv == lines@.map_values(|x: RefLine| x@),
            facts.of(lv),
            i <= lines@.len(),
            out@.map_values(|b: Branch| b@) == lv.take(i as int).filter_map(branch_of_fn(lv)),
        decreases lines@.len() - i,
    {
        proof {
            lv.lemma_filter_map_take_succ(branch_of_fn(lv), i as int);
        }
        let line = &lines[i];
        assert(lv[i as int] == line@);
        assert(facts.refnames@[i as int]@ == lv[i as int].refname);
        let ghost before = out@.map_values(|b: Branch| b@);
        match &facts.locals[i] {
            Some(name) => {
                let upstream = &facts.upstreams[i];
                let counterpart = match split_remote_vec(upstream) {
                    Some((_, b)) => b,
                    None => crate::text::slice_vec(name, 0, name.len()),
                };
                assert(name@.subrange(0, name@.len() as int) =~= name@);
                let kind = if facts.any_remote(Ghost(lv), &counterpart) {
                    BranchKind::Both
                } else {
                    BranchKind::Local
                };
                let branch = Branch {
                    name: string_from(name),
                    kind,
                    head: line.head,
                    date: line.date.clone(),
                    subject: line.subject.clone(),
                };
                assert(branch@ == branch_of(lv, lv[i as int]).unwrap());
                out.push(branch);
                assert(out@.map_values(|b: Branch| b@) =~= before + seq![branch@]);
            },
            None => {
                match &facts.remotes[i] {
                    Some(b) => {
                        let short = strip_prefix_vec(&facts.refnames[i], "refs/remotes/");
                        match short {
                            Some(short) => {
                                let taken = facts.any_local(Ghost(lv), b) || facts.any_claim(
                                    Ghost(lv),
                                    &short,
                                );
                                if !taken {
                                    let branch = Branch {
                                        name: string_from(&short),
                                        kind: BranchKind::Remote,
                                        head: false,
                                        date: line.date.clone(),
                                        subject: line.subject.clone(),
                                    };
                                    assert(branch@ == branch_of(lv, lv[i as int]).unwrap());
                                    out.push(branch);
                                    assert(out@.map_values(|b: Branch| b@) =~= before + seq![branch@]);
                                } else {
                                    assert(branch_of(lv, lv[i as int]) is None);
                                }
                            },
                            None => {},
                        }
                    },
                    None => {
                        assert(branch_of(lv, lv[i as int]) is None);
                    },
                }
            },
        }
        i += 1;
    }
    assert(lv.take(lines@.len() as int) =~= lv);
    out
}

impl Branch {
    /// A copy of this branch, field for field.
    pub fn duplicate(&self) -> (r: Branch)
        ensures
            r@ == self@,
    {
        Branch {
            name: self.name.clone(),
            kind: self.kind,
            head: self.head,
            date: self.date.clone(),
            subject: self.subject.clone(),
        }
    }
}

// --- the default branch -----------------------------------------------------

/// Where `short` is `remote/branch` with a remote name free of `/`, its
/// first separator is the one after the remote.
proof fn lemma_split_after_remote(remote: Seq<char>, branch: Seq<char>)
    requires
        !remote.contains('/'),
        branch.len() > 0,
    ensures
        split_remote(remote + seq!['/'] + branch) == (if remote.len() > 0 {
            Some((remote, branch))
        } else {
            None
        }),
{
    let short = remote + seq!['/'] + branch;
    short.index_of_first_ensures('/');
    assert(short[remote.len() as int] == '/');
    match short.index_of_first('/') {
        Some(i) => {
            if i < remote.len() {
                assert(short[i] == remote[i]);
                assert(remote.contains(remote[i]));
            }
            assert(i == remote.len());
            assert(short.subrange(0, i) =~= remote);
            assert(short.subrange(i + 1, short.len() as int) =~= branch);
        },
        None => {},
    }
}

/// A branch is never listed twice: a remote ref whose branch part is the name
/// of a local branch gets no row of its own, since the local branch's row
/// already stands for it — whether or not that branch has an upstream set.
pub proof fn lemma_remote_row_never_repeats_a_local(lines: Seq<RefLineView>)
    ensures
        forall|k: int, j: int, remote: Seq<char>|
            #![trigger classified(lines)[k], lines[j], remote.contains('/')]
            0 <= k < classified(lines).len() && 0 <= j < lines.len() && classified(lines)[k].kind
                == BranchKind::Remote && local_name(lines[j].refname) is Some && !remote.contains('/')
                ==> classified(lines)[k].name != remote + seq!['/'] + local_name(lines[j].refname)->0,
{
    let c = classified(lines);
    assert forall|k: int, j: int, remote: Seq<char>|
        #![trigger c[k], lines[j], remote.contains('/')]
        0 <= k < c.len() && 0 <= j < lines.len() && c[k].kind == BranchKind::Remote && local_name(
            lines[j].refname,
        ) is Some && !remote.contains('/') implies c[k].name != remote + seq!['/'] + local_name(
        lines[j].refname,
    )->0 by {
        let row = c[k];
        let b = local_name(lines[j].refname)->0;
        assert(c.contains(row));
        lines.lemma_filter_map_contains(branch_of_fn(lines), row);
        let t = choose|t: RefLineView| #[trigger] lines.contains(t) && branch_of_fn(lines)(t) == Some(row);
        assert(branch_of(lines, t) == Some(row));
        if row.name == remote + seq!['/'] + b {
            assert(local_name(t.refname) is None);
            let short = remote_short(t.refname)->0;
            assert(short == row.name);
            let bb = remote_branch(t.refname)->0;
            assert(!has_local(lines, bb));
            if b.len() > 0 {
                lemma_split_after_remote(remote, b);
                assert(bb == b);
            } else {
                assert(short =~= remote + seq!['/']);
                short.index_of_first_ensures('/');
                assert(short[remote.len() as int] == '/');
                match short.index_of_first('/') {
                    Some(i) => {
                        if i < remote.len() {
                            assert(short[i] == remote[i]);
                            assert(remote.contains(remote[i]));
                        }
                    },
                    None => {},
                }
                assert(split_remote(short) is None);
            }
            assert(local_name(lines[j].refname) == Some(b));
            assert(has_local(lines, b));
        }
    }
}

/// The branch a remote's HEAD pointer names: `origin/HEAD → origin/trunk` is
/// `trunk`.
pub open spec fn head_target(line: RefLineView) -> Option<Seq<char>> {
    if starts_with(line.refname, "refs/remotes/"@) && ends_with(line.refname, "/HEAD"@) {
        match split_remote(line.symref) {
            Some((_, b)) => Some(b),
            None => None,
        }
    } else {
        None
    }
}

/// `name` is a local branch, or the branch part of a remote ref.
pub open spec fn known_name(lines: Seq<RefLineView>, name: Seq<char>) -> bool {
    exists|j: int|
        0 <= j < lines.len() && (local_name(#[trigger] lines[j].refname) == Some(name) || match remote_short(
            lines[j].refname,
        ) {
            Some(short) => match split_remote(short) {
                Some((_, b)) => b == name,
                None => false,
            },
            None => false,
        })
}

/// The repository's default branch: what the first remote HEAD pointer names,
/// else `main`, else `master`, when a branch of that name is known.
pub open spec fn default_of(lines: Seq<RefLineView>) -> Option<Seq<char>> {
    let flags = Seq::new(lines.len(), |i: int| head_target(lines[i]) is Some);
    match flags.index_of_first(true) {
        Some(i) => head_target(lines[i]),
        None => if known_name(lines, "main"@) {
            Some("main"@)
        } else if known_name(lines, "master"@) {
            Some("master"@)
        } else {
            None
        },
    }
}

fn head_target_vec(line: &RefLine) -> (r: Option<Vec<char>>)
    ensures
        match r {
            Some(x) => head_target(line@) == Some(x@),
            None => head_target(line@) is None,
        },
{
    let refname = crate::text::chars_of(line.refname.as_str());
    assert(refname@.subrange(0, refname@.len() as int) =~= refname@);
    if range_starts_with(&refname, 0, refname.len(), "refs/remotes/") && range_ends_with(
        &refname,
        0,
        refname.len(),
        "/HEAD",
    ) {
        let symref = crate::text::chars_of(line.symref.as_str());
        match split_remote_vec(&symref) {
            Some((_, b)) => Some(b),
            None => None,
        }
    } else {
        None
    }
}

/// Whether a branch called `name` is known to the rows.
fn is_known(lines: &[RefLine], name: &str) -> (r: bool)
    ensures
        r == known_name(lines@.map_values(|x: RefLine| x@), name@),
{
    let ghost lv = lines@.map_values(|x: RefLine| x@);
    let want = crate::text::chars_of(name);
    let mut j: usize = 0;
    while j < lines.len()
        invariant
            lv == lines@.map_values(|x: RefLine| x@),
            want@ == name@,
            j <= lines@.len(),
            forall|k: int|
                0 <= k < j ==> !(local_name(#[trigger] lv[k].refname) == Some(name@) || match remote_short(
                    lv[k].refname,
                ) {
                    Some(short) => match split_remote(short) {
                        Some((_, b)) => b == name@,
                        None => false,
                    },
                    None => false,
                }),
        decreases lines@.len() - j,
    {
        assert(lv[j as int] == lines@[j as int]@);
        let refname = crate::text::chars_of(lines[j].refname.as_str());
        match strip_prefix_vec(&refname, "refs/heads/") {
            Some(n) => {
                if vec_eq(&n, &want) {
                    assert(local_name(lv[j as int].refname) == Some(name@));
                    return true;
                }
            },
            None => {},
        }
        match strip_prefix_vec(&refname, "refs/remotes/") {
            Some(short) => match split_remote_vec(&short) {
                Some((_, b)) => {
                    if vec_eq(&b, &want) {
                        assert(local_name(lv[j as int].refname) == Some(name@) || match remote_short(
                            lv[j as int].refname,
                        ) {
                            Some(short) => match split_remote(short) {
                                Some((_, b)) => b == name@,
                                None => false,
                            },
                            None => false,
                        });
                        return true;
                    }
                },
                None => {},
            },
            None => {},
        }
        j += 1;
    }
    false
}

/// The repository's default branch, as a bare branch name (`main`), from the
/// same `for-each-ref` pass the branch list comes from.
///
/// `refs/remotes/<remote>/HEAD` is the answer where it exists, but only `git
/// clone` writes it; the fallback is the name, `main` before `master`.
pub fn default_branch(lines: &[RefLine]) -> (r: Option<String>)
    ensures
        match r {
            Some(x) => default_of(lines@.map_values(|x: RefLine| x@)) == Some(x@),
            None => default_of(lines@.map_values(|x: RefLine| x@)) is None,
        },
{
    let ghost lv = lines@.map_values(|x: RefLine| x@);
    let ghost flags = Seq::new(lv.len(), |i: int| head_target(lv[i]) is Some);
    let mut i: usize = 0;
    while i < lines.len()
        invariant
            lv == lines@.map_values(|x: RefLine| x@),
            flags == Seq::new(lv.len(), |i: int| head_target(lv[i]) is Some),
            i <= lines@.len(),
            forall|j: int| 0 <= j < i ==> !flags[j],
        decreases lines@.len() - i,
    {
        assert(lv[i as int] == lines@[i as int]@);
        match head_target_vec(&lines[i]) {
            Some(b) => {
                proof {
                    lemma_first_true(flags, i as int);
                }
                return Some(string_from(&b));
            },
            None => {},
        }
        i += 1;
    }
    proof {
        lemma_no_true(flags);
    }
    if is_known(lines, "main") {
        Some(String::from_str("main"))
    } else if is_known(lines, "master") {
        Some(String::from_str("master"))
    } else {
        None
    }
}

// --- ordering and filtering -------------------------------------------------

/// Whether `branch` is the branch `default` names. A remote-only row carries
/// its remote in the name, so `origin/main` is the default where `main` is,
/// while a local `feature/main` is not.
pub open spec fn is_default(branch: BranchView, default: Seq<char>) -> bool {
    match branch.kind {
        BranchKind::Remote => match split_remote(branch.name) {
            Some((_, name)) => name == default,
            None => false,
        },
        _ => branch.name == default,
    }
}

/// Which block of the listing a branch belongs in: the default branch, then the
/// current one, then what is already in this clone, then what is only on a
/// remote.
pub open spec fn tier(branch: BranchView, default: Option<Seq<char>>) -> u8 {
    if default matches Some(d) && is_default(branch, d) {
        0
    } else if branch.head {
        1
    } else if branch.kind == BranchKind::Remote {
        3
    } else {
        2
    }
}

pub open spec fn in_tier(default: Option<Seq<char>>, t: u8) -> spec_fn(BranchView) -> Option<BranchView> {
    |b: BranchView| if tier(b, default) == t { Some(b) } else { None }
}

/// The branches regrouped by tier, each block keeping the order it came in —
/// a stable sort by tier.
pub open spec fn relevance_order(branches: Seq<BranchView>, default: Option<Seq<char>>) -> Seq<BranchView> {
    branches.filter_map(in_tier(default, 0)) + branches.filter_map(in_tier(default, 1))
        + branches.filter_map(in_tier(default, 2)) + branches.filter_map(in_tier(default, 3))
}

fn tier_of(branch: &Branch, default: Option<&str>) -> (r: u8)
    ensures
        r == tier(branch@, match default { Some(d) => Some(d@), None => None }),
{
    let is_def = match default {
        Some(d) => match branch.kind {
            BranchKind::Remote => {
                let name = crate::text::chars_of(branch.name.as_str());
                match split_remote_vec(&name) {
                    Some((_, tail)) => {
                        let want = crate::text::chars_of(d);
                        vec_eq(&tail, &want)
                    },
                    None => false,
                }
            },
            _ => crate::text::same(branch.name.as_str(), d),
        },
        None => false,
    };
    if is_def {
        0
    } else if branch.head {
        1
    } else if branch.kind == BranchKind::Remote {
        3
    } else {
        2
    }
}

/// Order branches by how likely one is to be the one wanted: the default
/// branch, then the current branch, then local branches, then remote-only ones,
/// each block in the order it came in — which is git's own commit recency.
pub fn by_relevance(branches: Vec<Branch>, default: Option<&str>) -> (r: Vec<Branch>)
    ensures
        r@.map_values(|b: Branch| b@) == relevance_order(
            branches@.map_values(|b: Branch| b@),
            match default { Some(d) => Some(d@), None => None },
        ),
{
    let ghost bv = branches@.map_values(|b: Branch| b@);
    let ghost d = match default { Some(d) => Some(d@), None => None };
    let mut out: Vec<Branch> = Vec::new();
    let mut t: u8 = 0;
    while t < 4
        invariant
            bv == branches@.map_values(|b: Branch| b@),
            d == match default { Some(d) => Some(d@), None => None },
            t <= 4,
            out@.map_values(|b: Branch| b@) == (if t == 0 {
                Seq::empty()
            } else if t == 1 {
                bv.filter_map(in_tier(d, 0))
            } else if t == 2 {
                bv.filter_map(in_tier(d, 0)) + bv.filter_map(in_tier(d, 1))
            } else if t == 3 {
                bv.filter_map(in_tier(d, 0)) + bv.filter_map(in_tier(d, 1)) + bv.filter_map(in_tier(d, 2))
            } else {
                relevance_order(bv, d)
            }),
        decreases 4 - t,
    {
        let ghost start = out@.map_values(|b: Branch| b@);
        let mut i: usize = 0;
        while i < branches.len()
            invariant
                bv == branches@.map_values(|b: Branch| b@),
                d == match default { Some(d) => Some(d@), None => None },
                t < 4,
                i <= branches@.len(),
                out@.map_values(|b: Branch| b@) == start + bv.take(i as int).filter_map(in_tier(d, t)),
            decreases branches@.len() - i,
        {
            proof {
                bv.lemma_filter_map_take_succ(in_tier(d, t), i as int);
            }
            assert(bv[i as int] == branches@[i as int]@);
            let ghost before = out@.map_values(|b: Branch| b@);
            if tier_of(&branches[i], default) == t {
                let b = branches[i].duplicate();
                out.push(b);
                assert(out@.map_values(|b: Branch| b@) =~= before + seq![b@]);
            }
            i += 1;
        }
        assert(bv.take(branches@.len() as int) =~= bv);
        t += 1;
    }
    out
}

pub open spec fn accepted(filter: Filter) -> spec_fn(BranchView) -> Option<BranchView> {
    |b: BranchView| if accepts(filter, b.kind) { Some(b) } else { None }
}

/// The branches `filter` accepts, in order.
pub fn filtered(branches: Vec<Branch>, filter: Filter) -> (r: Vec<Branch>)
    ensures
        r@.map_values(|b: Branch| b@) == branches@.map_values(|b: Branch| b@).filter_map(accepted(filter)),
{
    let ghost bv = branches@.map_values(|b: Branch| b@);
    let mut out: Vec<Branch> = Vec::new();
    let mut i: usize = 0;
    while i < branches.len()
        invariant
            bv == branches@.map_values(|b: Branch| b@),
            i <= branches@.len(),
            out@.map_values(|b: Branch| b@) == bv.take(i as int).filter_map(accepted(filter)),
        decreases branches@.len() - i,
    {
        proof {
            bv.lemma_filter_map_take_succ(accepted(filter), i as int);
        }
        assert(bv[i as int] == branches@[i as int]@);
        let ghost before = out@.map_values(|b: Branch| b@);
        if filter.accepts(branches[i].kind) {
            let b = branches[i].duplicate();
            out.push(b);
            assert(out@.map_values(|b: Branch| b@) =~= before + seq![b@]);
        }
        i += 1;
    }
    assert(bv.take(branches@.len() as int) =~= bv);
    out
}

// --- what a name means ------------------------------------------------------

pub enum CheckoutView {
    Switch(Seq<char>),
    Track(Seq<char>),
}

impl View for Checkout {
    type V = CheckoutView;

    open spec fn view(&self) -> CheckoutView {
        match self {
            Checkout::Switch(name) => CheckoutView::Switch(name@),
            Checkout::Track { remote_ref } => CheckoutView::Track(remote_ref@),
        }
    }
}

/// The first listed branch called `name`.
pub open spec fn named(branches: Seq<BranchView>, name: Seq<char>) -> Option<int> {
    Seq::new(branches.len(), |i: int| branches[i].name == name).index_of_first(true)
}

/// Some branch that is in this clone is called `name`.
pub open spec fn has_local_branch(branches: Seq<BranchView>, name: Seq<char>) -> bool {
    exists|j: int|
        0 <= j < branches.len() && (#[trigger] branches[j]).kind != BranchKind::Remote
            && branches[j].name == name
}

/// What checking out `input` means: a listed branch by its kind, the local
/// branch where `input` is the remote form of one, and otherwise `input` as git
/// will read it.
pub open spec fn resolved(branches: Seq<BranchView>, input: Seq<char>) -> CheckoutView {
    match named(branches, input) {
        Some(i) => if branches[i].kind == BranchKind::Remote {
            CheckoutView::Track(branches[i].name)
        } else {
            CheckoutView::Switch(branches[i].name)
        },
        None => match split_remote(input) {
            Some((_, tail)) => if has_local_branch(branches, tail) {
                CheckoutView::Switch(tail)
            } else {
                CheckoutView::Switch(input)
            },
            None => CheckoutView::Switch(input),
        },
    }
}

/// Where in `branches` a branch called `name` is listed, if it is.
fn find_named(branches: &[Branch], name: &str) -> (r: Option<usize>)
    ensures
        match r {
            Some(i) => named(branches@.map_values(|b: Branch| b@), name@) == Some(i as int) && i
                < branches@.len(),
            None => named(branches@.map_values(|b: Branch| b@), name@) is None,
        },
{
    let ghost bv = branches@.map_values(|b: Branch| b@);
    let ghost flags = Seq::new(bv.len(), |i: int| bv[i].name == name@);
    let mut i: usize = 0;
    while i < branches.len()
        invariant
            bv == branches@.map_values(|b: Branch| b@),
            flags == Seq::new(bv.len(), |i: int| bv[i].name == name@),
            i <= branches@.len(),
            forall|j: int| 0 <= j < i ==> !flags[j],
        decreases branches@.len() - i,
    {
        assert(bv[i as int] == branches@[i as int]@);
        if crate::text::same(branches[i].name.as_str(), name) {
            proof {
                lemma_first_true(flags, i as int);
            }
            return Some(i);
        }
        i += 1;
    }
    proof {
        lemma_no_true(flags);
    }
    None
}

/// Whether a branch in this clone is called `name`.
fn any_local_branch(branches: &[Branch], name: &Vec<char>) -> (r: bool)
    ensures
        r == has_local_branch(branches@.map_values(|b: Branch| b@), name@),
{
    let ghost bv = branches@.map_values(|b: Branch| b@);
    let mut j: usize = 0;
    while j < branches.len()
        invariant
            bv == branches@.map_values(|b: Branch| b@),
            j <= branches@.len(),
            forall|k: int|
                0 <= k < j ==> !((#[trigger] bv[k]).kind != BranchKind::Remote && bv[k].name == name@),
        decreases branches@.len() - j,
    {
        assert(bv[j as int] == branches@[j as int]@);
        if branches[j].kind != BranchKind::Remote {
            let here = crate::text::chars_of(branches[j].name.as_str());
            if vec_eq(&here, name) {
                return true;
            }
        }
        j += 1;
    }
    false
}

/// Decide what checking out `input` means, given the known branches.
///
/// - A name matching a listed branch uses that branch's kind: local branches
///   are switched to, remote-only ones get a tracking branch created.
/// - `origin/foo` where a local `foo` already exists switches to the local
///   branch, rather than detaching HEAD at the remote ref.
/// - Anything else is handed to git verbatim.
pub fn resolve(branches: &[Branch], input: &str) -> (r: Checkout)
    ensures
        r@ == resolved(branches@.map_values(|b: Branch| b@), input@),
{
    let ghost bv = branches@.map_values(|b: Branch| b@);
    match find_named(branches, input) {
        Some(i) => {
            assert(bv[i as int] == branches@[i as int]@);
            return match branches[i].kind {
                BranchKind::Remote => Checkout::Track { remote_ref: branches[i].name.clone() },
                _ => Checkout::Switch(branches[i].name.clone()),
            };
        },
        None => {},
    }
    let chars = crate::text::chars_of(input);
    match split_remote_vec(&chars) {
        Some((_, tail)) => {
            if any_local_branch(branches, &tail) {
                return Checkout::Switch(string_from(&tail));
            }
        },
        None => {},
    }
    Checkout::Switch(String::from_str(input))
}

/// What a name given to `worktree add` means: the three ways a new tree can
/// come by the branch it checks out.
#[derive(Debug, Clone, PartialEq, Eq)]
pub enum TreeSource {
    /// Check out a local branch that already exists.
    Branch(String),
    /// Create `branch` from `remote_ref` and track it.
    Track { remote_ref: String, branch: String },
    /// Create a branch here, from what is checked out now.
    New(String),
}

pub enum TreeSourceView {
    Branch(Seq<char>),
    Track(Seq<char>, Seq<char>),
    New(Seq<char>),
}

impl View for TreeSource {
    type V = TreeSourceView;

    open spec fn view(&self) -> TreeSourceView {
        match self {
            TreeSource::Branch(name) => TreeSourceView::Branch(name@),
            TreeSource::Track { remote_ref, branch } => TreeSourceView::Track(remote_ref@, branch@),
            TreeSource::New(name) => TreeSourceView::New(name@),
        }
    }
}

pub open spec fn source_branch(source: TreeSourceView) -> Seq<char> {
    match source {
        TreeSourceView::Branch(name) => name,
        TreeSourceView::Track(_, branch) => branch,
        TreeSourceView::New(name) => name,
    }
}

impl TreeSource {
    /// The local branch the new tree will be on, whichever way it got there.
    pub fn branch(&self) -> (r: &str)
        ensures
            r@ == source_branch(self@),
    {
        match self {
            TreeSource::Branch(name) => name.as_str(),
            TreeSource::New(name) => name.as_str(),
            TreeSource::Track { branch, .. } => branch.as_str(),
        }
    }
}

/// Tracking `remote_ref`: the local branch is its branch part.
pub open spec fn tracking(remote_ref: Seq<char>) -> TreeSourceView {
    TreeSourceView::Track(
        remote_ref,
        match split_remote(remote_ref) {
            Some((_, b)) => b,
            None => remote_ref,
        },
    )
}

/// The remote-only branches whose branch part is `name`.
pub open spec fn remote_named(name: Seq<char>) -> spec_fn(BranchView) -> Option<Seq<char>> {
    |b: BranchView|
        if b.kind == BranchKind::Remote && (split_remote(b.name) matches Some((_, t)) && t == name) {
            Some(b.name)
        } else {
            None
        }
}

/// Some listed branch is called `name`.
pub open spec fn listed(branches: Seq<BranchView>, name: Seq<char>) -> bool {
    exists|j: int| 0 <= j < branches.len() && (#[trigger] branches[j]).name == name
}

/// Where a new tree's branch comes from: [`resolved`]'s answer, with a bare
/// name that exactly one remote has tracked from it, and a name matching
/// nothing at all created.
pub open spec fn source_of(branches: Seq<BranchView>, input: Seq<char>) -> TreeSourceView {
    match resolved(branches, input) {
        CheckoutView::Track(remote_ref) => tracking(remote_ref),
        CheckoutView::Switch(name) => if listed(branches, name) {
            TreeSourceView::Branch(name)
        } else {
            let remotes = branches.filter_map(remote_named(name));
            if remotes.len() == 1 {
                tracking(remotes[0])
            } else {
                TreeSourceView::New(name)
            }
        },
    }
}

fn tracking_of(remote_ref: &Vec<char>) -> (r: TreeSource)
    ensures
        r@ == tracking(remote_ref@),
{
    let branch = match split_remote_vec(remote_ref) {
        Some((_, b)) => string_from(&b),
        None => string_from(remote_ref),
    };
    TreeSource::Track { remote_ref: string_from(remote_ref), branch }
}

/// Decide where a new tree's branch comes from, given the known branches.
///
/// [`resolve`]'s rules, and then two of its own, because `git worktree add`
/// does not guess the way `git switch` does: a bare name only one remote has
/// creates the local branch tracking it, and a name matching nothing at all is
/// a branch to create rather than an error.
pub fn tree_source(branches: &[Branch], input: &str) -> (r: TreeSource)
    ensures
        r@ == source_of(branches@.map_values(|b: Branch| b@), input@),
{
    let ghost bv = branches@.map_values(|b: Branch| b@);
    match resolve(branches, input) {
        Checkout::Track { remote_ref } => {
            let chars = crate::text::chars_of(remote_ref.as_str());
            tracking_of(&chars)
        },
        Checkout::Switch(name) => {
            let listed_here = find_named(branches, name.as_str());
            proof {
                let flags = Seq::new(bv.len(), |i: int| bv[i].name == name@);
                flags.index_of_first_ensures(true);
                if listed(bv, name@) {
                    let j = choose|j: int| 0 <= j < bv.len() && (#[trigger] bv[j]).name == name@;
                    assert(flags[j]);
                }
            }
            if listed_here.is_some() {
                return TreeSource::Branch(name);
            }
            let want = crate::text::chars_of(name.as_str());
            let mut remotes: Vec<Vec<char>> = Vec::new();
            let mut i: usize = 0;
            while i < branches.len()
                invariant
                    bv == branches@.map_values(|b: Branch| b@),
                    want@ == name@,
                    i <= branches@.len(),
                    remotes@.map_values(|v: Vec<char>| v@) == bv.take(i as int).filter_map(remote_named(name@)),
                decreases branches@.len() - i,
            {
                proof {
                    bv.lemma_filter_map_take_succ(remote_named(name@), i as int);
                }
                assert(bv[i as int] == branches@[i as int]@);
                let ghost before = remotes@.map_values(|v: Vec<char>| v@);
                if branches[i].kind == BranchKind::Remote {
                    let full = crate::text::chars_of(branches[i].name.as_str());
                    match split_remote_vec(&full) {
                        Some((_, tail)) => {
                            if vec_eq(&tail, &want) {
                                remotes.push(full);
                                assert(remotes@.map_values(|v: Vec<char>| v@) =~= before + seq![branches@[i as int].name@]);
                            }
                        },
                        None => {},
                    }
                }
                i += 1;
            }
            assert(bv.take(branches@.len() as int) =~= bv);
            if remotes.len() == 1 {
                tracking_of(&remotes[0])
            } else {
                TreeSource::New(name)
            }
        },
    }
}

// --- worktrees --------------------------------------------------------------

/// A working tree of the repository: the main one, or one added with
/// `git worktree add`.
#[derive(Debug, Clone, Default, PartialEq, Eq)]
pub struct Worktree {
    /// Absolute path to the tree, as git reports it.
    pub path: String,
    /// Short branch name, empty when HEAD is detached or the tree is bare.
    pub branch: String,
    /// Full HEAD commit, empty for a bare tree — which has no HEAD.
    pub head: String,
    /// A bare repository: nothing checked out, and nowhere to work.
    pub bare: bool,
    /// Held by `git worktree lock`, so pruning leaves it alone.
    pub locked: bool,
    /// git can no longer use it — most often because its directory is gone.
    pub prunable: bool,
    /// Whether this is the tree the working directory is in.
    pub current: bool,
}

pub struct WorktreeView {
    pub path: Seq<char>,
    pub branch: Seq<char>,
    pub head: Seq<char>,
    pub bare: bool,
    pub locked: bool,
    pub prunable: bool,
    pub current: bool,
}

impl View for Worktree {
    type V = WorktreeView;

    open spec fn view(&self) -> WorktreeView {
        WorktreeView {
            path: self.path@,
            branch: self.branch@,
            head: self.head@,
            bare: self.bare,
            locked: self.locked,
            prunable: self.prunable,
            current: self.current,
        }
    }
}

/// How much of a commit to show where a branch name would be.
pub const SHORT_COMMIT: usize = 7;

pub open spec fn head_label_of(w: WorktreeView) -> Seq<char> {
    if w.bare {
        "(bare)"@
    } else if w.branch.len() > 0 {
        w.branch
    } else {
        seq!['('] + (if w.head.len() < 7 {
            w.head
        } else {
            w.head.take(7)
        }) + seq![')']
    }
}

pub open spec fn tags_of(w: WorktreeView) -> Seq<Seq<char>> {
    (if w.locked {
        seq!["locked"@]
    } else {
        Seq::empty()
    }) + (if w.prunable {
        seq!["prunable"@]
    } else {
        Seq::empty()
    })
}

pub open spec fn worktree_color(w: WorktreeView) -> Option<u8> {
    if w.prunable {
        Some(8)
    } else if w.current {
        Some(2)
    } else if w.branch.len() == 0 {
        Some(3)
    } else {
        None
    }
}

impl Worktree {
    /// What identifies the tree beside its path: the branch it has checked out,
    /// the commit a detached HEAD sits on, or that the repository is bare.
    /// Parenthesised where it is not a branch name, so the two never read alike.
    pub fn head_label(&self) -> (r: String)
        ensures
            r@ == head_label_of(self@),
    {
        if self.bare {
            return String::from_str("(bare)");
        }
        if self.branch.unicode_len() > 0 {
            return self.branch.clone();
        }
        let head = crate::text::chars_of(self.head.as_str());
        let n = if head.len() < SHORT_COMMIT {
            head.len()
        } else {
            SHORT_COMMIT
        };
        let mut out = String::new();
        crate::text::push_char(&mut out, '(');
        crate::text::push_range(&mut out, &head, 0, n);
        crate::text::push_char(&mut out, ')');
        proof {
            if head@.len() < 7 {
                assert(head@.subrange(0, n as int) =~= head@);
            }
        }
        assert(out@ =~= head_label_of(self@));
        out
    }

    /// Short tags for the states worth flagging, for when colour is
    /// unavailable. An ordinary tree has none.
    pub fn tags(&self) -> (r: Vec<&'static str>)
        ensures
            r@.map_values(|t: &str| t@) == tags_of(self@),
    {
        let mut tags: Vec<&'static str> = Vec::new();
        if self.locked {
            tags.push("locked");
        }
        if self.prunable {
            tags.push("prunable");
        }
        assert(tags@.map_values(|t: &str| t@) =~= tags_of(self@));
        tags
    }

    /// ANSI 256-colour index for the row, or `None` for an ordinary tree: grey
    /// for a tree git cannot use — whichever one the shell stands in — green for
    /// where you already are, yellow for one with no branch to land on.
    pub fn color(&self) -> (r: Option<u8>)
        ensures
            r == worktree_color(self@),
    {
        if self.prunable {
            return Some(8);
        }
        if self.current {
            return Some(2);
        }
        if self.branch.unicode_len() == 0 {
            return Some(3);
        }
        None
    }
}

/// A porcelain line as key and value: split at the first space, the whole line
/// a key when it has none.
pub open spec fn key_value(line: Seq<char>) -> (Seq<char>, Seq<char>) {
    match split_once(line, ' ') {
        Some((k, v)) => (k, v),
        None => (line, Seq::empty()),
    }
}

/// A record freshly opened by `worktree <path>`.
pub open spec fn fresh_tree(path: Seq<char>) -> WorktreeView {
    WorktreeView {
        path,
        branch: Seq::empty(),
        head: Seq::empty(),
        bare: false,
        locked: false,
        prunable: false,
        current: false,
    }
}

/// An attribute line applied to the record it belongs to. Unknown attributes
/// change nothing.
pub open spec fn apply_attr(w: WorktreeView, key: Seq<char>, value: Seq<char>) -> WorktreeView {
    if key == "HEAD"@ {
        WorktreeView { head: value, ..w }
    } else if key == "branch"@ {
        WorktreeView {
            branch: match strip_prefix(value, "refs/heads/"@) {
                Some(b) => b,
                None => value,
            },
            ..w
        }
    } else if key == "bare"@ {
        WorktreeView { bare: true, ..w }
    } else if key == "locked"@ {
        WorktreeView { locked: true, ..w }
    } else if key == "prunable"@ {
        WorktreeView { prunable: true, ..w }
    } else {
        w
    }
}

/// Reading the porcelain listing one line at a time: the records closed so far,
/// and the one open.
pub open spec fn tree_step(
    st: (Seq<WorktreeView>, Option<WorktreeView>),
    line: Seq<char>,
) -> (Seq<WorktreeView>, Option<WorktreeView>) {
    let (key, value) = key_value(line);
    if key == "worktree"@ {
        (
            match st.1 {
                Some(w) => st.0.push(w),
                None => st.0,
            },
            if value.len() > 0 {
                Some(fresh_tree(value))
            } else {
                None
            },
        )
    } else {
        match st.1 {
            Some(w) => (st.0, Some(apply_attr(w, key, value))),
            None => st,
        }
    }
}

pub open spec fn tree_fold(ls: Seq<Seq<char>>) -> (Seq<WorktreeView>, Option<WorktreeView>)
    decreases ls.len(),
{
    if ls.len() == 0 {
        (Seq::empty(), None)
    } else {
        tree_step(tree_fold(ls.drop_last()), ls.last())
    }
}

/// Every record of `git worktree list --porcelain`, in the order git wrote
/// them.
pub open spec fn worktrees_of(output: Seq<char>) -> Seq<WorktreeView> {
    let st = tree_fold(lines(output));
    match st.1 {
        Some(w) => st.0.push(w),
        None => st.0,
    }
}

pub open spec fn opt_tree(o: Option<Worktree>) -> Option<WorktreeView> {
    match o {
        Some(w) => Some(w@),
        None => None,
    }
}

fn apply_line(current: &mut Worktree, key: &Vec<char>, value: &Vec<char>)
    ensures
        final(current)@ == apply_attr(old(current)@, key@, value@),
{
    assert(key@.subrange(0, key@.len() as int) =~= key@);
    let n = key.len();
    if crate::text::range_is(key, 0, n, "HEAD") {
        current.head = string_from(value);
    } else if crate::text::range_is(key, 0, n, "branch") {
        current.branch = match strip_prefix_vec(value, "refs/heads/") {
            Some(b) => string_from(&b),
            None => string_from(value),
        };
    } else if crate::text::range_is(key, 0, n, "bare") {
        current.bare = true;
    } else if crate::text::range_is(key, 0, n, "locked") {
        current.locked = true;
    } else if crate::text::range_is(key, 0, n, "prunable") {
        current.prunable = true;
    }
}

/// Parse `git worktree list --porcelain`.
///
/// Each record opens with a `worktree <path>` line and is followed by its
/// attributes, one per line. A record is closed by the next `worktree` line
/// rather than by the blank line between them, so an attribute git adds later
/// cannot be mistaken for a new record; attributes before the first record
/// belong to nothing.
pub fn parse_worktrees(output: &str) -> (r: Vec<Worktree>)
    ensures
        r@.map_values(|w: Worktree| w@) == worktrees_of(output@),
{
    let ls = lines_of(output);
    let ghost lv = ls@.map_values(|p: Vec<char>| p@);
    let mut done: Vec<Worktree> = Vec::new();
    let mut current: Option<Worktree> = None;
    let mut i: usize = 0;
    while i < ls.len()
        invariant
            lv == ls@.map_values(|p: Vec<char>| p@),
            lv == lines(output@),
            i <= ls@.len(),
            (done@.map_values(|w: Worktree| w@), opt_tree(current)) == tree_fold(lv.take(i as int)),
        decreases ls@.len() - i,
    {
        assert(lv.take(i + 1).drop_last() =~= lv.take(i as int));
        assert(lv.take(i + 1).last() == lv[i as int]);
        assert(lv[i as int] == ls@[i as int]@);
        let line = &ls[i];
        let (key, value) = match split_once_vec(line, ' ') {
            Some(kv) => kv,
            None => (crate::text::slice_vec(line, 0, line.len()), Vec::new()),
        };
        assert(line@.subrange(0, line@.len() as int) =~= line@);
        assert((key@, value@) == key_value(line@)) by {
            if split_once(line@, ' ') is None {
                assert(value@ =~= Seq::<char>::empty());
            }
        }
        let ghost before = done@.map_values(|w: Worktree| w@);
        if crate::text::range_is(&key, 0, key.len(), "worktree") {
            assert(key@.subrange(0, key@.len() as int) =~= key@);
            match current {
                Some(w) => {
                    done.push(w);
                    assert(done@.map_values(|w: Worktree| w@) =~= before.push(w@));
                },
                None => {},
            }
            current = if value.len() > 0 {
                Some(
                    Worktree {
                        path: string_from(&value),
                        branch: String::new(),
                        head: String::new(),
                        bare: false,
                        locked: false,
                        prunable: false,
                        current: false,
                    },
                )
            } else {
                None
            };
        } else {
            assert(key@.subrange(0, key@.len() as int) =~= key@);
            match current {
                Some(mut w) => {
                    apply_line(&mut w, &key, &value);
                    current = Some(w);
                },
                None => {},
            }
        }
        i += 1;
    }
    assert(lv.take(ls@.len() as int) =~= lv);
    let ghost closed = done@.map_values(|w: Worktree| w@);
    match current {
        Some(w) => {
            done.push(w);
            assert(done@.map_values(|w: Worktree| w@) =~= closed.push(w@));
        },
        None => {},
    }
    done
}

/// A tree with `current` set as given, everything else as it was.
pub open spec fn with_current(w: WorktreeView, current: bool) -> WorktreeView {
    WorktreeView { current, ..w }
}

/// Mark the tree `here` is inside, so a listing can point at it.
///
/// `resolve` is how a path is compared — canonicalisation, for the caller that
/// reached a tree through a symlink: a tree is current when its resolved path
/// is `here` resolved. What is displayed stays as git gave it. Outside a
/// repository — no `here` — no tree is current and nothing changes.
pub fn mark_current<F: Fn(&str) -> String>(
    worktrees: Vec<Worktree>,
    here: Option<&str>,
    resolve: F,
) -> (r: Vec<Worktree>)
    requires
        forall|p: &str| #[trigger] resolve.requires((p,)),
    ensures
        r@.len() == worktrees@.len(),
        here is None ==> r@.map_values(|w: Worktree| w@) == worktrees@.map_values(
            |w: Worktree| w@,
        ),
        here matches Some(h) ==> exists|hr: String|
            #![trigger resolve.ensures((h,), hr)]
            resolve.ensures((h,), hr) && forall|i: int|
                #![trigger worktrees@[i]]
                0 <= i < worktrees@.len() ==> exists|s: &str, pr: String|
                    #![trigger resolve.ensures((s,), pr)]
                    s@ == worktrees@[i].path@ && resolve.ensures((s,), pr) && r@[i]@ == with_current(
                        worktrees@[i]@,
                        pr@ == hr@,
                    ),
{
    let h = match here {
        Some(h) => h,
        None => {
            return worktrees;
        },
    };
    let hr = resolve(h);
    let mut out: Vec<Worktree> = Vec::new();
    let mut i: usize = 0;
    while i < worktrees.len()
        invariant
            forall|p: &str| #[trigger] resolve.requires((p,)),
            here == Some(h),
            resolve.ensures((h,), hr),
            i <= worktrees@.len(),
            out@.len() == i,
            forall|j: int|
                #![trigger worktrees@[j]]
                0 <= j < i ==> exists|s: &str, pr: String|
                    #![trigger resolve.ensures((s,), pr)]
                    s@ == worktrees@[j].path@ && resolve.ensures((s,), pr) && out@[j]@ == with_current(
                        worktrees@[j]@,
                        pr@ == hr@,
                    ),
        decreases worktrees@.len() - i,
    {
        let w = &worktrees[i];
        let s = w.path.as_str();
        let pr = resolve(s);
        let current = crate::text::same(pr.as_str(), hr.as_str());
        let marked = Worktree {
            path: w.path.clone(),
            branch: w.branch.clone(),
            head: w.head.clone(),
            bare: w.bare,
            locked: w.locked,
            prunable: w.prunable,
            current,
        };
        let ghost prev = out@;
        out.push(marked);
        assert(resolve.ensures((s,), pr));
        assert(out@[i as int]@ == with_current(worktrees@[i as int]@, pr@ == hr@));
        assert forall|j: int| #![trigger worktrees@[j]] 0 <= j < i + 1 implies exists|s: &str, pr: String|
            #![trigger resolve.ensures((s,), pr)]
            s@ == worktrees@[j].path@ && resolve.ensures((s,), pr) && out@[j]@ == with_current(
                worktrees@[j]@,
                pr@ == hr@,
            ) by {
            if j < i {
                assert(out@[j] == prev[j]);
            } else {
                assert(resolve.ensures((s,), pr));
            }
        }
        i += 1;
    }
    assert(resolve.ensures((h,), hr));
    out
}

// --- what git is asked ------------------------------------------------------

pub open spec fn arg_views(args: Seq<String>) -> Seq<Seq<char>> {
    args.map_values(|a: String| a@)
}

/// git's own `error:` or `fatal:` opener, removed from a trimmed message: the
/// caller reports the line inside one of its own.
pub open spec fn unprefixed_of(message: Seq<char>) -> Seq<char> {
    let t = trim(message);
    match strip_prefix(t, "error: "@) {
        Some(rest) => rest,
        None => match strip_prefix(t, "fatal: "@) {
            Some(rest) => rest,
            None => t,
        },
    }
}

/// A message from git, trimmed, without its `error: ` or `fatal: ` opener.
pub fn unprefixed(message: &str) -> (r: &str)
    ensures
        r@ == unprefixed_of(message@),
{
    let t = crate::text::trim_str(message);
    let v = crate::text::chars_of(t);
    assert(v@.subrange(0, v@.len() as int) =~= v@);
    if range_starts_with(&v, 0, v.len(), "error: ") {
        let n = "error: ".unicode_len();
        return t.substring_char(n, v.len());
    }
    if range_starts_with(&v, 0, v.len(), "fatal: ") {
        let n = "fatal: ".unicode_len();
        return t.substring_char(n, v.len());
    }
    t
}

/// The arguments that perform a resolved checkout: `switch --track origin/foo`
/// creates local `foo` with its upstream already set.
pub fn checkout(action: &Checkout) -> (r: Vec<String>)
    ensures
        arg_views(r@) == (match action@ {
            CheckoutView::Switch(name) => seq!["switch"@, "--"@, name],
            CheckoutView::Track(remote_ref) => seq!["switch"@, "--track"@, remote_ref],
        }),
{
    let mut args: Vec<String> = Vec::new();
    args.push(String::from_str("switch"));
    match action {
        Checkout::Switch(name) => {
            args.push(String::from_str("--"));
            args.push(name.clone());
        },
        Checkout::Track { remote_ref } => {
            args.push(String::from_str("--track"));
            args.push(remote_ref.clone());
        },
    }
    assert(arg_views(args@) =~= (match action@ {
        CheckoutView::Switch(name) => seq!["switch"@, "--"@, name],
        CheckoutView::Track(remote_ref) => seq!["switch"@, "--track"@, remote_ref],
    }));
    args
}

/// The arguments that create a working tree at `path` from `source`.
pub fn add_worktree(path: &str, source: &TreeSource) -> (r: Vec<String>)
    ensures
        arg_views(r@) == (match source@ {
            TreeSourceView::Branch(name) => seq!["worktree"@, "add"@, path@, name],
            TreeSourceView::New(name) => seq!["worktree"@, "add"@, "-b"@, name, path@],
            TreeSourceView::Track(remote_ref, branch) => seq![
                "worktree"@,
                "add"@,
                "--track"@,
                "-b"@,
                branch,
                path@,
                remote_ref,
            ],
        }),
{
    let mut args: Vec<String> = Vec::new();
    args.push(String::from_str("worktree"));
    args.push(String::from_str("add"));
    match source {
        TreeSource::Branch(name) => {
            args.push(String::from_str(path));
            args.push(name.clone());
        },
        TreeSource::New(name) => {
            args.push(String::from_str("-b"));
            args.push(name.clone());
            args.push(String::from_str(path));
        },
        TreeSource::Track { remote_ref, branch } => {
            args.push(String::from_str("--track"));
            args.push(String::from_str("-b"));
            args.push(branch.clone());
            args.push(String::from_str(path));
            args.push(remote_ref.clone());
        },
    }
    assert(arg_views(args@) =~= (match source@ {
        TreeSourceView::Branch(name) => seq!["worktree"@, "add"@, path@, name],
        TreeSourceView::New(name) => seq!["worktree"@, "add"@, "-b"@, name, path@],
        TreeSourceView::Track(remote_ref, branch) => seq![
            "worktree"@,
            "add"@,
            "--track"@,
            "-b"@,
            branch,
            path@,
            remote_ref,
        ],
    }));
    args
}

/// The arguments that remove the working tree at `path`; `force` is git's own,
/// and is what a tree with uncommitted changes in it needs.
pub fn remove_worktree(path: &str, force: bool) -> (r: Vec<String>)
    ensures
        arg_views(r@) == seq!["worktree"@, "remove"@] + (if force {
            seq!["--force"@]
        } else {
            Seq::empty()
        }) + seq![path@],
{
    let mut args: Vec<String> = Vec::new();
    args.push(String::from_str("worktree"));
    args.push(String::from_str("remove"));
    if force {
        args.push(String::from_str("--force"));
    }
    args.push(String::from_str(path));
    assert(arg_views(args@) =~= seq!["worktree"@, "remove"@] + (if force {
        seq!["--force"@]
    } else {
        Seq::empty()
    }) + seq![path@]);
    args
}

/// The arguments that refresh remote-tracking refs, dropping ones deleted
/// upstream.
pub fn fetch() -> (r: Vec<String>)
    ensures
        arg_views(r@) == seq!["fetch"@, "--all"@, "--prune"@],
{
    let mut args: Vec<String> = Vec::new();
    args.push(String::from_str("fetch"));
    args.push(String::from_str("--all"));
    args.push(String::from_str("--prune"));
    assert(arg_views(args@) =~= seq!["fetch"@, "--all"@, "--prune"@]);
    args
}

/// The arguments that delete a local branch. `force` is git's `-D`: it deletes
/// a branch whose commits are in no other, which `-d` refuses.
pub fn delete_branch(name: &str, force: bool) -> (r: Vec<String>)
    ensures
        arg_views(r@) == seq![
            "branch"@,
            if force {
                "-D"@
            } else {
                "-d"@
            },
            "--"@,
            name@,
        ],
{
    let mut args: Vec<String> = Vec::new();
    args.push(String::from_str("branch"));
    args.push(String::from_str(if force {
        "-D"
    } else {
        "-d"
    }));
    args.push(String::from_str("--"));
    args.push(String::from_str(name));
    assert(arg_views(args@) =~= seq![
        "branch"@,
        if force {
            "-D"@
        } else {
            "-d"@
        },
        "--"@,
        name@,
    ]);
    args
}

/// A line of `git branch --merged` naming a branch: trimmed, and not blank.
pub open spec fn merged_name(line: Seq<char>) -> Option<Seq<char>> {
    if trim(line).len() > 0 {
        Some(trim(line))
    } else {
        None
    }
}

pub open spec fn merged_name_fn() -> spec_fn(Seq<char>) -> Option<Seq<char>> {
    |line: Seq<char>| merged_name(line)
}

/// The local branches `git branch --merged HEAD --format=%(refname:short)`
/// lists, each once: a branch is in the answer exactly when one of the lines
/// names it.
pub fn merged_branches(output: &str) -> (r: Vec<String>)
    ensures
        arg_views(r@).no_duplicates(),
        forall|name: Seq<char>|
            #![trigger arg_views(r@).contains(name)]
            arg_views(r@).contains(name) <==> lines(output@).filter_map(merged_name_fn()).contains(
                name,
            ),
{
    let ls = lines_of(output);
    let ghost lv = ls@.map_values(|p: Vec<char>| p@);
    let mut out: Vec<String> = Vec::new();
    let mut i: usize = 0;
    while i < ls.len()
        invariant
            lv == ls@.map_values(|p: Vec<char>| p@),
            lv == lines(output@),
            i <= ls@.len(),
            arg_views(out@).no_duplicates(),
            forall|name: Seq<char>|
                #![trigger arg_views(out@).contains(name)]
                arg_views(out@).contains(name) <==> lv.take(i as int).filter_map(
                    merged_name_fn(),
                ).contains(name),
        decreases ls@.len() - i,
    {
        proof {
            lv.lemma_filter_map_take_succ(merged_name_fn(), i as int);
        }
        assert(lv[i as int] == ls@[i as int]@);
        let line = &ls[i];
        let (a, b) = trim_range(line, 0, line.len());
        assert(line@.subrange(0, line@.len() as int) =~= line@);
        let ghost before = arg_views(out@);
        let ghost fm = lv.take(i as int).filter_map(merged_name_fn());
        if b > a {
            let name = crate::text::string_of(line, a, b);
            let mut seen = false;
            let mut k: usize = 0;
            while k < out.len()
                invariant
                    k <= out@.len(),
                    seen == exists|j: int| 0 <= j < k && out@[j]@ == name@,
                decreases out@.len() - k,
            {
                if out[k] == name {
                    seen = true;
                }
                k += 1;
            }
            if !seen {
                out.push(name);
                assert(arg_views(out@) =~= before.push(name@));
                assert forall|x: Seq<char>| #![trigger arg_views(out@).contains(x)] arg_views(out@).contains(x) <==> (fm + seq![name@]).contains(x) by {
                    if arg_views(out@).contains(x) {
                        let j = choose|j: int| 0 <= j < arg_views(out@).len() && arg_views(out@)[j] == x;
                        if j < before.len() {
                            assert(before.contains(x));
                            let m = choose|m: int| 0 <= m < fm.len() && fm[m] == x;
                            assert((fm + seq![name@])[m] == x);
                        } else {
                            assert((fm + seq![name@])[fm.len() as int] == x);
                        }
                    }
                    if (fm + seq![name@]).contains(x) {
                        let m = choose|m: int| 0 <= m < (fm + seq![name@]).len() && (fm + seq![name@])[m] == x;
                        if m < fm.len() {
                            assert(fm.contains(x));
                            assert(before.contains(x));
                            let j = choose|j: int| 0 <= j < before.len() && before[j] == x;
                            assert(arg_views(out@)[j] == x);
                        } else {
                            assert(arg_views(out@)[before.len() as int] == x);
                        }
                    }
                }
                assert forall|p: int, q: int| 0 <= p < q < arg_views(out@).len() implies arg_views(out@)[p] != arg_views(out@)[q] by {
                    if q == before.len() {
                        assert(arg_views(out@)[p] == out@[p]@);
                    }
                }
            } else {
                let ghost j = choose|j: int| 0 <= j < out@.len() && out@[j]@ == name@;
                assert(before[j] == name@);
                assert forall|x: Seq<char>| #![trigger arg_views(out@).contains(x)] arg_views(out@).contains(x) <==> (fm + seq![name@]).contains(x) by {
                    if (fm + seq![name@]).contains(x) {
                        let m = choose|m: int| 0 <= m < (fm + seq![name@]).len() && (fm + seq![name@])[m] == x;
                        if m < fm.len() {
                            assert(fm.contains(x));
                        } else {
                            assert(before.contains(x));
                        }
                    }
                    if arg_views(out@).contains(x) {
                        let p = choose|p: int| 0 <= p < before.len() && before[p] == x;
                        assert(before.contains(x));
                        assert(fm.contains(x));
                        let m = choose|m: int| 0 <= m < fm.len() && fm[m] == x;
                        assert((fm + seq![name@])[m] == x);
                    }
                }
            }
        } else {
            assert(lv.take(i + 1).filter_map(merged_name_fn()) =~= fm);
        }
        i += 1;
    }
    assert(lv.take(ls@.len() as int) =~= lv);
    out
}

/// Every branch in the repository, from the `for-each-ref` pass over
/// `refs/heads` and `refs/remotes` that git sorted newest first, ordered by
/// relevance: the default branch, then the current one, then local branches,
/// then remote-only ones.
pub fn branches(output: &str) -> (r: Vec<Branch>)
    ensures
        r@.map_values(|b: Branch| b@) == relevance_order(
            classified(ref_lines(output@)),
            default_of(ref_lines(output@)),
        ),
{
    let lines = parse_ref_lines(output);
    let default = default_branch(lines.as_slice());
    let listed = classify(lines.as_slice());
    match default {
        Some(d) => by_relevance(listed, Some(d.as_str())),
        None => by_relevance(listed, None),
    }
}

/// Every working tree in git's own order, the one `here` is in marked — see
/// [`mark_current`].
pub fn worktrees<F: Fn(&str) -> String>(output: &str, here: &str, resolve: F) -> (r: Vec<Worktree>)
    requires
        forall|p: &str| #[trigger] resolve.requires((p,)),
    ensures
        r@.len() == worktrees_of(output@).len(),
        exists|hr: String|
            #![trigger resolve.ensures((here,), hr)]
            resolve.ensures((here,), hr) && forall|i: int|
                #![trigger worktrees_of(output@)[i]]
                0 <= i < worktrees_of(output@).len() ==> exists|s: &str, pr: String|
                    #![trigger resolve.ensures((s,), pr)]
                    s@ == worktrees_of(output@)[i].path && resolve.ensures((s,), pr) && r@[i]@
                        == with_current(worktrees_of(output@)[i], pr@ == hr@),
{
    let parsed = parse_worktrees(output);
    let ghost pv = parsed@;
    let r = mark_current(parsed, Some(here), resolve);
    proof {
        let hr = choose|hr: String|
            #![trigger resolve.ensures((here,), hr)]
            resolve.ensures((here,), hr) && forall|i: int|
                #![trigger pv[i]]
                0 <= i < pv.len() ==> exists|s: &str, pr: String|
                    #![trigger resolve.ensures((s,), pr)]
                    s@ == pv[i].path@ && resolve.ensures((s,), pr) && r@[i]@ == with_current(
                        pv[i]@,
                        pr@ == hr@,
                    );
        assert forall|i: int|
            #![trigger worktrees_of(output@)[i]]
            0 <= i < worktrees_of(output@).len() implies exists|s: &str, pr: String|
                #![trigger resolve.ensures((s,), pr)]
                s@ == worktrees_of(output@)[i].path && resolve.ensures((s,), pr) && r@[i]@
                    == with_current(worktrees_of(output@)[i], pr@ == hr@) by {
            assert(pv[i]@ == worktrees_of(output@)[i]);
        }
    }
    r
}


// --- what git's answers mean ------------------------------------------------

/// The root of the repository the working directory is in, from what
/// `git rev-parse --show-toplevel` answered: its output trimmed, where git
/// succeeded and the output is not blank.
pub open spec fn root_answer(success: bool, stdout: Seq<char>) -> Option<Seq<char>> {
    if success && crate::text::trim(stdout).len() > 0 {
        Some(crate::text::trim(stdout))
    } else {
        None
    }
}

/// The repository root, where being outside a repository is a failure.
pub fn require_repo_root(success: bool, stdout: &str) -> (r: Result<String, String>)
    ensures
        match r {
            Ok(root) => root_answer(success, stdout@) == Some(root@),
            Err(e) => root_answer(success, stdout@) is None && e@ == "not inside a git repository"@,
        },
{
    if success && !crate::text::is_blank(stdout) {
        Ok(crate::text::trimmed(stdout))
    } else {
        Err(String::from_str("not inside a git repository"))
    }
}

/// The repository root, if the working directory is in one. Absence is an
/// answer rather than an error.
pub fn repo_root(success: bool, stdout: &str) -> (r: Option<String>)
    ensures
        match r {
            Some(root) => root_answer(success, stdout@) == Some(root@),
            None => root_answer(success, stdout@) is None,
        },
{
    match require_repo_root(success, stdout) {
        Ok(root) => Some(root),
        Err(_) => None,
    }
}

/// The branch checked out, from what `git rev-parse --abbrev-ref HEAD`
/// answered: none on a detached HEAD, where git answers with the literal
/// `HEAD`.
pub open spec fn branch_answer(success: bool, stdout: Seq<char>) -> Option<Seq<char>> {
    let b = crate::text::trim(stdout);
    if success && b.len() > 0 && b != "HEAD"@ {
        Some(b)
    } else {
        None
    }
}

/// The branch the working directory has checked out, if any.
pub fn current_branch(success: bool, stdout: &str) -> (r: Option<String>)
    ensures
        match r {
            Some(b) => branch_answer(success, stdout@) == Some(b@),
            None => branch_answer(success, stdout@) is None,
        },
{
    if !success {
        return None;
    }
    let branch = crate::text::trimmed(stdout);
    if crate::text::is_blank(stdout) || crate::text::same(branch.as_str(), "HEAD") {
        None
    } else {
        Some(branch)
    }
}

/// What a failed git command is reported as: what it wrote on stderr,
/// trimmed, or `git <args> failed` where it wrote nothing.
pub open spec fn failure_text(args: Seq<Seq<char>>, stderr: Seq<char>) -> Seq<char> {
    if crate::text::trim(stderr).len() == 0 {
        "git "@ + crate::text::join(args, " "@) + " failed"@
    } else {
        crate::text::trim(stderr)
    }
}

/// The message a failed git command is reported with.
pub fn failure(args: &Vec<String>, stderr: &str) -> (r: String)
    ensures
        r@ == failure_text(args@.map_values(|a: String| a@), stderr@),
{
    if crate::text::is_blank(stderr) {
        let mut out = String::from_str("git ");
        let joined = crate::text::join_strings(args, " ");
        out.append(joined.as_str());
        out.append(" failed");
        out
    } else {
        crate::text::trimmed(stderr)
    }
}

/// A repository's `info/exclude` with `<pattern>/` added on a line of its
/// own: a newline first where the file does not end in one.
pub open spec fn excluded(existing: Seq<char>, pattern: Seq<char>) -> Seq<char> {
    (if existing.len() > 0 && existing.last() != '\n' {
        existing + "\n"@
    } else {
        existing
    }) + pattern + "/\n"@
}

/// The text `info/exclude` is rewritten with to ignore `pattern` locally.
pub fn exclude_with(existing: &str, pattern: &str) -> (r: String)
    ensures
        r@ == excluded(existing@, pattern@),
{
    let v = crate::text::chars_of(existing);
    let mut out = String::from_str(existing);
    if v.len() > 0 && v[v.len() - 1] != '\n' {
        out.append("\n");
    }
    out.append(pattern);
    out.append("/\n");
    out
}

// --- what is asked of git ---------------------------------------------------

fn args_of(words: &[&str]) -> (r: Vec<String>)
    ensures
        arg_views(r@) == words@.map_values(|w: &str| w@),
{
    let mut out: Vec<String> = Vec::new();
    let mut i: usize = 0;
    while i < words.len()
        invariant
            i <= words@.len(),
            arg_views(out@) == words@.take(i as int).map_values(|w: &str| w@),
        decreases words@.len() - i,
    {
        let ghost before = out@;
        out.push(String::from_str(words[i]));
        assert(arg_views(out@) =~= arg_views(before).push(words@[i as int]@));
        assert(words@.take(i + 1).map_values(|w: &str| w@) =~= words@.take(i as int).map_values(|w: &str| w@).push(
            words@[i as int]@,
        ));
        i += 1;
    }
    assert(words@.take(words@.len() as int) =~= words@);
    out
}

/// The `for-each-ref` format: each field [`SEP`]-separated, in the order
/// [`parse_ref_lines`] reads them.
pub open spec fn ref_format() -> Seq<char> {
    "--format=%(refname)"@ + seq![SEP] + "%(HEAD)"@ + seq![SEP] + "%(symref:short)"@ + seq![SEP]
        + "%(upstream:short)"@ + seq![SEP] + "%(committerdate:relative)"@ + seq![SEP] + "%(subject)"@
}

/// The arguments that list every branch, newest first, for [`branches`].
pub fn ref_list_args() -> (r: Vec<String>)
    ensures
        arg_views(r@) == seq!["for-each-ref"@, "--sort=-committerdate"@, ref_format(), "refs/heads"@, "refs/remotes"@],
{
    let mut format = String::from_str("--format=%(refname)");
    crate::text::push_char(&mut format, SEP);
    format.append("%(HEAD)");
    crate::text::push_char(&mut format, SEP);
    format.append("%(symref:short)");
    crate::text::push_char(&mut format, SEP);
    format.append("%(upstream:short)");
    crate::text::push_char(&mut format, SEP);
    format.append("%(committerdate:relative)");
    crate::text::push_char(&mut format, SEP);
    format.append("%(subject)");
    assert(format@ =~= ref_format());
    let mut args: Vec<String> = Vec::new();
    args.push(String::from_str("for-each-ref"));
    args.push(String::from_str("--sort=-committerdate"));
    args.push(format);
    args.push(String::from_str("refs/heads"));
    args.push(String::from_str("refs/remotes"));
    assert(arg_views(args@) =~= seq![
        "for-each-ref"@,
        "--sort=-committerdate"@,
        ref_format(),
        "refs/heads"@,
        "refs/remotes"@,
    ]);
    args
}

/// The arguments that list every working tree, for [`worktrees`].
pub fn worktree_list_args() -> (r: Vec<String>)
    ensures
        arg_views(r@) == seq!["worktree"@, "list"@, "--porcelain"@],
{
    let r = args_of(&["worktree", "list", "--porcelain"]);
    assert(seq!["worktree", "list", "--porcelain"].map_values(|w: &str| w@) =~= seq!["worktree"@, "list"@, "--porcelain"@]);
    r
}

/// The arguments that list the local branches contained in `HEAD`, for
/// [`merged_branches`]. `HEAD` is spelled out: `--merged` takes an optional
/// commit, and would read the format argument as one.
pub fn merged_args() -> (r: Vec<String>)
    ensures
        arg_views(r@) == seq!["branch"@, "--merged"@, "HEAD"@, "--format=%(refname:short)"@],
{
    let r = args_of(&["branch", "--merged", "HEAD", "--format=%(refname:short)"]);
    assert(seq!["branch", "--merged", "HEAD", "--format=%(refname:short)"].map_values(|w: &str| w@) =~= seq![
        "branch"@,
        "--merged"@,
        "HEAD"@,
        "--format=%(refname:short)"@,
    ]);
    r
}

/// The arguments that ask for the root of the working tree, for
/// [`require_repo_root`].
pub fn root_args() -> (r: Vec<String>)
    ensures
        arg_views(r@) == seq!["rev-parse"@, "--show-toplevel"@],
{
    let r = args_of(&["rev-parse", "--show-toplevel"]);
    assert(seq!["rev-parse", "--show-toplevel"].map_values(|w: &str| w@) =~= seq!["rev-parse"@, "--show-toplevel"@]);
    r
}

/// The arguments that ask which branch is checked out, for
/// [`current_branch`].
pub fn current_branch_args() -> (r: Vec<String>)
    ensures
        arg_views(r@) == seq!["rev-parse"@, "--abbrev-ref"@, "HEAD"@],
{
    let r = args_of(&["rev-parse", "--abbrev-ref", "HEAD"]);
    assert(seq!["rev-parse", "--abbrev-ref", "HEAD"].map_values(|w: &str| w@) =~= seq![
        "rev-parse"@,
        "--abbrev-ref"@,
        "HEAD"@,
    ]);
    r
}

/// The arguments that ask where the repository's common git directory is —
/// where `info/exclude` lives, also for a linked worktree.
pub fn common_dir_args() -> (r: Vec<String>)
    ensures
        arg_views(r@) == seq!["rev-parse"@, "--path-format=absolute"@, "--git-common-dir"@],
{
    let r = args_of(&["rev-parse", "--path-format=absolute", "--git-common-dir"]);
    assert(seq!["rev-parse", "--path-format=absolute", "--git-common-dir"].map_values(|w: &str| w@) =~= seq![
        "rev-parse"@,
        "--path-format=absolute"@,
        "--git-common-dir"@,
    ]);
    r
}

/// The arguments that ask whether git already ignores `path`.
pub fn check_ignore_args(path: &str) -> (r: Vec<String>)
    ensures
        arg_views(r@) == seq!["check-ignore"@, "--quiet"@, "--"@, path@],
{
    let mut r = args_of(&["check-ignore", "--quiet", "--"]);
    let ghost before = r@;
    assert(seq!["check-ignore", "--quiet", "--"].map_values(|w: &str| w@) =~= seq![
        "check-ignore"@,
        "--quiet"@,
        "--"@,
    ]);
    r.push(String::from_str(path));
    assert(arg_views(r@) =~= arg_views(before).push(path@));
    assert(arg_views(r@) =~= seq!["check-ignore"@, "--quiet"@, "--"@, path@]);
    r
}

} // verus!
