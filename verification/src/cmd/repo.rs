//! `scriv repo`'s decisions: what to say when there is nowhere to look, what
//! `repo open` opens, where a clone goes, and how a clone selector row is
//! laid out.

use vstd::prelude::*;
use vstd::multiset::Multiset;

use crate::cmd::worktree::widest;
use crate::config::trim_slashes;
use crate::gh::{date_part, repo_tags, valid_slug, valid_slug_of, visibility_of, visibility_tag, Repo, RepoView, Visibility};
use crate::note::{padded, push_column, Tint};
use crate::path::{join_path, join_path_str};
use crate::files::strs;
use crate::note::{lemma_lex_total, lemma_lex_trans, lex_le};
use crate::text::{
    chars_of, decimal, decimal_string, eq_ascii_ci, eq_ignore_case, join, join_strings, lower, skip_ws_back, split_once, string_of, to_lower, trim,
    trim_end, trimmed,
};

verus! {

/// What to say when there is nowhere to look for repositories: someone with a
/// config is told to set the root, someone without one to write one.
pub open spec fn no_root_text(config_path: Seq<char>, config_exists: bool) -> Seq<char> {
    if config_exists {
        "no `root` configured in "@ + config_path
            + " — set `[repo] root` to the directory holding your <owner>/<repo> checkouts"@
    } else {
        "no configuration at "@ + config_path + " — run `scriv config init` to write a starter one"@
    }
}

/// What to say when there is nowhere to look for repositories.
pub fn no_root_message(config_path: &str, config_exists: bool) -> (r: String)
    ensures
        r@ == no_root_text(config_path@, config_exists),
{
    if config_exists {
        let mut out = String::from_str("no `root` configured in ");
        out.append(config_path);
        out.append(" — set `[repo] root` to the directory holding your <owner>/<repo> checkouts");
        out
    } else {
        let mut out = String::from_str("no configuration at ");
        out.append(config_path);
        out.append(" — run `scriv config init` to write a starter one");
        out
    }
}

/// What to say when an owner has no repository to show; without
/// `--archived`, that flag is the way to see more.
pub open spec fn empty_text(owner: Seq<char>, archived: bool) -> Seq<char> {
    if archived {
        "no repositories found for "@ + owner
    } else {
        "no unarchived repositories found for "@ + owner + "; pass --archived to include those"@
    }
}

/// What to say when an owner has no repository to show.
pub fn empty_message(owner: &str, archived: bool) -> (r: String)
    ensures
        r@ == empty_text(owner@, archived),
{
    if archived {
        let mut out = String::from_str("no repositories found for ");
        out.append(owner);
        out
    } else {
        let mut out = String::from_str("no unarchived repositories found for ");
        out.append(owner);
        out.append("; pass --archived to include those");
        out
    }
}

/// What `repo open` opens.
#[derive(Debug, PartialEq, Eq)]
pub enum Target {
    /// The repository the shell is standing in.
    Here(String),
    /// Whichever one the user selects.
    Select,
}

/// Decide what `repo open` opens: standing in a repository already says which
/// one is meant, unless `--select` asks for the selector.
pub fn target(root: Option<String>, force_select: bool) -> (r: Target)
    ensures
        match r {
            Target::Here(p) => !force_select && root is Some && p@ == root->0@,
            Target::Select => force_select || root is None,
        },
{
    match root {
        Some(root) => if !force_select {
            Target::Here(root)
        } else {
            Target::Select
        },
        None => Target::Select,
    }
}

/// Where `owner/name` belongs on disk: `<root>/<owner>/<name>`, the layout
/// discovery walks.
pub open spec fn destination_of(root: Seq<char>, owner: Seq<char>, name: Seq<char>) -> Seq<char> {
    join_path(join_path(root, owner), name)
}

/// Where `owner/name` belongs on disk.
pub fn destination(root: &str, owner: &str, name: &str) -> (r: String)
    ensures
        r@ == destination_of(root@, owner@, name@),
{
    let dir = join_path_str(root, owner);
    join_path_str(dir.as_str(), name)
}

/// The owner a path under `root` names: the first directory below the root,
/// as `<root>/<owner>/<repo>` lays repositories out.
pub open spec fn owner_of_spec(root: Seq<char>, path: Seq<char>) -> Option<Seq<char>> {
    let r = trim_slashes(root);
    if path.len() > r.len() && path.take(r.len() as int) == r && path[r.len() as int] == '/' {
        let rest = path.skip(r.len() as int + 1);
        let owner = match rest.index_of_first('/') {
            Some(i) => rest.take(i),
            None => rest,
        };
        if owner.len() > 0 {
            Some(owner)
        } else {
            None
        }
    } else {
        None
    }
}

/// The owner a path under `root` names, if it names one.
pub fn owner_of(root: &str, path: &str) -> (r: Option<String>)
    ensures
        match r {
            Some(o) => owner_of_spec(root@, path@) == Some(o@),
            None => owner_of_spec(root@, path@) is None,
        },
{
    let rv = chars_of(root);
    assert(rv@.subrange(0, rv@.len() as int) =~= rv@);
    let end = crate::config::slashless_end(&rv, rv.len());
    let pv = chars_of(path);
    if !(pv.len() > end) {
        return None;
    }
    let mut i: usize = 0;
    while i < end
        invariant
            rv@ == root@,
            pv@ == path@,
            rv@.subrange(0, end as int) == trim_slashes(root@),
            end <= rv@.len(),
            end < pv@.len(),
            i <= end,
            forall|j: int| 0 <= j < i ==> pv@[j] == rv@[j],
        decreases end - i,
    {
        if pv[i] != rv[i] {
            assert(pv@.take(end as int)[i as int] != rv@.subrange(0, end as int)[i as int]);
            assert(pv@.take(end as int) != rv@.subrange(0, end as int));
            assert(rv@.subrange(0, end as int) == trim_slashes(root@));
            return None;
        }
        i += 1;
    }
    assert(pv@.take(end as int) =~= rv@.subrange(0, end as int));
    if pv[end] != '/' {
        return None;
    }
    let start = end + 1;
    let ghost rest = pv@.skip(start as int);
    assert(pv@.subrange(start as int, pv@.len() as int) =~= rest);
    proof {
        rest.index_of_first_ensures('/');
    }
    let stop = match crate::text::find_in(&pv, start, pv.len(), '/') {
        Some(k) => start + k,
        None => pv.len(),
    };
    assert(pv@.subrange(start as int, stop as int) =~= (match rest.index_of_first('/') {
        Some(k) => rest.take(k),
        None => rest,
    }));
    if stop == start {
        return None;
    }
    Some(string_of(&pv, start, stop))
}

/// A clone lands where discovery reads its owner back: the path a clone of
/// `owner/name` is written to names `owner`, for any owner and name that are
/// single path components.
pub proof fn lemma_destination_names_its_owner(root: Seq<char>, owner: Seq<char>, name: Seq<char>)
    requires
        owner.len() > 0,
        !owner.contains('/'),
        name.len() > 0,
        name[0] != '/',
        root.len() > 0,
        root.last() != '/',
    ensures
        owner_of_spec(root, destination_of(root, owner, name)) == Some(owner),
{
    let d = destination_of(root, owner, name);
    assert(trim_slashes(root) == root);
    assert(owner[0] != '/') by {
        if owner[0] == '/' {
            assert(owner.contains('/'));
        }
    }
    assert(join_path(root, owner) == root + seq!['/'] + owner);
    let ro = root + seq!['/'] + owner;
    assert(ro.last() != '/') by {
        assert(ro.last() == owner.last());
        if owner.last() == '/' {
            assert(owner.contains('/'));
        }
    }
    assert(d == ro + seq!['/'] + name);
    assert(d.take(root.len() as int) =~= root);
    assert(d[root.len() as int] == '/');
    let rest = d.skip(root.len() as int + 1);
    assert(rest =~= owner + seq!['/'] + name);
    rest.index_of_first_ensures('/');
    assert(rest[owner.len() as int] == '/');
    assert forall|j: int| 0 <= j < owner.len() implies rest[j] != '/' by {
        assert(rest[j] == owner[j]);
        if owner[j] == '/' {
            assert(owner.contains('/'));
        }
    }
    assert(rest.index_of_first('/') == Some(owner.len() as int));
    assert(rest.take(owner.len() as int) =~= owner);
}

/// A repository's name: what follows the `/` of `owner/name`.
pub open spec fn repo_name(v: RepoView) -> Seq<char> {
    match split_once(v.full_name, '/') {
        Some((_, name)) => name,
        None => v.full_name,
    }
}

/// A repository's tags as one column.
pub open spec fn tag_column_of(v: RepoView) -> Seq<char> {
    join(repo_tags(v.archived, visibility_of(v.visibility), v.fork), " "@)
}

/// The tags column: what makes this repository unusual, in one string.
pub fn tag_column(repo: &Repo) -> (r: String)
    ensures
        r@ == tag_column_of(repo@),
{
    let t = repo.tags();
    let mut ts: Vec<String> = Vec::new();
    let mut k: usize = 0;
    while k < t.len()
        invariant
            k <= t@.len(),
            ts@.map_values(|s: String| s@) == t@.map_values(|s: &str| s@).take(k as int),
        decreases t@.len() - k,
    {
        let ghost prev = ts@;
        ts.push(String::from_str(t[k]));
        assert(ts@.map_values(|s: String| s@) =~= prev.map_values(|s: String| s@).push(t@[k as int]@));
        assert(t@.map_values(|s: &str| s@).take(k + 1) =~= t@.map_values(|s: &str| s@).take(k as int).push(
            t@[k as int]@,
        ));
        k += 1;
    }
    assert(t@.map_values(|s: &str| s@).take(t@.len() as int) =~= t@.map_values(|s: &str| s@));
    join_strings(&ts, " ")
}

/// How wide each column of the clone selector is, measured over the whole
/// list so the columns line up.
#[derive(Debug, Clone, Copy)]
pub struct Widths {
    pub name: usize,
    pub tags: usize,
    pub pushed: usize,
}

impl Widths {
    /// The widths `repos` need, in characters.
    pub fn of(repos: &[Repo]) -> (r: Widths)
        ensures
            r.name == widest(repos@.map_values(|x: Repo| repo_name(x@))),
            r.tags == widest(repos@.map_values(|x: Repo| tag_column_of(x@))),
            r.pushed == widest(repos@.map_values(|x: Repo| date_part(x@.pushed_at))),
    {
        let ghost names = repos@.map_values(|x: Repo| repo_name(x@));
        let ghost tags = repos@.map_values(|x: Repo| tag_column_of(x@));
        let ghost dates = repos@.map_values(|x: Repo| date_part(x@.pushed_at));
        let mut w = Widths { name: 0, tags: 0, pushed: 0 };
        let mut i: usize = 0;
        while i < repos.len()
            invariant
                names == repos@.map_values(|x: Repo| repo_name(x@)),
                tags == repos@.map_values(|x: Repo| tag_column_of(x@)),
                dates == repos@.map_values(|x: Repo| date_part(x@.pushed_at)),
                i <= repos@.len(),
                w.name == widest(names.take(i as int)),
                w.tags == widest(tags.take(i as int)),
                w.pushed == widest(dates.take(i as int)),
            decreases repos@.len() - i,
        {
            assert(names.take(i + 1).drop_last() =~= names.take(i as int));
            assert(tags.take(i + 1).drop_last() =~= tags.take(i as int));
            assert(dates.take(i + 1).drop_last() =~= dates.take(i as int));
            let a = repos[i].name().unicode_len();
            let t = tag_column(&repos[i]);
            let b = t.unicode_len();
            let c = repos[i].pushed_date().unicode_len();
            if a > w.name {
                w.name = a;
            }
            if b > w.tags {
                w.tags = b;
            }
            if c > w.pushed {
                w.pushed = c;
            }
            i += 1;
        }
        assert(names.take(repos@.len() as int) =~= names);
        assert(tags.take(repos@.len() as int) =~= tags);
        assert(dates.take(repos@.len() as int) =~= dates);
        w
    }
}

/// One row of the clone selector, split into what a query may match — the
/// name — and what it may not: the mark ahead of it and the rest after it.
#[derive(Debug)]
pub struct CloneRow {
    /// The tick for a repository already on disk, ahead of the name.
    pub mark: String,
    pub mark_tints: Vec<Tint>,
    /// The only part a query is matched against.
    pub name: String,
    /// The tags, the date it was last pushed to, and the description.
    pub rest: String,
    pub rest_tints: Vec<Tint>,
}

/// The colour a visibility's tag is drawn in, if any.
pub open spec fn visibility_color(v: Visibility) -> Option<u8> {
    match v {
        Visibility::Public => None,
        Visibility::Private => Some(3u8),
        Visibility::Internal => Some(5u8),
    }
}

/// Where the visibility tag starts in a clone row's rest: after the two
/// spaces, and after `archived ` where that comes first.
pub open spec fn visibility_at(v: RepoView) -> nat {
    if v.archived {
        11
    } else {
        2
    }
}

/// A description, empty where there is none.
pub open spec fn desc_text(d: Option<Seq<char>>) -> Seq<char> {
    match d {
        Some(s) => s,
        None => Seq::empty(),
    }
}

/// The rest of a clone row: the tags padded to their column, the pushed date
/// padded to its, then the description, trimmed; trailing space dropped.
pub open spec fn rest_of(v: RepoView, w: Widths) -> Seq<char> {
    trim_end(
        "  "@ + padded(tag_column_of(v), w.tags as nat) + "  "@ + padded(date_part(v.pushed_at), w.pushed as nat)
            + "  "@ + trim(desc_text(v.description)),
    )
}

/// One row of the clone selector. A tick, in green, marks a repository
/// already on disk; the visibility tag alone is coloured, in its own colour;
/// nothing tints the row as a whole.
pub fn clone_row(repo: &Repo, present: bool, widths: &Widths) -> (r: CloneRow)
    ensures
        r.mark@ == (if present { "✓"@ } else { " "@ }) + " "@,
        r.mark_tints@.len() == (if present { 1int } else { 0int }),
        present ==> r.mark_tints@[0].range.start == 0 && r.mark_tints@[0].range.end == 1
            && r.mark_tints@[0].color == 2,
        r.name@ == padded(repo_name(repo@), widths.name as nat),
        r.rest@ == rest_of(repo@, *widths),
        r.rest_tints@.len() == (if visibility_color(visibility_of(repo@.visibility)) is Some {
            1int
        } else {
            0int
        }),
        visibility_color(visibility_of(repo@.visibility)) matches Some(c) ==> {
            &&& r.rest_tints@[0].range.start == visibility_at(repo@)
            &&& r.rest_tints@[0].range.end == visibility_at(repo@) + visibility_tag(
                visibility_of(repo@.visibility),
            ).len()
            &&& r.rest_tints@[0].color == c
        },
{
    proof {
        reveal_strlit("✓");
        reveal_strlit("archived");
        reveal_strlit("private");
        reveal_strlit("internal");
    }
    let mut mark = String::from_str(if present { "✓" } else { " " });
    let mut mark_tints: Vec<Tint> = Vec::new();
    if present {
        mark_tints.push(Tint { range: 0..1, color: 2 });
    }
    mark.append(" ");

    let mut name = String::new();
    push_column(&mut name, repo.name(), widths.name);

    let visibility = repo.visibility();
    let mut rest_tints: Vec<Tint> = Vec::new();
    match visibility.color() {
        Some(c) => {
            let at: usize = if repo.archived { 11 } else { 2 };
            let len: usize = match visibility {
                Visibility::Private => 7,
                _ => 8,
            };
            rest_tints.push(Tint { range: at..at + len, color: c });
        },
        None => {},
    }

    let mut rest = String::from_str("  ");
    let tags = tag_column(repo);
    push_column(&mut rest, tags.as_str(), widths.tags);
    rest.append("  ");
    push_column(&mut rest, repo.pushed_date(), widths.pushed);
    rest.append("  ");
    let description = trimmed(repo.description());
    rest.append(description.as_str());
    let v = chars_of(rest.as_str());
    assert(v@.subrange(0, v@.len() as int) =~= v@);
    let b = skip_ws_back(&v, 0, v.len());
    let rest = string_of(&v, 0, b);
    CloneRow { mark, mark_tints, name, rest, rest_tints }
}

/// Which of an owner's repositories the clone selector is showing.
#[derive(Debug, Clone, Copy, PartialEq, Eq, Structural)]
pub enum CloneView {
    /// Everything the owner has, cloned or not.
    All,
    /// Only the ones not already under the root: what is left to clone.
    Missing,
}

impl CloneView {
    /// The view at a position of the selector's view keys: all, then missing.
    pub fn of(index: usize) -> (r: Self)
        ensures
            r == (if index == 1 { CloneView::Missing } else { CloneView::All }),
    {
        if index == 1 {
            CloneView::Missing
        } else {
            CloneView::All
        }
    }

    /// Whether a repository belongs in this view; `present` is whether it is
    /// already on disk.
    pub fn shows(self, present: bool) -> (r: bool)
        ensures
            r == (self == CloneView::All || !present),
    {
        match self {
            CloneView::All => true,
            CloneView::Missing => !present,
        }
    }
}

// --- owners to offer --------------------------------------------------------

/// How an owner is ordered: by its name in ASCII lower case, since GitHub
/// treats `Acme` and `acme` as one owner.
pub open spec fn owner_key(s: Seq<char>) -> Seq<char> {
    s.map_values(|c: char| lower(c))
}

pub open spec fn owner_le(a: Seq<char>, b: Seq<char>) -> bool {
    lex_le(owner_key(a), owner_key(b))
}

/// Whether an owner spelled like `o`, case aside, is among `seen`.
pub open spec fn seen_owner(seen: Seq<Seq<char>>, o: Seq<char>) -> bool {
    exists|j: int| 0 <= j < seen.len() && eq_ascii_ci(#[trigger] seen[j], o)
}

/// `s` in order, empty names dropped and each owner kept the first time it
/// appears, case aside.
pub open spec fn distinct_owners(s: Seq<Seq<char>>) -> Seq<Seq<char>>
    decreases s.len(),
{
    if s.len() == 0 {
        Seq::empty()
    } else {
        let rest = distinct_owners(s.drop_last());
        let o = s.last();
        if o.len() == 0 || seen_owner(rest, o) {
            rest
        } else {
            rest.push(o)
        }
    }
}

/// The directories under the root that name an owner: not the hidden ones.
pub open spec fn local_owners(names: Seq<String>) -> Seq<String>
    decreases names.len(),
{
    if names.len() == 0 {
        Seq::empty()
    } else {
        let rest = local_owners(names.drop_last());
        let n = names.last();
        if n@.len() > 0 && n@[0] == '.' {
            rest
        } else {
            rest.push(n)
        }
    }
}

pub open spec fn owners_sorted(s: Seq<Seq<char>>) -> bool {
    forall|i: int, j: int| 0 <= i < j < s.len() ==> owner_le(#[trigger] s[i], #[trigger] s[j])
}

proof fn lemma_owner_order()
    ensures
        forall|a: Seq<char>, b: Seq<char>| owner_le(a, b) || owner_le(b, a),
        forall|a: Seq<char>, b: Seq<char>, c: Seq<char>| owner_le(a, b) && owner_le(b, c) ==> owner_le(a, c),
{
    assert forall|a: Seq<char>, b: Seq<char>| owner_le(a, b) || owner_le(b, a) by {
        lemma_lex_total(owner_key(a), owner_key(b));
    }
    assert forall|a: Seq<char>, b: Seq<char>, c: Seq<char>| owner_le(a, b) && owner_le(b, c) implies owner_le(
        a,
        c,
    ) by {
        lemma_lex_trans(owner_key(a), owner_key(b), owner_key(c));
    }
}

fn owner_key_of(s: &str) -> (r: Vec<char>)
    ensures
        r@ == owner_key(s@),
{
    let v = chars_of(s);
    let mut out: Vec<char> = Vec::new();
    let mut i: usize = 0;
    while i < v.len()
        invariant
            v@ == s@,
            i <= v@.len(),
            out@ == owner_key(v@.take(i as int)),
        decreases v@.len() - i,
    {
        out.push(to_lower(v[i]));
        assert(owner_key(v@.take(i + 1)) =~= owner_key(v@.take(i as int)).push(lower(v@[i as int])));
        i += 1;
    }
    assert(v@.take(v@.len() as int) =~= v@);
    out
}

fn keys_le(x: &Vec<char>, y: &Vec<char>) -> (r: bool)
    ensures
        r == lex_le(x@, y@),
{
    let mut i: usize = 0;
    assert(x@.skip(0) =~= x@);
    assert(y@.skip(0) =~= y@);
    while i < x.len() && i < y.len() && x[i] == y[i]
        invariant
            i <= x@.len(),
            i <= y@.len(),
            lex_le(x@, y@) == lex_le(x@.skip(i as int), y@.skip(i as int)),
        decreases x@.len() - i,
    {
        assert(x@.skip(i as int).drop_first() =~= x@.skip(i + 1));
        assert(y@.skip(i as int).drop_first() =~= y@.skip(i + 1));
        i += 1;
    }
    if i == x.len() {
        return true;
    }
    if i == y.len() {
        return false;
    }
    assert(x@.skip(i as int)[0] == x@[i as int]);
    assert(y@.skip(i as int)[0] == y@[i as int]);
    x[i] < y[i]
}

/// The first of `rest` that no other comes before.
fn first_owner(rest: &Vec<String>) -> (m: usize)
    requires
        rest@.len() > 0,
    ensures
        m < rest@.len(),
        forall|k: int| 0 <= k < rest@.len() ==> owner_le(rest@[m as int]@, #[trigger] rest@[k]@),
{
    proof {
        lemma_owner_order();
    }
    let mut m: usize = 0;
    let mut key = owner_key_of(rest[0].as_str());
    let mut k: usize = 1;
    while k < rest.len()
        invariant
            m < k <= rest@.len(),
            key@ == owner_key(rest@[m as int]@),
            forall|j: int| 0 <= j < k ==> owner_le(rest@[m as int]@, #[trigger] rest@[j]@),
            forall|a: Seq<char>, b: Seq<char>| owner_le(a, b) || owner_le(b, a),
            forall|a: Seq<char>, b: Seq<char>, c: Seq<char>| owner_le(a, b) && owner_le(b, c) ==> owner_le(a, c),
        decreases rest@.len() - k,
    {
        let other = owner_key_of(rest[k].as_str());
        if !keys_le(&key, &other) {
            assert(!owner_le(rest@[m as int]@, rest@[k as int]@));
            assert forall|j: int| 0 <= j <= k implies owner_le(rest@[k as int]@, #[trigger] rest@[j]@) by {
                if j < k {
                    assert(owner_le(rest@[m as int]@, rest@[j]@));
                }
            }
            m = k;
            key = other;
        }
        k += 1;
    }
    m
}

/// Order owner names case aside. The names are the same ones, in a new order.
pub fn sort_owners(names: Vec<String>) -> (r: Vec<String>)
    ensures
        r@.to_multiset() == names@.to_multiset(),
        owners_sorted(strs(r@)),
{
    broadcast use vstd::seq_lib::group_to_multiset_ensures;
    broadcast use vstd::multiset::group_multiset_axioms;

    let ghost orig = names@.to_multiset();
    let mut rest = names;
    let mut out: Vec<String> = Vec::new();
    while rest.len() > 0
        invariant
            out@.to_multiset().add(rest@.to_multiset()) == orig,
            forall|i: int, j: int| 0 <= i < j < out@.len() ==> owner_le(#[trigger] out@[i]@, #[trigger] out@[j]@),
            forall|i: int, k: int|
                0 <= i < out@.len() && 0 <= k < rest@.len() ==> owner_le(#[trigger] out@[i]@, #[trigger] rest@[k]@),
        decreases rest@.len(),
    {
        let m = first_owner(&rest);
        let ghost before_out = out@;
        let ghost before_rest = rest@;
        let x = rest.remove(m);
        assert(rest@ == before_rest.remove(m as int));
        out.push(x);
        proof {
            before_out.to_multiset_ensures();
            before_rest.to_multiset_ensures();
            assert(out@ == before_out.push(x));
            assert(before_rest[m as int] == x);
            assert(out@.to_multiset() =~= before_out.to_multiset().insert(x));
            assert(rest@.to_multiset() =~= before_rest.to_multiset().remove(x));
            assert(before_rest.to_multiset().count(x) > 0) by {
                assert(before_rest.contains(x)) by {
                    assert(before_rest[m as int] == x);
                }
            }
            assert(out@.to_multiset().add(rest@.to_multiset()) =~= before_out.to_multiset().add(
                before_rest.to_multiset(),
            ));
            assert forall|i: int, j: int| 0 <= i < j < out@.len() implies owner_le(
                #[trigger] out@[i]@,
                #[trigger] out@[j]@,
            ) by {
                if j == out@.len() - 1 {
                    assert(out@[j] == before_rest[m as int]);
                    assert(owner_le(before_out[i]@, before_rest[m as int]@));
                } else {
                    assert(out@[i] == before_out[i] && out@[j] == before_out[j]);
                }
            }
            assert forall|i: int, k: int| 0 <= i < out@.len() && 0 <= k < rest@.len() implies owner_le(
                #[trigger] out@[i]@,
                #[trigger] rest@[k]@,
            ) by {
                let kk = if k < m { k } else { k + 1 };
                assert(rest@[k] == before_rest[kk]);
                if i == out@.len() - 1 {
                    assert(out@[i] == before_rest[m as int]);
                } else {
                    assert(out@[i] == before_out[i]);
                }
            }
        }
    }
    proof {
        rest@.to_multiset_ensures();
        assert(rest@.to_multiset() =~= Multiset::empty());
        assert(out@.to_multiset().add(Multiset::empty()) =~= out@.to_multiset());
    }
    out
}

/// Every owner is offered once, case aside, and none is offered with an empty
/// name.
pub proof fn lemma_owners_offered_once(s: Seq<Seq<char>>)
    ensures
        forall|i: int, j: int|
            0 <= i < j < distinct_owners(s).len() ==> !eq_ascii_ci(
                #[trigger] distinct_owners(s)[i],
                #[trigger] distinct_owners(s)[j],
            ),
        forall|i: int| 0 <= i < distinct_owners(s).len() ==> (#[trigger] distinct_owners(s)[i]).len() > 0,
    decreases s.len(),
{
    if s.len() > 0 {
        let p = s.drop_last();
        lemma_owners_offered_once(p);
        let rest = distinct_owners(p);
        let o = s.last();
        if !(o.len() == 0 || seen_owner(rest, o)) {
            let d = rest.push(o);
            assert(distinct_owners(s) == d);
            assert forall|i: int, j: int| 0 <= i < j < d.len() implies !eq_ascii_ci(#[trigger] d[i], #[trigger] d[j]) by {
                if j == d.len() - 1 {
                    assert(d[i] == rest[i]);
                    assert(!eq_ascii_ci(rest[i], o));
                } else {
                    assert(d[i] == rest[i] && d[j] == rest[j]);
                }
            }
            assert forall|i: int| 0 <= i < d.len() implies (#[trigger] d[i]).len() > 0 by {
                if i < rest.len() {
                    assert(d[i] == rest[i]);
                }
            }
        }
    }
}

fn push_owner(out: &mut Vec<String>, owner: &str)
    ensures
        strs(final(out)@) == (if owner@.len() == 0 || seen_owner(strs(old(out)@), owner@) {
            strs(old(out)@)
        } else {
            strs(old(out)@).push(owner@)
        }),
{
    if owner.unicode_len() == 0 {
        return;
    }
    let ghost sv = strs(out@);
    let mut j: usize = 0;
    while j < out.len()
        invariant
            sv == strs(out@),
            j <= out@.len(),
            forall|k: int| 0 <= k < j ==> !eq_ascii_ci(#[trigger] sv[k], owner@),
        decreases out@.len() - j,
    {
        if eq_ignore_case(out[j].as_str(), owner) {
            assert(eq_ascii_ci(sv[j as int], owner@));
            assert(seen_owner(sv, owner@));
            return;
        }
        j += 1;
    }
    assert(!seen_owner(sv, owner@));
    out.push(String::from_str(owner));
    assert(strs(out@) =~= sv.push(owner@));
}

fn push_owners(out: &mut Vec<String>, owners: &Vec<String>, Ghost(start): Ghost<Seq<Seq<char>>>)
    requires
        strs(old(out)@) == distinct_owners(start),
    ensures
        strs(final(out)@) == distinct_owners(start + strs(owners@)),
{
    let ghost ov = strs(owners@);
    let mut i: usize = 0;
    while i < owners.len()
        invariant
            ov == strs(owners@),
            i <= owners@.len(),
            strs(out@) == distinct_owners(start + ov.take(i as int)),
        decreases owners@.len() - i,
    {
        assert((start + ov.take(i + 1)).drop_last() =~= start + ov.take(i as int));
        assert((start + ov.take(i + 1)).last() == ov[i as int]);
        push_owner(out, owners[i].as_str());
        i += 1;
    }
    assert(ov.take(ov.len() as int) =~= ov);
}

/// The owners worth offering, most useful first: those the config names,
/// then the ones already on disk under the root — hidden directories left
/// out, ordered case aside — then the ones GitHub says the user has. Each
/// owner is offered once, case aside, and an empty name never.
///
/// `local` is the names of the directories under the root, in any order.
pub fn owner_candidates(known: &Vec<String>, local: Vec<String>, asked: &Vec<String>) -> (r: Vec<String>)
    ensures
        exists|sorted: Seq<String>|
            #![trigger sorted.to_multiset()]
            {
                &&& sorted.to_multiset() == local_owners(local@).to_multiset()
                &&& owners_sorted(strs(sorted))
                &&& strs(r@) == distinct_owners(strs(known@) + strs(sorted) + strs(asked@))
            },
{
    broadcast use vstd::seq_lib::group_to_multiset_ensures;

    let mut shown: Vec<String> = Vec::new();
    let ghost lv = local@;
    let mut i: usize = 0;
    while i < local.len()
        invariant
            lv == local@,
            i <= local@.len(),
            shown@ == local_owners(lv.take(i as int)),
        decreases local@.len() - i,
    {
        assert(lv.take(i + 1).drop_last() =~= lv.take(i as int));
        let name = &local[i];
        let v = chars_of(name.as_str());
        if !(v.len() > 0 && v[0] == '.') {
            let ghost before = shown@;
            let copy = name.clone();
            assert(copy == *name);
            shown.push(copy);
            assert(shown@ =~= before.push(lv[i as int]));
        }
        i += 1;
    }
    assert(lv.take(lv.len() as int) =~= lv);
    let sorted = sort_owners(shown);
    let mut out: Vec<String> = Vec::new();
    assert(strs(out@) =~= distinct_owners(Seq::empty()));
    push_owners(&mut out, known, Ghost(Seq::empty()));
    assert(Seq::<Seq<char>>::empty() + strs(known@) =~= strs(known@));
    push_owners(&mut out, &sorted, Ghost(strs(known@)));
    push_owners(&mut out, asked, Ghost(strs(known@) + strs(sorted@)));
    assert(sorted@.to_multiset() == local_owners(lv).to_multiset());
    out
}

// --- cloning ----------------------------------------------------------------

/// What a name GitHub could not have issued is refused with.
pub open spec fn slug_refusal_of(slug: Seq<char>) -> Seq<char> {
    "`"@ + slug
        + "` is not a GitHub owner or owner/repo name — those are letters, digits, `-`, `_` and `.`, and do not begin with `-`"@
}

/// Refuse a name that is not one GitHub could have issued: a slug is both an
/// argument to `gh` and the path a clone is written to.
pub fn check_slug(slug: &str) -> (r: Result<(), String>)
    ensures
        r is Ok <==> valid_slug_of(slug@),
        r matches Err(e) ==> e@ == slug_refusal_of(slug@),
{
    if valid_slug(slug) {
        return Ok(());
    }
    let mut e = String::from_str("`");
    e.append(slug);
    e.append(
        "` is not a GitHub owner or owner/repo name — those are letters, digits, `-`, `_` and `.`, and do not begin with `-`",
    );
    Err(e)
}

/// `owner/repo` as its two halves; a slug without a `/` is all name.
pub open spec fn slug_parts(slug: Seq<char>) -> (Seq<char>, Seq<char>) {
    match split_once(slug, '/') {
        Some(p) => p,
        None => (Seq::empty(), slug),
    }
}

/// See [`slug_parts`].
pub fn split_slug(slug: &str) -> (r: (String, String))
    ensures
        (r.0@, r.1@) == slug_parts(slug@),
{
    let v = chars_of(slug);
    match crate::text::split_once_vec(&v, '/') {
        Some((owner, name)) => (crate::text::string_from(&owner), crate::text::string_from(&name)),
        None => (String::new(), String::from_str(slug)),
    }
}

/// Where the repository `slug` names belongs under `root`.
pub fn slug_destination(root: &str, slug: &str) -> (r: String)
    ensures
        r@ == destination_of(root@, slug_parts(slug@).0, slug_parts(slug@).1),
{
    let (owner, name) = split_slug(slug);
    destination(root, owner.as_str(), name.as_str())
}

/// An owner's row in the owner selector: the label it carries beside it.
pub open spec fn owner_row_of(owner: Seq<char>, label: Option<Seq<char>>) -> Seq<char> {
    match label {
        Some(l) => owner + "  ("@ + l + ")"@,
        None => owner,
    }
}

/// See [`owner_row_of`].
pub fn owner_row(owner: &str, label: Option<&str>) -> (r: String)
    ensures
        r@ == owner_row_of(owner@, crate::config::opt_view(label)),
{
    let mut row = String::from_str(owner);
    if let Some(l) = label {
        row.append("  (");
        row.append(l);
        row.append(")");
    }
    row
}

/// What is said of a repository that is already where its clone would go.
pub fn present_line(slug: &str, dest: &str) -> (r: String)
    ensures
        r@ == "already present, skipping: "@ + slug@ + " ("@ + dest@ + ")"@,
{
    let mut line = String::from_str("already present, skipping: ");
    line.append(slug);
    line.append(" (");
    line.append(dest);
    line.append(")");
    line
}

/// What is said of a clone that worked.
pub fn cloned_line(slug: &str, dest: &str) -> (r: String)
    ensures
        r@ == "cloned "@ + slug@ + " -> "@ + dest@,
{
    let mut line = String::from_str("cloned ");
    line.append(slug);
    line.append(" -> ");
    line.append(dest);
    line
}

/// What a run in which some clones failed ends with.
pub fn clones_failed(failures: usize, total: usize) -> (r: String)
    ensures
        r@ == decimal(failures as nat) + " of "@ + decimal(total as nat) + " clones failed"@,
{
    let mut line = decimal_string(failures as u64);
    line.append(" of ");
    let t = decimal_string(total as u64);
    line.append(t.as_str());
    line.append(" clones failed");
    line
}

} // verus!
