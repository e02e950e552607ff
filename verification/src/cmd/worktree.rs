//! `scriv worktree`'s decisions: how a listing row is laid out, which trees
//! may be removed, and where a new tree for a branch goes.

use vstd::prelude::*;

use crate::git::{head_label_of, tags_of, worktree_color, Worktree, WorktreeView};
use crate::note::{padded, push_column};
use crate::path::{displayed, display_path, join_path, join_path_str};
use crate::select::SelectItem;
use crate::text::{chars_of, join, join_strings, push_char};

verus! {

/// The widest of some texts, in characters; 0 for none.
pub open spec fn widest(s: Seq<Seq<char>>) -> nat
    decreases s.len(),
{
    if s.len() == 0 {
        0
    } else {
        let rest = widest(s.drop_last());
        if s.last().len() > rest {
            s.last().len()
        } else {
            rest
        }
    }
}

/// A tree's tags as its tag column draws them.
pub open spec fn tag_text(w: WorktreeView) -> Seq<char> {
    join(tags_of(w), " "@)
}

/// The column widths a listing shares, so every row lines up. Counted in
/// characters, not bytes.
#[derive(Debug, Clone, Copy)]
pub struct Columns {
    pub head: usize,
    pub tags: usize,
}

/// One listing row: the current-tree marker, what the tree has checked out,
/// any state tag, and the path. The tag column is left out entirely when no
/// tree carries a tag.
pub open spec fn tree_row(head: nat, tags: nat, w: WorktreeView, path: Seq<char>) -> Seq<char> {
    (if w.current {
        "*"@
    } else {
        " "@
    }) + " "@ + padded(head_label_of(w), head) + (if tags > 0 {
        "  "@ + padded(tag_text(w), tags)
    } else {
        Seq::empty()
    }) + "  "@ + path
}

impl Columns {
    /// The widths `worktrees` need.
    pub fn of(worktrees: &[Worktree]) -> (r: Columns)
        ensures
            r.head == widest(worktrees@.map_values(|w: Worktree| head_label_of(w@))),
            r.tags == widest(worktrees@.map_values(|w: Worktree| tag_text(w@))),
    {
        let ghost heads = worktrees@.map_values(|w: Worktree| head_label_of(w@));
        let ghost tags = worktrees@.map_values(|w: Worktree| tag_text(w@));
        let mut head: usize = 0;
        let mut tag: usize = 0;
        let mut i: usize = 0;
        while i < worktrees.len()
            invariant
                heads == worktrees@.map_values(|w: Worktree| head_label_of(w@)),
                tags == worktrees@.map_values(|w: Worktree| tag_text(w@)),
                i <= worktrees@.len(),
                head == widest(heads.take(i as int)),
                tag == widest(tags.take(i as int)),
            decreases worktrees@.len() - i,
        {
            let label = worktrees[i].head_label();
            let t = worktrees[i].tags();
            let mut ts: Vec<String> = Vec::new();
            let mut k: usize = 0;
            while k < t.len()
                invariant
                    k <= t@.len(),
                    ts@.map_values(|s: String| s@) == t@.map_values(|s: &str| s@).take(k as int),
                decreases t@.len() - k,
            {
                let ghost prev = ts@;
                ts.push(String::from_str(t[k]));
                assert(ts@.map_values(|s: String| s@) =~= prev.map_values(|s: String| s@).push(
                    t@[k as int]@,
                ));
                assert(t@.map_values(|s: &str| s@).take(k + 1) =~= t@.map_values(|s: &str| s@).take(
                    k as int,
                ).push(t@[k as int]@));
                k += 1;
            }
            assert(t@.map_values(|s: &str| s@).take(t@.len() as int) =~= t@.map_values(|s: &str| s@));
            let joined = join_strings(&ts, " ");
            let a = label.unicode_len();
            let b = joined.unicode_len();
            assert(heads.take(i + 1).drop_last() =~= heads.take(i as int));
            assert(tags.take(i + 1).drop_last() =~= tags.take(i as int));
            if a > head {
                head = a;
            }
            if b > tag {
                tag = b;
            }
            i += 1;
        }
        assert(heads.take(worktrees@.len() as int) =~= heads);
        assert(tags.take(worktrees@.len() as int) =~= tags);
        Columns { head, tags: tag }
    }

    /// Render one row, with `path` as the caller wants it shown.
    pub fn row(&self, worktree: &Worktree, path: &str) -> (r: String)
        ensures
            r@ == tree_row(self.head as nat, self.tags as nat, worktree@, path@),
    {
        let mut row = String::new();
        row.append(if worktree.current { "*" } else { " " });
        row.append(" ");
        let label = worktree.head_label();
        push_column(&mut row, label.as_str(), self.head);
        let ghost before_tags = row@;
        if self.tags > 0 {
            row.append("  ");
            let t = worktree.tags();
            let mut ts: Vec<String> = Vec::new();
            let mut k: usize = 0;
            while k < t.len()
                invariant
                    k <= t@.len(),
                    ts@.map_values(|s: String| s@) == t@.map_values(|s: &str| s@).take(k as int),
                decreases t@.len() - k,
            {
                let ghost prev = ts@;
                ts.push(String::from_str(t[k]));
                assert(ts@.map_values(|s: String| s@) =~= prev.map_values(|s: String| s@).push(
                    t@[k as int]@,
                ));
                assert(t@.map_values(|s: &str| s@).take(k + 1) =~= t@.map_values(|s: &str| s@).take(
                    k as int,
                ).push(t@[k as int]@));
                k += 1;
            }
            assert(t@.map_values(|s: &str| s@).take(t@.len() as int) =~= t@.map_values(|s: &str| s@));
            let joined = join_strings(&ts, " ");
            push_column(&mut row, joined.as_str(), self.tags);
        }
        row.append("  ");
        row.append(path);
        assert(row@ =~= tree_row(self.head as nat, self.tags as nat, worktree@, path@));
        row
    }
}

/// The selector rows for `worktrees`: each laid out by [`Columns::row`] with
/// its path home-collapsed, handing back the absolute path, and drawn in the
/// tree's colour where it has one.
pub fn items(worktrees: &[Worktree], home: &str) -> (r: Vec<SelectItem>)
    ensures
        r@.len() == worktrees@.len(),
        forall|i: int|
            0 <= i < r@.len() ==> {
                let w = #[trigger] worktrees@[i]@;
                &&& r@[i].label@ == tree_row(
                    widest(worktrees@.map_values(|w: Worktree| head_label_of(w@))),
                    widest(worktrees@.map_values(|w: Worktree| tag_text(w@))),
                    w,
                    displayed(w.path, home@, false),
                )
                &&& r@[i].value@ == w.path
                &&& r@[i].color == worktree_color(w)
            },
{
    let columns = Columns::of(worktrees);
    let mut out: Vec<SelectItem> = Vec::new();
    let mut i: usize = 0;
    while i < worktrees.len()
        invariant
            columns.head == widest(worktrees@.map_values(|w: Worktree| head_label_of(w@))),
            columns.tags == widest(worktrees@.map_values(|w: Worktree| tag_text(w@))),
            i <= worktrees@.len(),
            out@.len() == i,
            forall|j: int|
                0 <= j < i ==> {
                    let w = #[trigger] worktrees@[j]@;
                    &&& out@[j].label@ == tree_row(
                        columns.head as nat,
                        columns.tags as nat,
                        w,
                        displayed(w.path, home@, false),
                    )
                    &&& out@[j].value@ == w.path
                    &&& out@[j].color == worktree_color(w)
                },
        decreases worktrees@.len() - i,
    {
        let w = &worktrees[i];
        let shown = display_path(w.path.as_str(), home, false);
        let label = columns.row(w, shown.as_str());
        let item = SelectItem::new(label, w.path.clone());
        let item = match w.color() {
            Some(c) => item.color(c),
            None => item,
        };
        out.push(item);
        i += 1;
    }
    out
}

/// A branch name as one directory name: each `/` written as `-`.
pub open spec fn slug_of(branch: Seq<char>) -> Seq<char> {
    branch.map_values(|c: char| if c == '/' { '-' } else { c })
}

/// A branch name as one directory name, so however branches are named the
/// trees stay one flat list.
pub fn slug(branch: &str) -> (r: String)
    ensures
        r@ == slug_of(branch@),
{
    let v = chars_of(branch);
    let mut out = String::new();
    let mut i: usize = 0;
    while i < v.len()
        invariant
            v@ == branch@,
            i <= v@.len(),
            out@ == slug_of(v@.take(i as int)),
        decreases v@.len() - i,
    {
        push_char(&mut out, if v[i] == '/' { '-' } else { v[i] });
        assert(slug_of(v@.take(i + 1)) =~= slug_of(v@.take(i as int)).push(
            if v@[i as int] == '/' { '-' } else { v@[i as int] },
        ));
        i += 1;
    }
    assert(v@.take(v@.len() as int) =~= v@);
    out
}

/// Where a new tree for `branch` goes: inside the repository for a relative
/// root, beside the checkout; for an absolute one, under the repository's own
/// directory name, so two repositories' `main` trees do not collide.
pub open spec fn tree_path_of(repo_root: Seq<char>, root: Seq<char>, branch: Seq<char>) -> Seq<char> {
    if !(root.len() > 0 && root[0] == '/') {
        join_path(join_path(repo_root, root), slug_of(branch))
    } else {
        match crate::path::file_name(repo_root) {
            Some(name) => join_path(join_path(root, name), slug_of(branch)),
            None => join_path(root, slug_of(branch)),
        }
    }
}

/// Where a new tree for `branch` goes — see [`tree_path_of`].
pub fn tree_path(repo_root: &str, root: &str, branch: &str) -> (r: String)
    ensures
        r@ == tree_path_of(repo_root@, root@, branch@),
{
    let s = slug(branch);
    let r = chars_of(root);
    if !(r.len() > 0 && r[0] == '/') {
        let inside = join_path_str(repo_root, root);
        return join_path_str(inside.as_str(), s.as_str());
    }
    match crate::path::file_name_of(repo_root) {
        Some(name) => {
            let under = join_path_str(root, name.as_str());
            join_path_str(under.as_str(), s.as_str())
        },
        None => join_path_str(root, s.as_str()),
    }
}

/// The trees `rm` may offer, in git's order: not the main tree, which git
/// lists first and will not remove, nor the one the shell is standing in.
pub fn removable(worktrees: &[Worktree]) -> (r: Vec<&Worktree>)
    ensures
        r@.map_values(|w: &Worktree| w@) == offered(
            worktrees@.map_values(|w: Worktree| w@),
        ),
{
    let ghost ws = worktrees@.map_values(|w: Worktree| w@);
    let mut out: Vec<&Worktree> = Vec::new();
    let mut i: usize = 1;
    if worktrees.len() == 0 {
        assert(out@.map_values(|w: &Worktree| w@) =~= offered(ws));
        return out;
    }
    while i < worktrees.len()
        invariant
            ws == worktrees@.map_values(|w: Worktree| w@),
            1 <= i <= ws.len(),
            out@.map_values(|w: &Worktree| w@) == offered(ws.take(i as int)),
        decreases ws.len() - i,
    {
        assert(ws.take(i + 1).drop_last() =~= ws.take(i as int));
        if !worktrees[i].current {
            let ghost prev = out@;
            out.push(&worktrees[i]);
            assert(out@.map_values(|w: &Worktree| w@) =~= prev.map_values(|w: &Worktree| w@).push(
                ws[i as int],
            ));
        }
        i += 1;
    }
    assert(ws.take(ws.len() as int) =~= ws);
    out
}

/// The trees after git's first that the shell is not standing in, in order.
pub open spec fn offered(ws: Seq<WorktreeView>) -> Seq<WorktreeView>
    decreases ws.len(),
{
    if ws.len() <= 1 {
        Seq::empty()
    } else if ws.last().current {
        offered(ws.drop_last())
    } else {
        offered(ws.drop_last()).push(ws.last())
    }
}

} // verus!
