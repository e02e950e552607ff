//! `scriv branch`'s decisions: how a listing or selector row is laid out,
//! which branches may be deleted, and what an empty list is reported as.

use vstd::prelude::*;

use crate::cmd::worktree::widest;
use crate::git::{filtered, kind_color, Branch, BranchKind, BranchView, Filter};
use crate::note::{padded, push_column};
use crate::select::SelectItem;
use crate::text::{chars_of, contains_str, skip_ws_back, string_of, trim_end};

verus! {

/// `s` with trailing whitespace dropped.
fn trimmed_end(s: String) -> (r: String)
    ensures
        r@ == trim_end(s@),
{
    let v = chars_of(s.as_str());
    assert(v@.subrange(0, v@.len() as int) =~= v@);
    let b = skip_ws_back(&v, 0, v.len());
    string_of(&v, 0, b)
}

/// The names of `branches`.
pub open spec fn names(bs: Seq<BranchView>) -> Seq<Seq<char>> {
    bs.map_values(|b: BranchView| b.name)
}

/// The relative dates of `branches`.
pub open spec fn dates(bs: Seq<BranchView>) -> Seq<Seq<char>> {
    bs.map_values(|b: BranchView| b.date)
}

pub open spec fn views(bs: Seq<Branch>) -> Seq<BranchView> {
    bs.map_values(|b: Branch| b@)
}

/// Width of the widest branch name, in characters.
pub fn name_width(branches: &[Branch]) -> (r: usize)
    ensures
        r == widest(names(views(branches@))),
{
    let ghost s = names(views(branches@));
    let mut w: usize = 0;
    let mut i: usize = 0;
    while i < branches.len()
        invariant
            s == names(views(branches@)),
            i <= branches@.len(),
            w == widest(s.take(i as int)),
        decreases branches@.len() - i,
    {
        assert(s.take(i + 1).drop_last() =~= s.take(i as int));
        let n = branches[i].name.unicode_len();
        if n > w {
            w = n;
        }
        i += 1;
    }
    assert(s.take(branches@.len() as int) =~= s);
    w
}

/// Width of the widest relative date, in characters.
pub fn date_width(branches: &[Branch]) -> (r: usize)
    ensures
        r == widest(dates(views(branches@))),
{
    let ghost s = dates(views(branches@));
    let mut w: usize = 0;
    let mut i: usize = 0;
    while i < branches.len()
        invariant
            s == dates(views(branches@)),
            i <= branches@.len(),
            w == widest(s.take(i as int)),
        decreases branches@.len() - i,
    {
        assert(s.take(i + 1).drop_last() =~= s.take(i as int));
        let n = branches[i].date.unicode_len();
        if n > w {
            w = n;
        }
        i += 1;
    }
    assert(s.take(branches@.len() as int) =~= s);
    w
}

/// The current-branch marker.
pub open spec fn marker(head: bool) -> Seq<char> {
    if head {
        "*"@
    } else {
        " "@
    }
}

/// A selector row: marker, name, date and subject, in columns.
pub open spec fn item_row(b: BranchView, width: nat, date_width: nat) -> Seq<char> {
    trim_end(
        marker(b.head) + " "@ + padded(b.name, width) + "  "@ + padded(b.date, date_width) + "  "@
            + b.subject,
    )
}

/// A `branch ls --status` row: as a selector row, with the kind's tag after
/// the name.
pub open spec fn status_row_of(b: BranchView, width: nat, date_width: nat) -> Seq<char> {
    trim_end(
        marker(b.head) + " "@ + padded(b.name, width) + "  "@ + padded(kind_tag(b.kind), 6) + "  "@
            + padded(b.date, date_width) + "  "@ + b.subject,
    )
}

pub open spec fn kind_tag(kind: BranchKind) -> Seq<char> {
    match kind {
        BranchKind::Local => "local"@,
        BranchKind::Both => "both"@,
        BranchKind::Remote => "remote"@,
    }
}

/// Build selector rows, each handing back the branch name and drawn in its
/// kind's colour.
pub fn items(branches: &[Branch]) -> (r: Vec<SelectItem>)
    ensures
        r@.len() == branches@.len(),
        forall|i: int|
            0 <= i < r@.len() ==> {
                let b = #[trigger] branches@[i]@;
                &&& r@[i].label@ == item_row(
                    b,
                    widest(names(views(branches@))),
                    widest(dates(views(branches@))),
                )
                &&& r@[i].value@ == b.name
                &&& r@[i].color == Some(kind_color(b.kind))
            },
{
    let width = name_width(branches);
    let dwidth = date_width(branches);
    let mut out: Vec<SelectItem> = Vec::new();
    let mut i: usize = 0;
    while i < branches.len()
        invariant
            width == widest(names(views(branches@))),
            dwidth == widest(dates(views(branches@))),
            i <= branches@.len(),
            out@.len() == i,
            forall|j: int|
                0 <= j < i ==> {
                    let b = #[trigger] branches@[j]@;
                    &&& out@[j].label@ == item_row(b, width as nat, dwidth as nat)
                    &&& out@[j].value@ == b.name
                    &&& out@[j].color == Some(kind_color(b.kind))
                },
        decreases branches@.len() - i,
    {
        let b = &branches[i];
        let mut row = String::new();
        row.append(if b.head { "*" } else { " " });
        row.append(" ");
        push_column(&mut row, b.name.as_str(), width);
        row.append("  ");
        push_column(&mut row, b.date.as_str(), dwidth);
        row.append("  ");
        row.append(b.subject.as_str());
        assert(row@ =~= marker(b@.head) + " "@ + padded(b@.name, width as nat) + "  "@ + padded(
            b@.date,
            dwidth as nat,
        ) + "  "@ + b@.subject);
        let label = trimmed_end(row);
        let item = SelectItem::new(label, b.name.clone()).color(b.kind.color());
        out.push(item);
        i += 1;
    }
    out
}

/// The rows `branch ls --status` prints, each to be drawn in its kind's
/// colour.
pub fn status_rows(branches: &[Branch]) -> (r: Vec<String>)
    ensures
        r@.len() == branches@.len(),
        forall|i: int|
            0 <= i < r@.len() ==> (#[trigger] r@[i])@ == status_row_of(
                branches@[i]@,
                widest(names(views(branches@))),
                widest(dates(views(branches@))),
            ),
{
    let width = name_width(branches);
    let dwidth = date_width(branches);
    let mut out: Vec<String> = Vec::new();
    let mut i: usize = 0;
    while i < branches.len()
        invariant
            width == widest(names(views(branches@))),
            dwidth == widest(dates(views(branches@))),
            i <= branches@.len(),
            out@.len() == i,
            forall|j: int|
                0 <= j < i ==> (#[trigger] out@[j])@ == status_row_of(
                    branches@[j]@,
                    width as nat,
                    dwidth as nat,
                ),
        decreases branches@.len() - i,
    {
        let b = &branches[i];
        let mut row = String::new();
        row.append(if b.head { "*" } else { " " });
        row.append(" ");
        push_column(&mut row, b.name.as_str(), width);
        row.append("  ");
        push_column(&mut row, b.kind.tag(), 6);
        row.append("  ");
        push_column(&mut row, b.date.as_str(), dwidth);
        row.append("  ");
        row.append(b.subject.as_str());
        assert(row@ =~= marker(b@.head) + " "@ + padded(b@.name, width as nat) + "  "@ + padded(
            kind_tag(b@.kind),
            6,
        ) + "  "@ + padded(b@.date, dwidth as nat) + "  "@ + b@.subject);
        out.push(trimmed_end(row));
        i += 1;
    }
    out
}

/// What an empty list is reported as, for the side it was filtered to.
pub open spec fn nothing_found(filter: Filter) -> Seq<char> {
    match filter {
        Filter::Local => "no local branches found"@,
        Filter::Remote => "no remote branches found"@,
        Filter::All => "no branches found"@,
    }
}

/// The branches `filter` keeps; an empty result is an error naming the side.
pub fn narrow(branches: Vec<Branch>, filter: Filter) -> (r: Result<Vec<Branch>, String>)
    ensures
        match r {
            Ok(v) => v@.len() > 0 && views(v@) == views(branches@).filter_map(
                crate::git::accepted(filter),
            ),
            Err(e) => views(branches@).filter_map(crate::git::accepted(filter)).len() == 0
                && e@ == nothing_found(filter),
        },
{
    let kept = filtered(branches, filter);
    if kept.len() == 0 {
        Err(String::from_str(
            match filter {
                Filter::Local => "no local branches found",
                Filter::Remote => "no remote branches found",
                Filter::All => "no branches found",
            },
        ))
    } else {
        Ok(kept)
    }
}

/// The branches `branch rm` may offer: local ones not checked out here.
/// Deleting a remote branch is a push, and nothing on this list would say it
/// had happened.
pub open spec fn deletable_of(bs: Seq<BranchView>) -> Seq<BranchView>
    decreases bs.len(),
{
    if bs.len() == 0 {
        Seq::empty()
    } else if bs.last().kind != BranchKind::Remote && !bs.last().head {
        deletable_of(bs.drop_last()).push(bs.last())
    } else {
        deletable_of(bs.drop_last())
    }
}

/// `branch rm` offers every branch that exists in this clone except the one
/// checked out, and nothing else: a local branch never pushed is offered like
/// any other, a remote-only ref never is.
pub proof fn lemma_deletable_is_every_local_but_head(bs: Seq<BranchView>)
    ensures
        forall|b: BranchView|
            #[trigger] deletable_of(bs).contains(b) <==> (bs.contains(b) && b.kind != BranchKind::Remote
                && !b.head),
    decreases bs.len(),
{
    if bs.len() > 0 {
        let rest = bs.drop_last();
        lemma_deletable_is_every_local_but_head(rest);
        assert(bs =~= rest.push(bs.last()));
        let last = bs.last();
        let d = deletable_of(rest);
        assert forall|b: BranchView|
            #[trigger] deletable_of(bs).contains(b) <==> (bs.contains(b) && b.kind != BranchKind::Remote
                && !b.head) by {
            // `bs` holds `b` exactly when `rest` does or `b` is the last.
            if bs.contains(b) && b != last {
                let i = choose|i: int| 0 <= i < bs.len() && bs[i] == b;
                assert(rest[i] == b);
            }
            if rest.contains(b) {
                let i = choose|i: int| 0 <= i < rest.len() && rest[i] == b;
                assert(bs[i] == b);
            }
            assert(bs[bs.len() - 1] == last);
            assert(bs.contains(b) <==> (rest.contains(b) || b == last));
            if last.kind != BranchKind::Remote && !last.head {
                let e = d.push(last);
                assert(deletable_of(bs) == e);
                if d.contains(b) {
                    let i = choose|i: int| 0 <= i < d.len() && d[i] == b;
                    assert(e[i] == b);
                }
                if e.contains(b) && b != last {
                    let i = choose|i: int| 0 <= i < e.len() && e[i] == b;
                    assert(i < d.len());
                    assert(d[i] == b);
                }
                assert(e[d.len() as int] == last);
                assert(e.contains(b) <==> (d.contains(b) || b == last));
            } else {
                assert(deletable_of(bs) == d);
            }
        }
    }
}

/// The branches `branch rm` may offer, in order.
pub fn deletable(branches: &[Branch]) -> (r: Vec<&Branch>)
    ensures
        r@.map_values(|b: &Branch| b@) == deletable_of(views(branches@)),
{
    let ghost bs = views(branches@);
    let mut out: Vec<&Branch> = Vec::new();
    let mut i: usize = 0;
    while i < branches.len()
        invariant
            bs == views(branches@),
            i <= bs.len(),
            out@.map_values(|b: &Branch| b@) == deletable_of(bs.take(i as int)),
        decreases bs.len() - i,
    {
        assert(bs.take(i + 1).drop_last() =~= bs.take(i as int));
        let b = &branches[i];
        let remote = match b.kind {
            BranchKind::Remote => true,
            _ => false,
        };
        if !remote && !b.head {
            let ghost prev = out@;
            out.push(b);
            assert(out@.map_values(|x: &Branch| x@) =~= prev.map_values(|x: &Branch| x@).push(b@));
        }
        i += 1;
    }
    assert(bs.take(bs.len() as int) =~= bs);
    out
}

/// Whether git considers a branch's commits to have landed.
pub open spec fn merge_mark(merged: bool) -> Seq<char> {
    if merged {
        "merged"@
    } else {
        "not merged"@
    }
}

/// A deletion row: the branch, whether it has landed, its date and subject.
pub open spec fn rm_row(b: BranchView, width: nat, merged: bool) -> Seq<char> {
    trim_end(padded(b.name, width) + "  "@ + padded(merge_mark(merged), 10) + "  "@ + b.date + "  "@ + b.subject)
}

/// Selector rows for deletion, green where git can see the branch has landed
/// and yellow where it cannot.
pub fn rm_items(branches: &[Branch], merged: &Vec<String>) -> (r: Vec<SelectItem>)
    ensures
        r@.len() == branches@.len(),
        forall|i: int|
            0 <= i < r@.len() ==> {
                let b = #[trigger] branches@[i]@;
                let landed = crate::files::strs(merged@).contains(b.name);
                &&& r@[i].label@ == rm_row(b, widest(names(views(branches@))), landed)
                &&& r@[i].value@ == b.name
                &&& r@[i].color == Some(if landed { 2u8 } else { 3u8 })
            },
{
    let width = name_width(branches);
    let mut out: Vec<SelectItem> = Vec::new();
    let mut i: usize = 0;
    while i < branches.len()
        invariant
            width == widest(names(views(branches@))),
            i <= branches@.len(),
            out@.len() == i,
            forall|j: int|
                0 <= j < i ==> {
                    let b = #[trigger] branches@[j]@;
                    let landed = crate::files::strs(merged@).contains(b.name);
                    &&& out@[j].label@ == rm_row(b, width as nat, landed)
                    &&& out@[j].value@ == b.name
                    &&& out@[j].color == Some(if landed { 2u8 } else { 3u8 })
                },
        decreases branches@.len() - i,
    {
        let b = &branches[i];
        let landed = crate::files::contains_string(merged, b.name.as_str());
        let mut row = String::new();
        push_column(&mut row, b.name.as_str(), width);
        row.append("  ");
        push_column(&mut row, if landed { "merged" } else { "not merged" }, 10);
        row.append("  ");
        row.append(b.date.as_str());
        row.append("  ");
        row.append(b.subject.as_str());
        assert(row@ =~= padded(b@.name, width as nat) + "  "@ + padded(merge_mark(landed), 10) + "  "@
            + b@.date + "  "@ + b@.subject);
        let label = trimmed_end(row);
        let item = SelectItem::new(label, b.name.clone()).color(if landed { 2 } else { 3 });
        out.push(item);
        i += 1;
    }
    out
}

/// The widest of `names`.
pub fn names_width(names: &Vec<String>) -> (r: usize)
    ensures
        r == widest(crate::files::strs(names@)),
{
    let ghost nv = crate::files::strs(names@);
    let mut w: usize = 0;
    let mut i: usize = 0;
    while i < names.len()
        invariant
            nv == crate::files::strs(names@),
            i <= names@.len(),
            w == widest(nv.take(i as int)),
        decreases names@.len() - i,
    {
        assert(nv.take(i + 1).drop_last() =~= nv.take(i as int));
        let n = names[i].unicode_len();
        if n > w {
            w = n;
        }
        i += 1;
    }
    assert(nv.take(nv.len() as int) =~= nv);
    w
}

/// What is about to be deleted, shown before the question is put: each
/// branch and whether git can see it has landed, in one column, green where
/// it has and yellow where it has not.
pub fn deletion_rows(targets: &Vec<String>, merged: &Vec<String>) -> (r: Vec<(String, u8)>)
    ensures
        r@.len() == targets@.len(),
        forall|i: int|
            0 <= i < r@.len() ==> {
                let name = #[trigger] targets@[i]@;
                let landed = crate::files::strs(merged@).contains(name);
                &&& r@[i].0@ == padded(name, widest(crate::files::strs(targets@))) + "  "@ + merge_mark(landed)
                &&& r@[i].1 == (if landed { 2u8 } else { 3u8 })
            },
{
    let width = names_width(targets);
    let mut out: Vec<(String, u8)> = Vec::new();
    let mut i: usize = 0;
    while i < targets.len()
        invariant
            width == widest(crate::files::strs(targets@)),
            i <= targets@.len(),
            out@.len() == i,
            forall|j: int|
                0 <= j < i ==> {
                    let name = #[trigger] targets@[j]@;
                    let landed = crate::files::strs(merged@).contains(name);
                    &&& out@[j].0@ == padded(name, width as nat) + "  "@ + merge_mark(landed)
                    &&& out@[j].1 == (if landed { 2u8 } else { 3u8 })
                },
        decreases targets@.len() - i,
    {
        let name = targets[i].as_str();
        let landed = crate::files::contains_string(merged, name);
        let mut row = String::new();
        push_column(&mut row, name, width);
        row.append("  ");
        row.append(if landed { "merged" } else { "not merged" });
        out.push((row, if landed { 2 } else { 3 }));
        i += 1;
    }
    out
}

/// Whether a branch has to be deleted by force: git cannot see it has landed,
/// and the confirmation that showed as much was answered anyway.
pub fn forced(merged: &Vec<String>, name: &str) -> (r: bool)
    ensures
        r == !crate::files::strs(merged@).contains(name@),
{
    !crate::files::contains_string(merged, name)
}

/// The question put before deleting.
pub fn deletion_question(count: usize) -> (r: String)
    ensures
        r@ == "Delete "@ + crate::text::decimal(count as nat) + (if count == 1 {
            " branch?"@
        } else {
            " branches?"@
        }),
{
    let mut q = String::from_str("Delete ");
    let n = crate::text::decimal_string(count as u64);
    q.append(n.as_str());
    q.append(if count == 1 { " branch?" } else { " branches?" });
    q
}

/// What a run in which some deletions failed ends with.
pub fn deletions_failed(failed: usize, total: usize) -> (r: String)
    ensures
        r@ == crate::text::decimal(failed as nat) + " of "@ + crate::text::decimal(total as nat)
            + " branches could not be deleted"@,
{
    let mut line = crate::text::decimal_string(failed as u64);
    line.append(" of ");
    let t = crate::text::decimal_string(total as u64);
    line.append(t.as_str());
    line.append(" branches could not be deleted");
    line
}

/// The preview for a branch: its recent commits, with who wrote them and
/// when — bounded to 30, run without taking the repository's index lock, and
/// with a trailing `--` so a branch named like a file is not read as a path.
pub open spec fn preview_of(name: Seq<char>) -> Seq<char> {
    "git --no-optional-locks log --color=always --max-count=30 --date=relative --format='%C(auto)%h%C(reset)  %C(blue)%an%C(reset)  %C(green)%ad%C(reset)  %s' "@
        + crate::select::shell_quoted(name) + " --"@
}

/// See [`preview_of`].
pub fn preview_command(branch: &Branch) -> (r: String)
    ensures
        r@ == preview_of(branch.name@),
{
    let mut out = String::from_str(
        "git --no-optional-locks log --color=always --max-count=30 --date=relative --format='%C(auto)%h%C(reset)  %C(blue)%an%C(reset)  %C(green)%ad%C(reset)  %s' ",
    );
    let q = crate::select::quote(branch.name.as_str());
    out.append(q.as_str());
    out.append(" --");
    out
}

} // verus!
