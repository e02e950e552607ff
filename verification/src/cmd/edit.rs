//! `scriv edit`'s decisions: what the editor is run with, and how the
//! known-files list is offered to choose from.

use vstd::prelude::*;

use crate::files::strs;
use crate::path::{display_path, displayed, expand_tilde, expanded_tilde};
use crate::select::SelectItem;

verus! {

/// What the editor is run with: its own arguments, then `--`, then the
/// targets. `--` first, since a file named `-c` is a file, and to vim `-c` is
/// an Ex command.
pub open spec fn launch_args_of(editor: Seq<Seq<char>>, targets: Seq<Seq<char>>) -> Seq<Seq<char>> {
    editor.drop_first() + seq!["--"@] + targets
}

/// The program an editor command runs, and the arguments it is run with on
/// `targets` — see [`launch_args_of`]. The command is a program and its
/// arguments, so it is never empty.
pub fn launch_command(editor: &Vec<String>, targets: &Vec<String>) -> (r: (String, Vec<String>))
    requires
        editor@.len() > 0,
    ensures
        r.0@ == editor@[0]@,
        strs(r.1@) == launch_args_of(strs(editor@), strs(targets@)),
{
    let program = editor[0].clone();
    let mut args: Vec<String> = Vec::new();
    let ghost ev = strs(editor@);
    let ghost tv = strs(targets@);
    let mut i: usize = 1;
    while i < editor.len()
        invariant
            ev == strs(editor@),
            1 <= i <= editor@.len(),
            strs(args@) == ev.subrange(1, i as int),
        decreases editor@.len() - i,
    {
        let ghost before = args@;
        args.push(editor[i].clone());
        assert(strs(args@) =~= strs(before).push(ev[i as int]));
        assert(ev.subrange(1, i + 1) =~= ev.subrange(1, i as int).push(ev[i as int]));
        i += 1;
    }
    assert(ev.subrange(1, ev.len() as int) =~= ev.drop_first());
    args.push(String::from_str("--"));
    let ghost head = strs(args@);
    assert(head =~= ev.drop_first() + seq!["--"@]) by {
        assert(strs(args@) =~= ev.drop_first().push("--"@));
    }
    let mut j: usize = 0;
    while j < targets.len()
        invariant
            tv == strs(targets@),
            j <= targets@.len(),
            strs(args@) == head + tv.take(j as int),
        decreases targets@.len() - j,
    {
        let ghost before = args@;
        args.push(targets[j].clone());
        assert(strs(args@) =~= strs(before).push(tv[j as int]));
        assert(tv.take(j + 1) =~= tv.take(j as int).push(tv[j as int]));
        j += 1;
    }
    assert(tv.take(tv.len() as int) =~= tv);
    (program, args)
}

/// What `edit --tracked` says where there is nothing to choose from.
pub fn no_tracked_files() -> (r: &'static str)
    ensures
        r@ == "no known files yet — add one with `scriv file add <path>`"@,
{
    "no known files yet — add one with `scriv file add <path>`"
}

/// The known-files list to choose from: each entry shown with `~` for the
/// home directory, and chosen as its absolute path.
pub fn tracked_items(lines: &Vec<String>, home: &str) -> (r: Vec<SelectItem>)
    ensures
        r@.len() == lines@.len(),
        forall|i: int|
            0 <= i < r@.len() ==> {
                let abs = expanded_tilde(#[trigger] lines@[i]@, home@);
                &&& r@[i].value@ == abs
                &&& r@[i].label@ == displayed(abs, home@, false)
                &&& r@[i].color is None
            },
{
    let mut out: Vec<SelectItem> = Vec::new();
    let mut i: usize = 0;
    while i < lines.len()
        invariant
            i <= lines@.len(),
            out@.len() == i,
            forall|j: int|
                0 <= j < i ==> {
                    let abs = expanded_tilde(#[trigger] lines@[j]@, home@);
                    &&& out@[j].value@ == abs
                    &&& out@[j].label@ == displayed(abs, home@, false)
                    &&& out@[j].color is None
                },
        decreases lines@.len() - i,
    {
        let abs = expand_tilde(lines[i].as_str(), home);
        let shown = display_path(abs.as_str(), home, false);
        out.push(SelectItem::new(shown, abs));
        i += 1;
    }
    out
}

} // verus!
