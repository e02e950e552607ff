//! `scriv history`'s decisions: what a listing row says, and what is said
//! when there is no history to list.

use vstd::prelude::*;

use crate::history::{one_line_of, stamp, stamp_of, Entry};
use crate::select::SelectItem;

verus! {

/// What is said when the history file is not there.
pub open spec fn no_history_text(path: Seq<char>) -> Seq<char> {
    "no fish history at "@ + path + " — set `[history] file` if yours is somewhere else"@
}

/// What is said when the history file is not there.
pub fn no_history(path: &str) -> (r: String)
    ensures
        r@ == no_history_text(path@),
{
    let mut out = String::from_str("no fish history at ");
    out.append(path);
    out.append(" — set `[history] file` if yours is somewhere else");
    out
}

/// What is said when the history holds no command.
pub fn no_commands(path: &str) -> (r: String)
    ensures
        r@ == "no commands in "@ + path@,
{
    let mut out = String::from_str("no commands in ");
    out.append(path);
    out
}

/// A `history ls` row: the command folded onto one line, after the local
/// date and time it was last run with `status`.
pub fn ls_row(entry: &Entry, offset: i32, status: bool) -> (r: String)
    ensures
        r@ == (if status {
            stamp_of(entry.when, offset) + "  "@ + one_line_of(entry.cmd@)
        } else {
            one_line_of(entry.cmd@)
        }),
{
    let command = crate::history::one_line(entry.cmd.as_str());
    if status {
        let mut out = stamp(entry.when, offset);
        out.append("  ");
        out.append(command.as_str());
        out
    } else {
        command
    }
}

/// The selector's rows: the command folded onto one line, handing back the
/// command as it was typed, with the local date it was last run ahead of it —
/// drawn, and never matched, so a query reaches only the commands.
pub fn items(entries: &Vec<Entry>, offset: i32) -> (r: Vec<SelectItem>)
    ensures
        r@.len() == entries@.len(),
        forall|i: int|
            0 <= i < r@.len() ==> {
                let e = #[trigger] entries@[i];
                &&& r@[i].label@ == one_line_of(e.cmd@)
                &&& r@[i].value@ == e.cmd@
                &&& r@[i].color is None
                &&& r@[i].prefix matches Some(p) && p@ == stamp_of(e.when, offset) + "  "@
            },
{
    let mut out: Vec<SelectItem> = Vec::new();
    let mut i: usize = 0;
    while i < entries.len()
        invariant
            i <= entries@.len(),
            out@.len() == i,
            forall|j: int|
                0 <= j < i ==> {
                    let e = #[trigger] entries@[j];
                    &&& out@[j].label@ == one_line_of(e.cmd@)
                    &&& out@[j].value@ == e.cmd@
                    &&& out@[j].color is None
                    &&& out@[j].prefix matches Some(p) && p@ == stamp_of(e.when, offset) + "  "@
                },
        decreases entries@.len() - i,
    {
        let e = &entries[i];
        let folded = crate::history::one_line(e.cmd.as_str());
        let mut date = stamp(e.when, offset);
        date.append("  ");
        let item = SelectItem::new(folded, e.cmd.clone()).with_prefix(date);
        out.push(item);
        i += 1;
    }
    out
}

} // verus!
