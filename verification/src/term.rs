//! Text from outside — a pull request title, a repository description, a
//! command line — made safe to draw: it may not carry a control sequence
//! into the terminal, and a row may not span lines.

use vstd::prelude::*;

use crate::history::{row_line, row_text};
use crate::text::{join, join_strings, lines, lines_of};

verus! {

/// Text drawn on one row: tabs as spaces, every other control character —
/// line breaks and escapes among them — dropped.
pub fn one_row(s: &str) -> (r: String)
    ensures
        r@ == row_text(s@),
{
    let v = crate::text::chars_of(s);
    row_line(&v)
}

/// Text drawn as a block: its lines kept, each made safe as a row is.
pub open spec fn block_of(s: Seq<char>) -> Seq<char> {
    join(lines(s).map_values(|l: Seq<char>| row_text(l)), "\n"@)
}

/// Text drawn as a block — see [`block_of`].
pub fn block(s: &str) -> (r: String)
    ensures
        r@ == block_of(s@),
{
    let ls = lines_of(s);
    let ghost lv = ls@.map_values(|p: Vec<char>| p@);
    let mut parts: Vec<String> = Vec::new();
    let mut i: usize = 0;
    while i < ls.len()
        invariant
            lv == ls@.map_values(|p: Vec<char>| p@),
            lv == lines(s@),
            i <= ls@.len(),
            parts@.len() == i,
            forall|j: int| 0 <= j < i ==> (#[trigger] parts@[j])@ == row_text(lv[j]),
        decreases ls@.len() - i,
    {
        let part = row_line(&ls[i]);
        parts.push(part);
        i += 1;
    }
    let r = join_strings(&parts, "\n");
    assert(parts@.map_values(|p: String| p@) =~= lines(s@).map_values(|l: Seq<char>| row_text(l)));
    r
}

} // verus!
