//! `scriv file`'s decisions: which entries a filtered listing shows, how an
//! entry is marked, and what `prune` asks.

use vstd::prelude::*;

use crate::files::{contains_string, removed_fn, strs};
use crate::text::{chars_of, ctrl, decimal, decimal_string, is_ctrl, push_char};

verus! {

/// Whether a listing filtered to missing or to existing files shows an entry.
pub fn listed(present: bool, missing_only: bool, exists_only: bool) -> (r: bool)
    ensures
        r == (!(missing_only && present) && !(exists_only && !present)),
{
    !(missing_only && present) && !(exists_only && !present)
}

/// A file with its existence marked: a tick for there, a cross for gone; with
/// colour, green and red.
pub open spec fn status_row_of(path: Seq<char>, present: bool, color: bool) -> Seq<char> {
    if color {
        if present {
            "\x1b[32m✓ "@ + path + "\x1b[0m"@
        } else {
            "\x1b[31m✗ "@ + path + "\x1b[0m"@
        }
    } else if present {
        "✓ "@ + path
    } else {
        "✗ "@ + path
    }
}

/// A file with its existence marked.
pub fn status_row(path: &str, present: bool, color: bool) -> (r: String)
    ensures
        r@ == status_row_of(path@, present, color),
{
    let mut out = String::from_str(
        if color {
            if present {
                "\x1b[32m✓ "
            } else {
                "\x1b[31m✗ "
            }
        } else if present {
            "✓ "
        } else {
            "✗ "
        },
    );
    out.append(path);
    if color {
        out.append("\x1b[0m");
    }
    out
}

/// The question `prune` asks once it has listed what would go.
pub open spec fn prune_question_text(count: nat) -> Seq<char> {
    "Remove "@ + decimal(count) + (if count == 1 {
        " entry"@
    } else {
        " entries"@
    }) + " from the list?"@
}

/// The question `prune` asks.
pub fn prune_question(count: usize) -> (r: String)
    ensures
        r@ == prune_question_text(count as nat),
{
    let mut out = String::from_str("Remove ");
    let n = decimal_string(count as u64);
    out.append(n.as_str());
    out.append(if count == 1 { " entry" } else { " entries" });
    out.append(" from the list?");
    out
}

/// A hexadecimal digit, as `{:X}` writes it.
pub open spec fn hex_digit(d: nat) -> char {
    seq!['0', '1', '2', '3', '4', '5', '6', '7', '8', '9', 'A', 'B', 'C', 'D', 'E', 'F'][d as int]
}

/// `n` as four upper-case hexadecimal digits, as `{:04X}` writes one below
/// 0x10000.
pub open spec fn hex4(n: nat) -> Seq<char> {
    seq![hex_digit((n / 4096) % 16), hex_digit((n / 256) % 16), hex_digit((n / 16) % 16), hex_digit(n % 16)]
}

fn hex_char(d: u32) -> (r: char)
    requires
        d < 16,
    ensures
        r == hex_digit(d as nat),
{
    let digits = ['0', '1', '2', '3', '4', '5', '6', '7', '8', '9', 'A', 'B', 'C', 'D', 'E', 'F'];
    assert(digits@ =~= seq!['0', '1', '2', '3', '4', '5', '6', '7', '8', '9', 'A', 'B', 'C', 'D', 'E', 'F']);
    digits[d as usize]
}

/// How a control character is named in a refusal.
pub open spec fn control_name(c: char) -> Seq<char> {
    if c == '\n' {
        "a newline"@
    } else if c == '\t' {
        "a tab"@
    } else {
        "the control character U+"@ + hex4((c as u32) as nat)
    }
}

/// The first control character of `s`.
pub open spec fn first_control(s: Seq<char>) -> Option<char>
    decreases s.len(),
{
    if s.len() == 0 {
        None
    } else if is_ctrl(s[0]) {
        Some(s[0])
    } else {
        first_control(s.drop_first())
    }
}

/// The known-files list is one path per line, so a path with a control
/// character in it — a newline above all — is refused on the way in.
pub open spec fn control_refusal_of(s: Seq<char>) -> Option<Seq<char>> {
    match first_control(s) {
        Some(c) => Some(
            "the known-files list is one path per line, so it cannot hold a path containing "@ + control_name(c),
        ),
        None => None,
    }
}

/// See [`control_refusal_of`].
pub fn control_refusal(file: &str) -> (r: Option<String>)
    ensures
        match r {
            Some(m) => control_refusal_of(file@) == Some(m@),
            None => control_refusal_of(file@) is None,
        },
{
    let v = chars_of(file);
    let mut i: usize = 0;
    assert(v@.skip(0) =~= v@);
    while i < v.len()
        invariant
            v@ == file@,
            i <= v@.len(),
            first_control(file@) == first_control(v@.skip(i as int)),
        decreases v@.len() - i,
    {
        assert(v@.skip(i as int)[0] == v@[i as int]);
        let c = v[i];
        if ctrl(c) {
            let mut m = String::from_str(
                "the known-files list is one path per line, so it cannot hold a path containing ",
            );
            if c == '\n' {
                m.append("a newline");
            } else if c == '\t' {
                m.append("a tab");
            } else {
                m.append("the control character U+");
                let ghost pre = m@;
                let n = c as u32;
                push_char(&mut m, hex_char((n / 4096) % 16));
                push_char(&mut m, hex_char((n / 256) % 16));
                push_char(&mut m, hex_char((n / 16) % 16));
                push_char(&mut m, hex_char(n % 16));
                assert(m@ =~= pre + hex4(n as nat));
                assert(m@ =~= "the known-files list is one path per line, so it cannot hold a path containing "@
                    + control_name(c));
            }
            return Some(m);
        }
        assert(v@.skip(i as int).drop_first() =~= v@.skip(i + 1));
        i += 1;
    }
    None
}

/// The list with `entry` recorded at its end, or the refusal where it is
/// already there.
pub open spec fn added_of(lines: Seq<Seq<char>>, entry: Seq<char>) -> Result<Seq<Seq<char>>, Seq<char>> {
    if lines.contains(entry) {
        Err("entry already exists in the known-files list"@)
    } else {
        Ok(lines.push(entry))
    }
}

/// See [`added_of`].
pub fn add_entry(lines: Vec<String>, entry: &str) -> (r: Result<Vec<String>, String>)
    ensures
        match r {
            Ok(l) => added_of(strs(lines@), entry@) == Ok::<Seq<Seq<char>>, Seq<char>>(strs(l@)),
            Err(e) => added_of(strs(lines@), entry@) == Err::<Seq<Seq<char>>, Seq<char>>(e@),
        },
{
    if contains_string(&lines, entry) {
        return Err(String::from_str("entry already exists in the known-files list"));
    }
    let mut lines = lines;
    let ghost before = lines@;
    lines.push(String::from_str(entry));
    assert(strs(lines@) =~= strs(before).push(entry@));
    Ok(lines)
}

/// Adding never lists an entry twice: a list without repeats stays without.
pub proof fn lemma_adding_keeps_entries_distinct(lines: Seq<Seq<char>>, entry: Seq<char>)
    requires
        lines.no_duplicates(),
    ensures
        added_of(lines, entry) matches Ok(l) ==> l.no_duplicates() && l.contains(entry),
{
    if !lines.contains(entry) {
        let l = lines.push(entry);
        assert(l[l.len() - 1] == entry);
        assert forall|i: int, j: int| 0 <= i < l.len() && 0 <= j < l.len() && i != j implies l[i] != l[j] by {
            if i < lines.len() && j < lines.len() {
                assert(l[i] == lines[i] && l[j] == lines[j]);
            } else if i == lines.len() {
                assert(l[j] == lines[j]);
            } else {
                assert(l[i] == lines[i]);
            }
        }
    }
}

proof fn lemma_nothing_else_removed(lines: Seq<Seq<char>>, entry: Seq<char>)
    requires
        !lines.contains(entry),
    ensures
        lines.filter_map(removed_fn(seq![entry], false)) == lines,
        lines.filter_map(removed_fn(seq![entry], true)) == Seq::<Seq<char>>::empty(),
    decreases lines.len(),
{
    if lines.len() > 0 {
        let p = lines.drop_last();
        assert(!p.contains(entry)) by {
            if p.contains(entry) {
                let j = choose|j: int| 0 <= j < p.len() && p[j] == entry;
                assert(lines[j] == entry);
            }
        }
        lemma_nothing_else_removed(p, entry);
        assert(lines.last() != entry) by {
            assert(lines[lines.len() - 1] == lines.last());
        }
        assert(!seq![entry].contains(lines.last())) by {
            if seq![entry].contains(lines.last()) {
                let j = choose|j: int| 0 <= j < 1 && seq![entry][j] == lines.last();
                assert(seq![entry][j] == entry);
            }
        }
        assert(p + seq![lines.last()] =~= lines);
    }
}

/// Removing an entry undoes adding it: a path `file add` recorded, `file rm`
/// takes out again, and the list is as it was.
pub proof fn lemma_remove_undoes_add(lines: Seq<Seq<char>>, entry: Seq<char>)
    requires
        !lines.contains(entry),
    ensures
        added_of(lines, entry) matches Ok(l) && l.filter_map(removed_fn(seq![entry], false)) == lines
            && l.filter_map(removed_fn(seq![entry], true)) == seq![entry],
{
    let l = lines.push(entry);
    lemma_nothing_else_removed(lines, entry);
    assert(l.drop_last() =~= lines);
    assert(l.last() == entry);
    assert(seq![entry].contains(entry)) by {
        assert(seq![entry][0] == entry);
    }
    assert(Seq::<Seq<char>>::empty() + seq![entry] =~= seq![entry]);
}

} // verus!
