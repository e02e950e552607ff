//! One row of the fuzzy selector as the commands hand it over — the text
//! drawn, the value handed back when it is chosen, and the colour it is drawn
//! in — and the shell text a preview pane runs, quoted so a row's value cannot
//! alter it.

use vstd::prelude::*;

use crate::text::{chars_of, push_char};

verus! {

#[derive(Debug, Clone)]
pub struct SelectItem {
    /// What the row shows.
    pub label: String,
    /// What choosing the row hands back.
    pub value: String,
    /// ANSI 256-colour index for the whole row, or `None` for the terminal's
    /// own foreground.
    pub color: Option<u8>,
    /// Drawn ahead of the label and never matched: a column worth seeing that
    /// a query should not reach, such as a date.
    pub prefix: Option<String>,
}

impl SelectItem {
    pub fn new(label: String, value: String) -> (r: Self)
        ensures
            r.label@ == label@,
            r.value@ == value@,
            r.color is None,
            r.prefix is None,
    {
        SelectItem { label, value, color: None, prefix: None }
    }

    /// The row drawn in `color`.
    pub fn color(self, color: u8) -> (r: Self)
        ensures
            r.label@ == self.label@,
            r.value@ == self.value@,
            r.color == Some(color),
            r.prefix == self.prefix,
    {
        SelectItem { label: self.label, value: self.value, color: Some(color), prefix: self.prefix }
    }

    /// The row with `text` drawn ahead of its label, unmatched.
    pub fn with_prefix(self, text: String) -> (r: Self)
        ensures
            r.label@ == self.label@,
            r.value@ == self.value@,
            r.color == self.color,
            r.prefix == Some(text),
    {
        SelectItem { label: self.label, value: self.value, color: self.color, prefix: Some(text) }
    }

    /// What choosing the row hands back.
    pub fn value(&self) -> (r: &str)
        ensures
            r@ == self.value@,
    {
        self.value.as_str()
    }
}

/// The key that closes a refreshable selector and asks for the list again.
pub const REFRESH_KEY: &'static str = "ctrl-r";

/// `s` with each single quote written as `'\''`: inside single quotes, the
/// quote is closed, an escaped quote written, and the quote reopened.
pub open spec fn escaped(s: Seq<char>) -> Seq<char>
    decreases s.len(),
{
    if s.len() == 0 {
        Seq::empty()
    } else {
        escaped(s.drop_last()) + if s.last() == '\'' {
            seq!['\'', '\\', '\'', '\'']
        } else {
            seq![s.last()]
        }
    }
}

/// `arg` quoted for the shell that runs a preview command.
pub open spec fn shell_quoted(arg: Seq<char>) -> Seq<char> {
    seq!['\''] + escaped(arg) + seq!['\'']
}

/// Quote `arg` for the shell that runs a preview command, so a branch name or
/// path holding spaces or quotes cannot alter the command.
pub fn quote(arg: &str) -> (r: String)
    ensures
        r@ == shell_quoted(arg@),
{
    let v = chars_of(arg);
    let mut out = String::new();
    push_char(&mut out, '\'');
    let mut i: usize = 0;
    while i < v.len()
        invariant
            v@ == arg@,
            i <= v@.len(),
            out@ == seq!['\''] + escaped(v@.take(i as int)),
        decreases v@.len() - i,
    {
        let ghost before = out@;
        if v[i] == '\'' {
            push_char(&mut out, '\'');
            push_char(&mut out, '\\');
            push_char(&mut out, '\'');
            push_char(&mut out, '\'');
        } else {
            push_char(&mut out, v[i]);
        }
        assert(v@.take(i + 1).drop_last() =~= v@.take(i as int));
        assert(out@ =~= seq!['\''] + escaped(v@.take(i + 1)));
        i += 1;
    }
    assert(v@.take(v@.len() as int) =~= v@);
    push_char(&mut out, '\'');
    out
}

/// The preview for a file: `bat` where it is installed, `head` elsewhere —
/// whose complaint is the preview when the file is gone — each bounded to 200
/// lines.
pub open spec fn file_preview_of(path: Seq<char>) -> Seq<char> {
    "bat --color=always --style=plain --line-range=:200 -- "@ + shell_quoted(path)
        + " 2>/dev/null || head -n 200 -- "@ + shell_quoted(path)
}

/// See [`file_preview_of`].
pub fn file_preview_command(path: &str) -> (r: String)
    ensures
        r@ == file_preview_of(path@),
{
    let q = quote(path);
    let mut out = String::from_str("bat --color=always --style=plain --line-range=:200 -- ");
    out.append(q.as_str());
    out.append(" 2>/dev/null || head -n 200 -- ");
    out.append(q.as_str());
    out
}

/// The selector binding that closes it and names [`REFRESH_KEY`] as the
/// reason: the key it closes on and the name it reports back are one.
pub fn refresh_bind() -> (r: String)
    ensures
        r@ == REFRESH_KEY@ + ":accept("@ + REFRESH_KEY@ + ")"@,
{
    let mut out = String::from_str(REFRESH_KEY);
    out.append(":accept(");
    out.append(REFRESH_KEY);
    out.append(")");
    out
}

} // verus!
