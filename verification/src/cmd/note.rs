//! `scriv note`'s decisions: what a typed name becomes, where it lives, what
//! editor is handed a quickfix list, and what a search query asks ripgrep for.

use vstd::prelude::*;

use crate::note::{after_last, size, size_of, stem, stem_of, Junk, Match, Note};
use crate::files::{contains_string, strs};
use crate::path::{expand_home_dir, expanded_home_dir, join_path, join_path_str};
use crate::text::{chars_of, decimal, is_ws, join, join_strings, push_char, rfind_in, same, ws};

verus! {

/// A name with the extension a listing looks for, unless its last component
/// already has a dot in it: a name with a dot has been spelled out.
pub open spec fn named_with_extension(name: Seq<char>) -> Seq<char> {
    if after_last(name, '/').contains('.') {
        name
    } else {
        name + ".md"@
    }
}

/// Give a name the extension a listing looks for, unless it already has one
/// of its own.
pub fn with_extension(name: &str) -> (r: String)
    ensures
        r@ == named_with_extension(name@),
{
    let v = chars_of(name);
    assert(v@.subrange(0, v@.len() as int) =~= v@);
    proof {
        v@.index_of_last_ensures('/');
    }
    let start = match rfind_in(&v, 0, v.len(), '/') {
        Some(at) => at + 1,
        None => 0,
    };
    let ghost last = after_last(name@, '/');
    assert(last =~= v@.subrange(start as int, v@.len() as int));
    let mut k = start;
    let mut dotted = false;
    while k < v.len()
        invariant
            start <= k <= v@.len(),
            last == v@.subrange(start as int, v@.len() as int),
            dotted == exists|j: int| start <= j < k && v@[j] == '.',
        decreases v@.len() - k,
    {
        if v[k] == '.' {
            dotted = true;
        }
        k += 1;
    }
    proof {
        if dotted {
            let j = choose|j: int| start <= j < k && v@[j] == '.';
            assert(last[j - start] == '.');
        } else {
            assert forall|j: int| 0 <= j < last.len() implies last[j] != '.' by {
                assert(last[j] == v@[j + start]);
            }
        }
    }
    if dotted {
        String::from_str(name)
    } else {
        let mut out = String::from_str(name);
        out.append(".md");
        out
    }
}

/// The names a vim goes by.
pub open spec fn is_vim_name(name: Seq<char>) -> bool {
    ||| name == "vim"@
    ||| name == "nvim"@
    ||| name == "vi"@
    ||| name == "view"@
    ||| name == "gvim"@
    ||| name == "mvim"@
    ||| name == "nvim-qt"@
}

/// Whether `program` is a vim, and so understands a quickfix list: the last
/// component of its path, without an extension, is one of a vim's names.
pub fn vim_family(program: &str) -> (r: bool)
    ensures
        r == is_vim_name(stem_of(program@)),
{
    let name = stem(program);
    same(name, "vim") || same(name, "nvim") || same(name, "vi") || same(name, "view") || same(
        name,
        "gvim",
    ) || same(name, "mvim") || same(name, "nvim-qt")
}

/// A character a vim command line gives a meaning: it separates arguments, or
/// names a file, or quotes.
pub open spec fn vim_special(c: char) -> bool {
    c == ' ' || c == '\t' || c == '%' || c == '#' || c == '|' || c == '"' || c == '\\'
}

/// A path with a backslash before each character a vim command line would
/// read as more than itself.
pub open spec fn vim_escaped(s: Seq<char>) -> Seq<char>
    decreases s.len(),
{
    if s.len() == 0 {
        Seq::empty()
    } else {
        vim_escaped(s.drop_last()) + (if vim_special(s.last()) {
            seq!['\\', s.last()]
        } else {
            seq![s.last()]
        })
    }
}

/// Escape a path for a vim command line.
pub fn vim_escape(path: &str) -> (r: String)
    ensures
        r@ == vim_escaped(path@),
{
    let v = chars_of(path);
    let mut out = String::new();
    let mut i: usize = 0;
    while i < v.len()
        invariant
            v@ == path@,
            i <= v@.len(),
            out@ == vim_escaped(v@.take(i as int)),
        decreases v@.len() - i,
    {
        let c = v[i];
        if c == ' ' || c == '\t' || c == '%' || c == '#' || c == '|' || c == '"' || c == '\\' {
            push_char(&mut out, '\\');
        }
        push_char(&mut out, c);
        assert(v@.take(i + 1).drop_last() =~= v@.take(i as int));
        i += 1;
    }
    assert(v@.take(v@.len() as int) =~= v@);
    out
}

/// Where a named note lives: the name with `~` expanded, as it stands where
/// that is absolute, else below the vault.
pub open spec fn resolved_note(root: Seq<char>, home: Seq<char>, name: Seq<char>) -> Seq<char> {
    let p = expanded_home_dir(name, home);
    if p.len() > 0 && p[0] == '/' {
        p
    } else {
        join_path(root, p)
    }
}

/// Resolve a note's name against the vault.
pub fn resolve(root: &str, home: &str, name: &str) -> (r: String)
    ensures
        r@ == resolved_note(root@, home@, name@),
{
    let path = expand_home_dir(name, home);
    let v = chars_of(path.as_str());
    if v.len() > 0 && v[0] == '/' {
        return path;
    }
    join_path_str(root, path.as_str())
}

/// How a query becomes something ripgrep can look for.
#[derive(Debug, Clone, Copy, PartialEq, Eq, Structural)]
pub enum Matching {
    /// The characters of the query, in order, with anything between them.
    Fuzzy,
    /// The query, as typed, meaning itself.
    Exact,
}

/// A character a regular expression gives a meaning.
pub open spec fn regex_meta(c: char) -> bool {
    c == '.' || c == '^' || c == '$' || c == '*' || c == '+' || c == '?' || c == '(' || c == ')' || c
        == '[' || c == ']' || c == '{' || c == '}' || c == '|' || c == '\\'
}

/// One character as a regular expression matching only itself.
pub open spec fn regex_escaped(c: char) -> Seq<char> {
    if regex_meta(c) {
        seq!['\\', c]
    } else {
        seq![c]
    }
}

/// The characters of `s` that are not whitespace, in order.
pub open spec fn non_ws(s: Seq<char>) -> Seq<char>
    decreases s.len(),
{
    if s.len() == 0 {
        Seq::empty()
    } else if is_ws(s.last()) {
        non_ws(s.drop_last())
    } else {
        non_ws(s.drop_last()).push(s.last())
    }
}

/// A fuzzy query as a regular expression: every character of it but
/// whitespace, escaped, in order, with anything but a line break between.
pub open spec fn fuzzy_pattern(query: Seq<char>) -> Seq<char> {
    join(non_ws(query).map_values(|c: char| regex_escaped(c)), "[^\n]*"@)
}

/// The pattern ripgrep is given, and whether it is a regular expression.
/// Every character is escaped, so a half-typed query finds nothing rather
/// than failing the search.
pub fn pattern(query: &str, matching: Matching) -> (r: (String, bool))
    ensures
        match matching {
            Matching::Exact => r.0@ == query@ && !r.1,
            Matching::Fuzzy => r.0@ == fuzzy_pattern(query@) && r.1,
        },
{
    match matching {
        Matching::Exact => (String::from_str(query), false),
        Matching::Fuzzy => {
            let v = chars_of(query);
            let mut parts: Vec<String> = Vec::new();
            let mut i: usize = 0;
            while i < v.len()
                invariant
                    v@ == query@,
                    i <= v@.len(),
                    parts@.map_values(|p: String| p@) == non_ws(v@.take(i as int)).map_values(
                        |c: char| regex_escaped(c),
                    ),
                decreases v@.len() - i,
            {
                let c = v[i];
                assert(v@.take(i + 1).drop_last() =~= v@.take(i as int));
                if !ws(c) {
                    let mut piece = String::new();
                    if c == '.' || c == '^' || c == '$' || c == '*' || c == '+' || c == '?' || c
                        == '(' || c == ')' || c == '[' || c == ']' || c == '{' || c == '}' || c
                        == '|' || c == '\\' {
                        push_char(&mut piece, '\\');
                    }
                    push_char(&mut piece, c);
                    assert(piece@ =~= regex_escaped(c));
                    let ghost prev = parts@;
                    parts.push(piece);
                    assert(parts@.map_values(|p: String| p@) =~= prev.map_values(|p: String| p@).push(
                        regex_escaped(c),
                    ));
                }
                i += 1;
            }
            assert(v@.take(v@.len() as int) =~= v@);
            (join_strings(&parts, "[^\n]*"), true)
        },
    }
}

/// What the query is matched against, and how.
#[derive(Debug, Clone, Copy, PartialEq, Eq, Structural)]
pub enum Looking {
    /// The names of the notes.
    Names,
    /// Every line of every note, through ripgrep.
    Lines(Matching),
}

impl Looking {
    /// The search a selector mode stands for: names first, then a fuzzy and
    /// an exact search of the text.
    pub fn of(mode: usize) -> (r: Self)
        ensures
            r == (if mode == 0 {
                Looking::Names
            } else if mode == 1 {
                Looking::Lines(Matching::Fuzzy)
            } else {
                Looking::Lines(Matching::Exact)
            }),
    {
        if mode == 0 {
            Looking::Names
        } else if mode == 1 {
            Looking::Lines(Matching::Fuzzy)
        } else {
            Looking::Lines(Matching::Exact)
        }
    }
}

/// One of the keys a selector reads its query on, and what it is called.
#[derive(Debug, Clone, Copy, PartialEq, Eq)]
pub struct Mode {
    pub key: &'static str,
    pub label: &'static str,
}

/// The keys `note open` reads the query on: names first, then the text, fuzzy
/// and exact. Without ripgrep only names are offered: the other two would find
/// nothing, and a selector has nowhere to say why.
pub fn modes(has_ripgrep: bool) -> (r: Vec<Mode>)
    ensures
        r@.len() == (if has_ripgrep { 3int } else { 1int }),
        r@[0] == (Mode { key: "ctrl-e", label: "name" }),
        has_ripgrep ==> r@[1] == (Mode { key: "ctrl-r", label: "text" }) && r@[2] == (Mode {
            key: "ctrl-f",
            label: "exact",
        }),
{
    let mut v: Vec<Mode> = Vec::new();
    v.push(Mode { key: "ctrl-e", label: "name" });
    if has_ripgrep {
        v.push(Mode { key: "ctrl-r", label: "text" });
        v.push(Mode { key: "ctrl-f", label: "exact" });
    }
    v
}


// --- cleanup -----------------------------------------------------------------

/// What `note cleanup` says when no note is a candidate.
pub open spec fn nothing_to_clean_text(notes: nat) -> Seq<char> {
    "Nothing to clean up — all "@ + decimal(notes) + " notes have a name and something in them"@
}

/// What `note cleanup` says when no note is a candidate.
pub fn nothing_to_clean(notes: usize) -> (r: String)
    ensures
        r@ == nothing_to_clean_text(notes as nat),
{
    let mut out = String::from_str("Nothing to clean up — all ");
    let n = crate::text::decimal_string(notes as u64);
    out.append(n.as_str());
    out.append(" notes have a name and something in them");
    out
}

/// The bytes of the candidates whose path was chosen.
pub open spec fn chosen_total(candidates: Seq<(Note, Junk, u64)>, chosen: Seq<Seq<char>>) -> nat
    decreases candidates.len(),
{
    if candidates.len() == 0 {
        0
    } else {
        chosen_total(candidates.drop_last(), chosen) + (if chosen.contains(candidates.last().0.path@) {
            candidates.last().2 as nat
        } else {
            0nat
        })
    }
}

/// How much the chosen notes take up, added over the candidates.
pub fn chosen_bytes(candidates: &Vec<(Note, Junk, u64)>, chosen: &Vec<String>) -> (r: u64)
    requires
        chosen_total(candidates@, strs(chosen@)) <= u64::MAX,
    ensures
        r == chosen_total(candidates@, strs(chosen@)),
{
    let mut total: u64 = 0;
    let mut i: usize = 0;
    while i < candidates.len()
        invariant
            i <= candidates@.len(),
            total == chosen_total(candidates@.take(i as int), strs(chosen@)),
            chosen_total(candidates@, strs(chosen@)) <= u64::MAX,
        decreases candidates@.len() - i,
    {
        assert(candidates@.take(i + 1).drop_last() =~= candidates@.take(i as int));
        proof {
            lemma_chosen_total_prefix(candidates@, strs(chosen@), i as int + 1);
        }
        if contains_string(chosen, candidates[i].0.path.as_str()) {
            total = total + candidates[i].2;
        }
        i += 1;
    }
    assert(candidates@.take(candidates@.len() as int) =~= candidates@);
    total
}

/// What a prefix of the candidates adds up to is no more than all of them.
proof fn lemma_chosen_total_prefix(c: Seq<(Note, Junk, u64)>, chosen: Seq<Seq<char>>, k: int)
    requires
        0 <= k <= c.len(),
    ensures
        chosen_total(c.take(k), chosen) <= chosen_total(c, chosen),
    decreases c.len() - k,
{
    if k < c.len() {
        lemma_chosen_total_prefix(c, chosen, k + 1);
        assert(c.take(k + 1).drop_last() =~= c.take(k));
    } else {
        assert(c.take(k) =~= c);
    }
}

/// The question put before deleting: how many notes, and how much they
/// take up.
pub open spec fn delete_question_text(count: nat, total: u64) -> Seq<char> {
    "Delete "@ + decimal(count) + (if count == 1 {
        " note ("@
    } else {
        " notes ("@
    }) + size_of(total) + ")? This cannot be undone"@
}

/// The question put before deleting.
pub fn delete_question(count: usize, total: u64) -> (r: String)
    ensures
        r@ == delete_question_text(count as nat, total),
{
    let mut out = String::from_str("Delete ");
    let n = crate::text::decimal_string(count as u64);
    out.append(n.as_str());
    out.append(if count == 1 { " note (" } else { " notes (" });
    let s = size(total);
    out.append(s.as_str());
    out.append(")? This cannot be undone");
    out
}

/// What is said when some deletions failed.
pub open spec fn not_deleted_text(failed: nat, chosen: nat) -> Seq<char> {
    decimal(failed) + " of "@ + decimal(chosen) + " could not be deleted"@
}

/// What is said when some deletions failed.
pub fn not_deleted(failed: usize, chosen: usize) -> (r: String)
    ensures
        r@ == not_deleted_text(failed as nat, chosen as nat),
{
    let mut out = crate::text::decimal_string(failed as u64);
    out.append(" of ");
    let n = crate::text::decimal_string(chosen as u64);
    out.append(n.as_str());
    out.append(" could not be deleted");
    out
}

// --- opening search results ------------------------------------------------

/// The files of some matches, each once, where it first comes.
pub open spec fn files_of(ms: Seq<Seq<char>>) -> Seq<Seq<char>>
    decreases ms.len(),
{
    if ms.len() == 0 {
        Seq::empty()
    } else {
        let p = files_of(ms.drop_last());
        if p.contains(ms.last()) {
            p
        } else {
            p.push(ms.last())
        }
    }
}

/// The files an editor with no notion of a line is handed: each matched file
/// once, in the order of the matches.
pub fn match_files(matches: &Vec<Match>) -> (r: Vec<String>)
    ensures
        strs(r@) == files_of(matches@.map_values(|m: Match| m.path@)),
{
    let ghost ps = matches@.map_values(|m: Match| m.path@);
    let mut files: Vec<String> = Vec::new();
    let mut i: usize = 0;
    while i < matches.len()
        invariant
            ps == matches@.map_values(|m: Match| m.path@),
            i <= ps.len(),
            strs(files@) == files_of(ps.take(i as int)),
        decreases ps.len() - i,
    {
        assert(ps.take(i + 1).drop_last() =~= ps.take(i as int));
        if !contains_string(&files, matches[i].path.as_str()) {
            let ghost prev = files@;
            files.push(matches[i].path.clone());
            assert(strs(files@) =~= strs(prev).push(ps[i as int]));
        }
        i += 1;
    }
    assert(ps.take(ps.len() as int) =~= ps);
    files
}

/// The arguments a vim is handed to walk a quickfix list: the editor's own,
/// then the error format, the list, a jump to its first entry, and the list's
/// window where there is more than one match to walk.
pub open spec fn quickfix_args(args: Seq<Seq<char>>, list: Seq<char>, matches: nat) -> Seq<Seq<char>> {
    args + seq!["-c"@, "set errorformat=%f:%l:%c:%m"@, "-c"@, "cfile "@ + vim_escaped(list), "-c"@, "cfirst"@]
        + (if matches > 1 {
        seq!["-c"@, "copen"@]
    } else {
        Seq::empty()
    })
}

/// The arguments a vim is handed to walk the quickfix list at `list`.
pub fn quickfix_command(args: &Vec<String>, list: &str, matches: usize) -> (r: Vec<String>)
    ensures
        strs(r@) == quickfix_args(strs(args@), list@, matches as nat),
{
    let mut command: Vec<String> = Vec::new();
    let mut i: usize = 0;
    while i < args.len()
        invariant
            i <= args@.len(),
            strs(command@) == strs(args@).take(i as int),
        decreases args@.len() - i,
    {
        let ghost prev = command@;
        command.push(args[i].clone());
        assert(strs(command@) =~= strs(prev).push(args@[i as int]@));
        assert(strs(args@).take(i + 1) =~= strs(args@).take(i as int).push(args@[i as int]@));
        i += 1;
    }
    assert(strs(args@).take(args@.len() as int) =~= strs(args@));
    let ghost base = command@;
    command.push(String::from_str("-c"));
    command.push(String::from_str("set errorformat=%f:%l:%c:%m"));
    command.push(String::from_str("-c"));
    let mut cfile = String::from_str("cfile ");
    let escaped = vim_escape(list);
    cfile.append(escaped.as_str());
    command.push(cfile);
    command.push(String::from_str("-c"));
    command.push(String::from_str("cfirst"));
    let ghost mid = command@;
    if matches > 1 {
        command.push(String::from_str("-c"));
        command.push(String::from_str("copen"));
    }
    assert(strs(command@) =~= quickfix_args(strs(args@), list@, matches as nat));
    command
}

} // verus!
