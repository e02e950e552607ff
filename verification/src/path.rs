//! Path helpers with no I/O: expanding `~`, collapsing the home directory,
//! labelling a repository by where it was found, and the lexical cleaning the
//! known-files list stores paths in.
//!
//! A path is its text here. Joining follows `Path::join` — an absolute part
//! replaces what it is joined to — and never leaves the trailing separator an
//! empty part would add, which no comparison of paths by their components sees.
//! What is left of a path below a root is `Path::strip_prefix`'s to say: it
//! compares the two component by component.

use vstd::prelude::*;

use crate::text::{
    chars_of, ends_with, find_in, join, push_char, push_range, range_starts_with, split,
    split_range, starts_with, string_from, string_of,
};

verus! {

/// `base` joined with `rest`, as `Path::join` reads it: an absolute `rest`
/// stands alone, an empty one adds nothing, an empty `base` leaves `rest` as
/// it is, and otherwise one separator goes between.
pub open spec fn join_path(base: Seq<char>, rest: Seq<char>) -> Seq<char> {
    if rest.len() > 0 && rest[0] == '/' {
        rest
    } else if rest.len() == 0 {
        base
    } else if base.len() == 0 {
        rest
    } else if base.last() == '/' {
        base + rest
    } else {
        base + seq!['/'] + rest
    }
}

/// `base` joined with `rest`.
pub fn join_path_str(base: &str, rest: &str) -> (r: String)
    ensures
        r@ == join_path(base@, rest@),
{
    let b = chars_of(base);
    let t = chars_of(rest);
    if t.len() > 0 && t[0] == '/' {
        return String::from_str(rest);
    }
    if t.len() == 0 {
        return String::from_str(base);
    }
    if b.len() == 0 {
        return String::from_str(rest);
    }
    let mut out = String::from_str(base);
    if b[b.len() - 1] != '/' {
        push_char(&mut out, '/');
    }
    out.append(rest);
    out
}

pub open spec fn expanded_home_dir(dir: Seq<char>, home: Seq<char>) -> Seq<char> {
    if dir == seq!['~'] {
        home
    } else if starts_with(dir, seq!['~', '/']) {
        join_path(home, dir.subrange(2, dir.len() as int))
    } else {
        dir
    }
}

/// Expand a leading `~` in `dir` to `home`: a bare `~` becomes `home`, and
/// `~/rest` becomes `home` joined with `rest`. Any path without the prefix is
/// returned unchanged.
pub fn expand_home_dir(dir: &str, home: &str) -> (r: String)
    ensures
        r@ == expanded_home_dir(dir@, home@),
{
    let d = chars_of(dir);
    if d.len() == 1 && d[0] == '~' {
        assert(d@ =~= seq!['~']);
        return String::from_str(home);
    }
    if d.len() >= 2 && d[0] == '~' && d[1] == '/' {
        assert(d@.subrange(0, 2) =~= seq!['~', '/']);
        let rest = string_of(&d, 2, d.len());
        return join_path_str(home, rest.as_str());
    }
    proof {
        if d@ == seq!['~'] {
            assert(d@.len() == 1);
        }
        if starts_with(d@, seq!['~', '/']) {
            assert(d@.subrange(0, 2)[0] == '~');
            assert(d@.subrange(0, 2)[1] == '/');
        }
    }
    String::from_str(dir)
}

pub open spec fn expanded_tilde(path: Seq<char>, home: Seq<char>) -> Seq<char> {
    if path.len() > 0 && path[0] == '~' {
        home + path.subrange(1, path.len() as int)
    } else {
        path
    }
}

/// Expand a leading `~` to `home`, operating on strings: `~` alone expands to
/// `home`, `~/rest` to `home` followed by `/rest`, and a path not beginning
/// with `~` is returned unchanged.
pub fn expand_tilde(path: &str, home: &str) -> (r: String)
    ensures
        r@ == expanded_tilde(path@, home@),
{
    let p = chars_of(path);
    if p.len() > 0 && p[0] == '~' {
        let mut out = String::from_str(home);
        push_range(&mut out, &p, 1, p.len());
        out
    } else {
        String::from_str(path)
    }
}

/// What `Path::strip_prefix` leaves of `path` below `root`: the two compared
/// component by component, so a doubled separator or a `.` between them does
/// not count, and the rest given as text with its separators at either end
/// dropped. `None` where `root` is not a leading run of `path`'s components.
pub uninterp spec fn path_stripped(path: Seq<char>, root: Seq<char>) -> Option<Seq<char>>;

/// `Path::strip_prefix`, the rest given back as text. The contract names the
/// result; how `Path` splits text into components is not restated.
#[verifier::external_body]
pub(crate) fn strip_root(path: &str, root: &str) -> (r: Option<String>)
    ensures
        match r {
            Some(rest) => path_stripped(path@, root@) == Some(rest@),
            None => path_stripped(path@, root@) is None,
        },
{
    std::path::Path::new(path).strip_prefix(root).ok().map(|rest| rest.to_string_lossy().into_owned())
}

/// The last component of `path`, as `Path::file_name` reads it: the last
/// piece between separators that is neither empty nor `.`. `None` for a path
/// with no such piece, or whose last one is `..`.
pub open spec fn file_name(path: Seq<char>) -> Option<Seq<char>> {
    let pieces = split(path, '/');
    let names = pieces.filter_map(nonempty_fn());
    if names.len() == 0 {
        None
    } else if names.last() == seq!['.', '.'] {
        None
    } else {
        Some(names.last())
    }
}

pub open spec fn nonempty_fn() -> spec_fn(Seq<char>) -> Option<Seq<char>> {
    |p: Seq<char>| if p.len() > 0 && p != seq!['.'] { Some(p) } else { None }
}

/// The label of `path` given what is left of it below its root: that rest
/// where there is one and it is not empty, else the last component of `path`,
/// else `path` itself.
pub open spec fn label_from(path: Seq<char>, rest: Option<Seq<char>>) -> Seq<char> {
    let fallback = match file_name(path) {
        Some(name) => name,
        None => path,
    };
    match rest {
        Some(r) => if r.len() > 0 {
            r
        } else {
            fallback
        },
        None => fallback,
    }
}

pub open spec fn relative_label_of(path: Seq<char>, root: Seq<char>) -> Seq<char> {
    label_from(path, path_stripped(path, root))
}

/// The last component of `v` that is neither empty nor `.`, before any check
/// for `..`.
fn last_name(v: &Vec<char>) -> (r: Option<Vec<char>>)
    ensures
        match r {
            Some(x) => split(v@, '/').filter_map(nonempty_fn()).len() > 0 && x@ == split(
                v@,
                '/',
            ).filter_map(nonempty_fn()).last(),
            None => split(v@, '/').filter_map(nonempty_fn()).len() == 0,
        },
{
    assert(v@.subrange(0, v@.len() as int) =~= v@);
    let pieces = split_range(v, 0, v.len(), '/');
    let ghost pv = pieces@.map_values(|p: Vec<char>| p@);
    let mut last: Option<usize> = None;
    let mut i: usize = 0;
    while i < pieces.len()
        invariant
            pv == pieces@.map_values(|p: Vec<char>| p@),
            pv == split(v@, '/'),
            i <= pieces@.len(),
            match last {
                Some(k) => k < i && pv.take(i as int).filter_map(nonempty_fn()).len() > 0 && pv[k as int]
                    == pv.take(i as int).filter_map(nonempty_fn()).last(),
                None => pv.take(i as int).filter_map(nonempty_fn()).len() == 0,
            },
        decreases pieces@.len() - i,
    {
        proof {
            pv.lemma_filter_map_take_succ(nonempty_fn(), i as int);
        }
        assert(pv[i as int] == pieces@[i as int]@);
        let piece = &pieces[i];
        let dot = piece.len() == 1 && piece[0] == '.';
        proof {
            if pv[i as int] == seq!['.'] {
                assert(pv[i as int].len() == 1 && pv[i as int][0] == '.');
            }
            if piece@.len() == 1 && piece@[0] == '.' {
                assert(pv[i as int] =~= seq!['.']);
            }
        }
        if piece.len() > 0 && !dot {
            last = Some(i);
        }
        i += 1;
    }
    assert(pv.take(pieces@.len() as int) =~= pv);
    match last {
        Some(k) => {
            assert(pv[k as int] == pieces@[k as int]@);
            let x = crate::text::slice_vec(&pieces[k], 0, pieces[k].len());
            assert(pieces@[k as int]@.subrange(0, pieces@[k as int]@.len() as int) =~= pieces@[k as int]@);
            Some(x)
        },
        None => None,
    }
}

/// The last component of `path`, as [`file_name`] reads it.
pub fn file_name_of(path: &str) -> (r: Option<String>)
    ensures
        match r {
            Some(x) => file_name(path@) == Some(x@),
            None => file_name(path@) is None,
        },
{
    let v = chars_of(path);
    match last_name(&v) {
        Some(name) => {
            if name.len() == 2 && name[0] == '.' && name[1] == '.' {
                assert(name@ =~= seq!['.', '.']);
                None
            } else {
                proof {
                    if name@ == seq!['.', '.'] {
                        assert(name@.len() == 2 && name@[0] == '.' && name@[1] == '.');
                    }
                }
                Some(string_from(&name))
            }
        },
        None => None,
    }
}

/// Render a repository path relative to the search `root` it was found under,
/// so a shared base is not repeated on every row.
///
/// When the repository *is* the root, or is not below it, its last component
/// is used instead so the row is not blank — and the whole path where it has
/// none.
pub fn relative_label(path: &str, root: &str) -> (r: String)
    ensures
        r@ == relative_label_of(path@, root@),
{
    let rest = strip_root(path, root);
    label_below(path, rest)
}

/// The label of `path` given `rest`, what `Path::strip_prefix` left of it
/// below its root — see [`label_from`].
pub fn label_below(path: &str, rest: Option<String>) -> (r: String)
    ensures
        r@ == label_from(
            path@,
            match rest {
                Some(x) => Some(x@),
                None => None,
            },
        ),
{
    if let Some(r) = rest {
        if r.unicode_len() > 0 {
            return r;
        }
    }
    match file_name_of(path) {
        Some(name) => name,
        None => String::from_str(path),
    }
}

pub open spec fn displayed(path: Seq<char>, home: Seq<char>, absolute: bool) -> Seq<char> {
    if absolute {
        path
    } else if starts_with(path, home) && (path.len() == home.len() || path[home.len() as int]
        == '/') {
        seq!['~'] + path.subrange(home.len() as int, path.len() as int)
    } else {
        path
    }
}

/// Render `path` for display: verbatim when `absolute` is set; otherwise a
/// `home` prefix is collapsed to `~`, at a path boundary only — `/home/user`
/// and `/home/user/x` collapse but `/home/username` does not.
pub fn display_path(path: &str, home: &str, absolute: bool) -> (r: String)
    ensures
        r@ == displayed(path@, home@, absolute),
{
    if absolute {
        return String::from_str(path);
    }
    let p = chars_of(path);
    let n = home.unicode_len();
    assert(p@.subrange(0, p@.len() as int) =~= p@);
    if range_starts_with(&p, 0, p.len(), home) && (p.len() == n || p[n] == '/') {
        let mut out = String::new();
        push_char(&mut out, '~');
        push_range(&mut out, &p, n, p.len());
        return out;
    }
    String::from_str(path)
}

// --- cleaning ---------------------------------------------------------------

/// One element of a path read into the stack of elements kept so far: empty
/// and `.` elements vanish, `..` removes the element before it, stays at the
/// front of a relative path, and vanishes at the front of a rooted one.
pub open spec fn clean_step(stack: Seq<Seq<char>>, elem: Seq<char>, rooted: bool) -> Seq<Seq<char>> {
    if elem.len() == 0 || elem == seq!['.'] {
        stack
    } else if elem == seq!['.', '.'] {
        if stack.len() > 0 && stack.last() != seq!['.', '.'] {
            stack.drop_last()
        } else if rooted {
            stack
        } else {
            stack.push(elem)
        }
    } else {
        stack.push(elem)
    }
}

pub open spec fn clean_fold(elems: Seq<Seq<char>>, rooted: bool) -> Seq<Seq<char>>
    decreases elems.len(),
{
    if elems.len() == 0 {
        Seq::empty()
    } else {
        clean_step(clean_fold(elems.drop_last(), rooted), elems.last(), rooted)
    }
}

/// A path lexically cleaned, as Go's `filepath.Clean` does it: redundant
/// separators collapsed, `.` elements dropped, each inner `..` taken with the
/// element before it, and `..` at the front of a rooted path dropped. An empty
/// result is `.`. A leading `~` is an ordinary element.
pub open spec fn cleaned(path: Seq<char>) -> Seq<char> {
    if path.len() == 0 {
        seq!['.']
    } else {
        let rooted = path[0] == '/';
        let body = join(clean_fold(split(path, '/'), rooted), seq!['/']);
        let out = if rooted {
            seq!['/'] + body
        } else {
            body
        };
        if out.len() == 0 {
            seq!['.']
        } else {
            out
        }
    }
}

/// Lexically clean a path — see [`cleaned`].
pub fn clean(path: &str) -> (r: String)
    ensures
        r@ == cleaned(path@),
{
    let v = chars_of(path);
    if v.len() == 0 {
        let mut dot = String::new();
        push_char(&mut dot, '.');
        assert(dot@ =~= seq!['.']);
        return dot;
    }
    let rooted = v[0] == '/';
    assert(v@.subrange(0, v@.len() as int) =~= v@);
    let elems = split_range(&v, 0, v.len(), '/');
    let ghost ev = elems@.map_values(|p: Vec<char>| p@);
    let mut stack: Vec<Vec<char>> = Vec::new();
    let mut i: usize = 0;
    while i < elems.len()
        invariant
            ev == elems@.map_values(|p: Vec<char>| p@),
            ev == split(v@, '/'),
            v@ == path@,
            v@.len() > 0,
            rooted == (v@[0] == '/'),
            i <= elems@.len(),
            stack@.map_values(|p: Vec<char>| p@) == clean_fold(ev.take(i as int), rooted),
        decreases elems@.len() - i,
    {
        assert(ev.take(i + 1).drop_last() =~= ev.take(i as int));
        assert(ev.take(i + 1).last() == ev[i as int]);
        assert(ev[i as int] == elems@[i as int]@);
        let e = &elems[i];
        let ghost sv = stack@.map_values(|p: Vec<char>| p@);
        let is_dot = e.len() == 1 && e[0] == '.';
        let is_dotdot = e.len() == 2 && e[0] == '.' && e[1] == '.';
        proof {
            if is_dot {
                assert(e@ =~= seq!['.']);
            }
            if e@ == seq!['.'] {
                assert(e@.len() == 1 && e@[0] == '.');
            }
            if is_dotdot {
                assert(e@ =~= seq!['.', '.']);
            }
            if e@ == seq!['.', '.'] {
                assert(e@.len() == 2 && e@[0] == '.' && e@[1] == '.');
            }
        }
        if e.len() == 0 || is_dot {
        } else if is_dotdot {
            let n = stack.len();
            let top_is_dotdot = n > 0 && stack[n - 1].len() == 2 && stack[n - 1][0] == '.'
                && stack[n - 1][1] == '.';
            proof {
                if n > 0 {
                    assert(sv.last() == stack@[n - 1]@);
                    if top_is_dotdot {
                        assert(stack@[n - 1]@ =~= seq!['.', '.']);
                    }
                    if sv.last() == seq!['.', '.'] {
                        assert(stack@[n - 1]@.len() == 2);
                        assert(stack@[n - 1]@[0] == '.' && stack@[n - 1]@[1] == '.');
                    }
                }
            }
            if n > 0 && !top_is_dotdot {
                stack.pop();
                assert(stack@.map_values(|p: Vec<char>| p@) =~= sv.drop_last());
            } else if rooted {
            } else {
                let mut up = Vec::new();
                up.push('.');
                up.push('.');
                assert(up@ =~= seq!['.', '.']);
                stack.push(up);
                assert(stack@.map_values(|p: Vec<char>| p@) =~= sv.push(e@));
            }
        } else {
            let copy = crate::text::slice_vec(e, 0, e.len());
            assert(e@.subrange(0, e@.len() as int) =~= e@);
            stack.push(copy);
            assert(stack@.map_values(|p: Vec<char>| p@) =~= sv.push(e@));
        }
        i += 1;
    }
    assert(ev.take(elems@.len() as int) =~= ev);
    let ghost kept = stack@.map_values(|p: Vec<char>| p@);
    let mut out = String::new();
    if rooted {
        push_char(&mut out, '/');
    }
    let ghost lead = out@;
    let mut k: usize = 0;
    while k < stack.len()
        invariant
            kept == stack@.map_values(|p: Vec<char>| p@),
            k <= stack@.len(),
            out@ == lead + join(kept.take(k as int), seq!['/']),
        decreases stack@.len() - k,
    {
        if k > 0 {
            push_char(&mut out, '/');
        }
        assert(kept[k as int] == stack@[k as int]@);
        push_range(&mut out, &stack[k], 0, stack[k].len());
        assert(stack@[k as int]@.subrange(0, stack@[k as int]@.len() as int) =~= stack@[k as int]@);
        assert(kept.take(k + 1).drop_last() =~= kept.take(k as int));
        proof {
            if k > 0 {
                assert(lead + join(kept.take(k + 1), seq!['/']) =~= lead + join(kept.take(k as int), seq!['/']) + seq!['/'] + kept[k as int]);
            } else {
                assert(kept.take(1)[0] == kept[0]);
                assert(lead + join(kept.take(1), seq!['/']) =~= lead + kept[0]);
            }
        }
        k += 1;
    }
    assert(kept.take(stack@.len() as int) =~= kept);
    assert(out@ =~= (if rooted { seq!['/'] + join(kept, seq!['/']) } else { join(kept, seq!['/']) }));
    if out.unicode_len() == 0 {
        let mut dot = String::new();
        push_char(&mut dot, '.');
        assert(dot@ =~= seq!['.']);
        return dot;
    }
    out
}

pub open spec fn sanitized(input: Seq<char>, home: Seq<char>, pwd: Seq<char>) -> Seq<char> {
    let path = if input.len() > 0 && input[0] == '/' {
        displayed(input, home, false)
    } else if input.len() > 0 && input[0] == '~' {
        input
    } else {
        displayed(pwd, home, false) + seq!['/'] + input
    };
    cleaned(path)
}

/// Normalise a user-supplied path into the canonical form stored in the
/// known-files list: an absolute path under `home` is shortened to `~/…`, one
/// outside it and a tilde path are kept, and anything else is taken relative to
/// `pwd` — the result always lexically [`clean`]ed.
pub fn sanitize_file_path(input: &str, home: &str, pwd: &str) -> (r: String)
    ensures
        r@ == sanitized(input@, home@, pwd@),
{
    let v = chars_of(input);
    let ghost want = if input@.len() > 0 && input@[0] == '/' {
        displayed(input@, home@, false)
    } else if input@.len() > 0 && input@[0] == '~' {
        input@
    } else {
        displayed(pwd@, home@, false) + seq!['/'] + input@
    };
    let path = if v.len() > 0 && v[0] == '/' {
        display_path(input, home, false)
    } else if v.len() > 0 && v[0] == '~' {
        String::from_str(input)
    } else {
        let mut p = display_path(pwd, home, false);
        push_char(&mut p, '/');
        p.append(input);
        p
    };
    assert(path@ == want);
    let r = clean(path.as_str());
    assert(r@ == cleaned(want));
    r
}


/// A path shown with `~` for the home directory reads back as the path: for
/// any path not itself starting with `~`, expanding what `display_path` shows
/// gives the path again.
pub proof fn lemma_displayed_expands_back(path: Seq<char>, home: Seq<char>)
    requires
        !(path.len() > 0 && path[0] == '~'),
    ensures
        expanded_tilde(displayed(path, home, false), home) == path,
{
    if starts_with(path, home) && (path.len() == home.len() || path[home.len() as int] == '/') {
        let d = seq!['~'] + path.subrange(home.len() as int, path.len() as int);
        assert(d.subrange(1, d.len() as int) =~= path.subrange(home.len() as int, path.len() as int));
        assert(path.subrange(0, home.len() as int) =~= home);
        assert(home + path.subrange(home.len() as int, path.len() as int) =~= path);
    }
}

} // verus!
