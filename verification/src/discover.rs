//! Repository discovery's rules: a directory holding a `.git` entry is a
//! repository and is not descended into; the walk goes at most `max_depth`
//! levels below its root; and it skips directories whose name is ignored.
//! Walking the filesystem is the caller's; each step asks here what to do,
//! and where to start is decided here too.

use vstd::prelude::*;

use vstd::multiset::Multiset;

use crate::config::{RepoConfig, ROOT_DEPTH};
use crate::files::strs;
use crate::note::{lemma_lex_total, lemma_lex_trans, lex_le};
use crate::path::{expand_home_dir, expanded_home_dir, join_path};

verus! {

/// What the walk does at a directory.
#[derive(Debug, Clone, Copy, PartialEq, Eq, Structural)]
pub enum Visit {
    /// It is a repository: record it, and look no deeper.
    Found,
    /// Not a repository, and as deep as the walk goes.
    Stop,
    /// Not a repository: look at what it holds.
    Descend,
}

/// What the walk does at a directory `depth` levels below its root.
pub fn visit(has_git: bool, depth: usize, max_depth: usize) -> (r: Visit)
    ensures
        r == (if has_git {
            Visit::Found
        } else if depth >= max_depth {
            Visit::Stop
        } else {
            Visit::Descend
        }),
{
    if has_git {
        Visit::Found
    } else if depth >= max_depth {
        Visit::Stop
    } else {
        Visit::Descend
    }
}

/// Whether the walk enters an entry of a directory it descends into: a
/// directory whose name is not ignored.
pub fn enters(is_dir: bool, name: &str, ignore: &Vec<String>) -> (r: bool)
    ensures
        r == (is_dir && !strs(ignore@).contains(name@)),
{
    is_dir && !crate::files::contains_string(ignore, name)
}

/// Where discovery searches, and how deep: the root, `~` expanded, down to
/// [`ROOT_DEPTH`] — `<root>/<owner>/<repo>` — then each `extra` path, which
/// names a repository itself.
pub open spec fn search_plan_of(root: Option<Seq<char>>, extra: Seq<Seq<char>>, home: Seq<char>) -> Seq<(Seq<char>, usize)> {
    (match root {
        Some(r) => seq![(expanded_home_dir(r, home), ROOT_DEPTH)],
        None => Seq::empty(),
    }) + extra.map_values(|e: Seq<char>| (expanded_home_dir(e, home), 0usize))
}

/// Discovery only ever searches real paths: the root comes first, walked two
/// levels down (`<root>/<owner>/<repo>`), then each `extra` path in order,
/// walked not at all; and each of them has a leading `~` expanded against
/// `home` — `~` alone is `home`, `~/rest` is `home` joined with `rest`, and a
/// path without the prefix is searched as written.
pub proof fn lemma_search_plan_expands_home(root: Option<Seq<char>>, extra: Seq<Seq<char>>, home: Seq<char>)
    ensures
        ({
            let plan = search_plan_of(root, extra, home);
            let off: int = if root is Some { 1 } else { 0 };
            &&& plan.len() == off + extra.len()
            &&& root is Some ==> plan[0].1 == 2
            &&& forall|r: Seq<char>|
                root == Some(r) && r.len() >= 2 && r[0] == '~' && r[1] == '/' ==> #[trigger] plan[0].0
                    == join_path(home, r.subrange(2, r.len() as int))
            &&& root == Some(seq!['~']) ==> plan[0].0 == home
            &&& forall|r: Seq<char>|
                root == Some(r) && (r.len() == 0 || r[0] != '~') ==> #[trigger] plan[0].0 == r
            &&& forall|i: int| 0 <= i < extra.len() ==> #[trigger] plan[off + i].1 == 0
            &&& forall|i: int|
                0 <= i < extra.len() && extra[i].len() >= 2 && extra[i][0] == '~' && extra[i][1] == '/'
                    ==> #[trigger] plan[off + i].0 == join_path(home, extra[i].subrange(2, extra[i].len() as int))
            &&& forall|i: int| 0 <= i < extra.len() && extra[i] == seq!['~'] ==> #[trigger] plan[off + i].0 == home
            &&& forall|i: int|
                0 <= i < extra.len() && (extra[i].len() == 0 || extra[i][0] != '~') ==> #[trigger] plan[off
                    + i].0 == extra[i]
        }),
{
    let plan = search_plan_of(root, extra, home);
    let off: int = if root is Some { 1 } else { 0 };
    assert forall|d: Seq<char>| d.len() >= 2 && d[0] == '~' && d[1] == '/' implies #[trigger] expanded_home_dir(
        d,
        home,
    ) == join_path(home, d.subrange(2, d.len() as int)) by {
        assert(d.subrange(0, 2) =~= seq!['~', '/']);
        assert(d != seq!['~']);
    }
    assert forall|d: Seq<char>| d.len() == 0 || d[0] != '~' implies #[trigger] expanded_home_dir(d, home) == d by {
        if d.len() >= 2 {
            assert(d.subrange(0, 2)[0] == d[0]);
        }
        if d == seq!['~'] {
            assert(d[0] == '~');
        }
    }
    match root {
        Some(r) => {
            assert(plan[0] == (expanded_home_dir(r, home), ROOT_DEPTH));
            assert(expanded_home_dir(r, home) == plan[0].0);
        },
        None => {},
    }
    assert forall|i: int| 0 <= i < extra.len() implies #[trigger] plan[off + i] == (
        expanded_home_dir(extra[i], home),
        0usize,
    ) by {}
}

/// See [`search_plan_of`].
pub fn search_plan(repo: &RepoConfig, home: &str) -> (r: Vec<(String, usize)>)
    ensures
        r@.map_values(|p: (String, usize)| (p.0@, p.1)) == search_plan_of(
            crate::cmd::report::opt_seq(repo.root),
            strs(repo.extra@),
            home@,
        ),
{
    let mut out: Vec<(String, usize)> = Vec::new();
    if let Some(root) = &repo.root {
        out.push((expand_home_dir(root.as_str(), home), ROOT_DEPTH));
    }
    let ghost head = out@.map_values(|p: (String, usize)| (p.0@, p.1));
    let ghost ev = strs(repo.extra@);
    let ghost mapped = ev.map_values(|e: Seq<char>| (expanded_home_dir(e, home@), 0usize));
    let mut i: usize = 0;
    while i < repo.extra.len()
        invariant
            ev == strs(repo.extra@),
            mapped == ev.map_values(|e: Seq<char>| (expanded_home_dir(e, home@), 0usize)),
            i <= repo.extra@.len(),
            out@.map_values(|p: (String, usize)| (p.0@, p.1)) == head + mapped.take(i as int),
        decreases repo.extra@.len() - i,
    {
        let ghost before = out@;
        out.push((expand_home_dir(repo.extra[i].as_str(), home), 0));
        assert(out@.map_values(|p: (String, usize)| (p.0@, p.1)) =~= before.map_values(
            |p: (String, usize)| (p.0@, p.1),
        ).push(mapped[i as int]));
        assert(mapped.take(i + 1) =~= mapped.take(i as int).push(mapped[i as int]));
        i += 1;
    }
    assert(mapped.take(mapped.len() as int) =~= mapped);
    assert(head + mapped =~= search_plan_of(crate::cmd::report::opt_seq(repo.root), ev, home@));
    out
}

/// What is said when discovery looked and found nothing.
pub fn nothing_found(config_path: &str) -> (r: String)
    ensures
        r@ == "no repositories found under the configured paths (check depths in "@ + config_path@ + ")"@,
{
    let mut m = String::from_str("no repositories found under the configured paths (check depths in ");
    m.append(config_path);
    m.append(")");
    m
}

pub open spec fn paths_sorted(s: Seq<Seq<char>>) -> bool {
    forall|i: int, j: int| 0 <= i < j < s.len() ==> lex_le(#[trigger] s[i], #[trigger] s[j])
}

fn lex_le_str(a: &str, b: &str) -> (r: bool)
    ensures
        r == lex_le(a@, b@),
{
    let x = crate::text::chars_of(a);
    let y = crate::text::chars_of(b);
    let mut i: usize = 0;
    assert(a@.skip(0) =~= a@);
    assert(b@.skip(0) =~= b@);
    while i < x.len() && i < y.len() && x[i] == y[i]
        invariant
            x@ == a@,
            y@ == b@,
            i <= x@.len(),
            i <= y@.len(),
            lex_le(a@, b@) == lex_le(a@.skip(i as int), b@.skip(i as int)),
        decreases x@.len() - i,
    {
        assert(a@.skip(i as int).drop_first() =~= a@.skip(i + 1));
        assert(b@.skip(i as int).drop_first() =~= b@.skip(i + 1));
        i += 1;
    }
    if i == x.len() {
        return true;
    }
    if i == y.len() {
        return false;
    }
    assert(a@.skip(i as int)[0] == x@[i as int]);
    assert(b@.skip(i as int)[0] == y@[i as int]);
    x[i] < y[i]
}

fn first_path(rest: &Vec<String>) -> (m: usize)
    requires
        rest@.len() > 0,
    ensures
        m < rest@.len(),
        forall|k: int| 0 <= k < rest@.len() ==> lex_le(rest@[m as int]@, #[trigger] rest@[k]@),
{
    proof {
        assert forall|a: Seq<char>, b: Seq<char>| lex_le(a, b) || lex_le(b, a) by {
            lemma_lex_total(a, b);
        }
        assert forall|a: Seq<char>, b: Seq<char>, c: Seq<char>| lex_le(a, b) && lex_le(b, c) implies lex_le(a, c) by {
            lemma_lex_trans(a, b, c);
        }
    }
    let mut m: usize = 0;
    let mut k: usize = 1;
    while k < rest.len()
        invariant
            m < k <= rest@.len(),
            forall|j: int| 0 <= j < k ==> lex_le(rest@[m as int]@, #[trigger] rest@[j]@),
            forall|a: Seq<char>, b: Seq<char>| lex_le(a, b) || lex_le(b, a),
            forall|a: Seq<char>, b: Seq<char>, c: Seq<char>| lex_le(a, b) && lex_le(b, c) ==> lex_le(a, c),
        decreases rest@.len() - k,
    {
        if !lex_le_str(rest[m].as_str(), rest[k].as_str()) {
            assert forall|j: int| 0 <= j <= k implies lex_le(rest@[k as int]@, #[trigger] rest@[j]@) by {
                if j < k {
                    assert(lex_le(rest@[m as int]@, rest@[j]@));
                }
            }
            m = k;
        }
        k += 1;
    }
    m
}

/// The repositories found, ordered by path. The same paths, in a new order.
pub fn by_path(paths: Vec<String>) -> (r: Vec<String>)
    ensures
        r@.to_multiset() == paths@.to_multiset(),
        paths_sorted(strs(r@)),
{
    broadcast use vstd::seq_lib::group_to_multiset_ensures;
    broadcast use vstd::multiset::group_multiset_axioms;

    let ghost orig = paths@.to_multiset();
    let mut rest = paths;
    let mut out: Vec<String> = Vec::new();
    while rest.len() > 0
        invariant
            out@.to_multiset().add(rest@.to_multiset()) == orig,
            forall|i: int, j: int| 0 <= i < j < out@.len() ==> lex_le(#[trigger] out@[i]@, #[trigger] out@[j]@),
            forall|i: int, k: int|
                0 <= i < out@.len() && 0 <= k < rest@.len() ==> lex_le(#[trigger] out@[i]@, #[trigger] rest@[k]@),
        decreases rest@.len(),
    {
        let m = first_path(&rest);
        let ghost before_out = out@;
        let ghost before_rest = rest@;
        let x = rest.remove(m);
        assert(rest@ == before_rest.remove(m as int));
        out.push(x);
        proof {
            before_out.to_multiset_ensures();
            before_rest.to_multiset_ensures();
            assert(out@ == before_out.push(x));
            assert(before_rest[m as int] == x);
            assert(out@.to_multiset() =~= before_out.to_multiset().insert(x));
            assert(rest@.to_multiset() =~= before_rest.to_multiset().remove(x));
            assert(before_rest.to_multiset().count(x) > 0) by {
                assert(before_rest.contains(x)) by {
                    assert(before_rest[m as int] == x);
                }
            }
            assert(out@.to_multiset().add(rest@.to_multiset()) =~= before_out.to_multiset().add(
                before_rest.to_multiset(),
            ));
            assert forall|i: int, j: int| 0 <= i < j < out@.len() implies lex_le(
                #[trigger] out@[i]@,
                #[trigger] out@[j]@,
            ) by {
                if j == out@.len() - 1 {
                    assert(out@[j] == before_rest[m as int]);
                    assert(lex_le(before_out[i]@, before_rest[m as int]@));
                } else {
                    assert(out@[i] == before_out[i] && out@[j] == before_out[j]);
                }
            }
            assert forall|i: int, k: int| 0 <= i < out@.len() && 0 <= k < rest@.len() implies lex_le(
                #[trigger] out@[i]@,
                #[trigger] rest@[k]@,
            ) by {
                let kk = if k < m { k } else { k + 1 };
                assert(rest@[k] == before_rest[kk]);
                if i == out@.len() - 1 {
                    assert(out@[i] == before_rest[m as int]);
                } else {
                    assert(out@[i] == before_out[i]);
                }
            }
        }
    }
    proof {
        rest@.to_multiset_ensures();
        assert(rest@.to_multiset() =~= Multiset::empty());
        assert(out@.to_multiset().add(Multiset::empty()) =~= out@.to_multiset());
    }
    out
}

} // verus!
