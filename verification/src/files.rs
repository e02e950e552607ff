//! The known-files list: what its entries are once normalised, and how a
//! removal or a prune splits it.
//!
//! The list is a line-oriented text file, one path per line, written whole
//! and normalised; reading and writing it happen elsewhere.

use vstd::prelude::*;

use crate::note::{lex_le, lemma_lex_total, lemma_lex_trans};
use crate::text::{is_blank, same, trim, trimmed};

verus! {

pub open spec fn strs(v: Seq<String>) -> Seq<Seq<char>> {
    v.map_values(|s: String| s@)
}

/// Strictly before, as `String`'s ordering sorts.
pub open spec fn lex_lt(a: Seq<char>, b: Seq<char>) -> bool {
    lex_le(a, b) && a != b
}

/// Sorted, with nothing twice.
pub open spec fn strictly_sorted(s: Seq<Seq<char>>) -> bool {
    forall|i: int, j: int| 0 <= i < j < s.len() ==> lex_lt(#[trigger] s[i], #[trigger] s[j])
}

pub open spec fn kept_entry_fn() -> spec_fn(Seq<char>) -> Option<Seq<char>> {
    |l: Seq<char>| if trim(l).len() > 0 { Some(trim(l)) } else { None }
}

/// The entries a list holds: each line trimmed, blank ones dropped.
pub open spec fn entries_of(lines: Seq<Seq<char>>) -> Seq<Seq<char>> {
    lines.filter_map(kept_entry_fn())
}

proof fn lemma_lex_antisym(a: Seq<char>, b: Seq<char>)
    requires
        lex_le(a, b),
        lex_le(b, a),
    ensures
        a == b,
    decreases a.len(),
{
    if a.len() > 0 && b.len() > 0 && a[0] == b[0] {
        lemma_lex_antisym(a.drop_first(), b.drop_first());
        assert(a =~= seq![a[0]] + a.drop_first());
        assert(b =~= seq![b[0]] + b.drop_first());
    } else if a.len() == 0 && b.len() == 0 {
        assert(a =~= b);
    }
}

fn lex_lt_str(a: &str, b: &str) -> (r: bool)
    ensures
        r == lex_lt(a@, b@),
{
    let x = crate::text::chars_of(a);
    let y = crate::text::chars_of(b);
    let mut i: usize = 0;
    assert(a@.skip(0) =~= a@);
    assert(b@.skip(0) =~= b@);
    while i < x.len() && i < y.len() && x[i] == y[i]
        invariant
            x@ == a@,
            y@ == b@,
            i <= x@.len(),
            i <= y@.len(),
            a@.take(i as int) == b@.take(i as int),
            lex_le(a@, b@) == lex_le(a@.skip(i as int), b@.skip(i as int)),
        decreases x@.len() - i,
    {
        assert(a@.skip(i as int).drop_first() =~= a@.skip(i + 1));
        assert(b@.skip(i as int).drop_first() =~= b@.skip(i + 1));
        assert(a@.take(i + 1) =~= a@.take(i as int).push(x@[i as int]));
        assert(b@.take(i + 1) =~= b@.take(i as int).push(y@[i as int]));
        i += 1;
    }
    if i == x.len() {
        if i == y.len() {
            assert(a@ =~= a@.take(i as int));
            assert(b@ =~= b@.take(i as int));
            return false;
        }
        assert(a@ != b@) by {
            assert(a@.len() != b@.len());
        }
        return true;
    }
    if i == y.len() {
        return false;
    }
    assert(a@.skip(i as int)[0] == x@[i as int]);
    assert(b@.skip(i as int)[0] == y@[i as int]);
    assert(a@[i as int] != b@[i as int]);
    x[i] < y[i]
}

/// Insert `x` into a strictly sorted list, unless it is already there.
fn insert_sorted(out: &mut Vec<String>, x: String)
    requires
        strictly_sorted(strs(old(out)@)),
    ensures
        strictly_sorted(strs(final(out)@)),
        strs(final(out)@).to_set() == strs(old(out)@).to_set().insert(x@),
{
    let ghost v = strs(out@);
    let mut p: usize = 0;
    while p < out.len() && lex_lt_str(out[p].as_str(), x.as_str())
        invariant
            v == strs(out@),
            p <= v.len(),
            forall|i: int| 0 <= i < p ==> lex_lt(#[trigger] v[i], x@),
        decreases v.len() - p,
    {
        p += 1;
    }
    if p < out.len() && same(out[p].as_str(), x.as_str()) {
        assert(v[p as int] == x@);
        assert(v.to_set().insert(x@) =~= v.to_set()) by {
            assert(v.to_set().contains(x@)) by {
                assert(v.contains(x@));
            }
        }
        return;
    }
    proof {
        if p < v.len() {
            lemma_lex_total(v[p as int], x@);
            assert(lex_lt(x@, v[p as int]));
        }
    }
    out.insert(p, x);
    let ghost w = strs(out@);
    assert(w =~= v.insert(p as int, x@));
    proof {
        assert forall|i: int, j: int| 0 <= i < j < w.len() implies lex_lt(#[trigger] w[i], #[trigger] w[j]) by {
            if j < p {
                assert(w[i] == v[i] && w[j] == v[j]);
            } else if j == p {
                assert(w[i] == v[i] && w[j] == x@);
            } else if i == p {
                assert(w[j] == v[j - 1] && w[i] == x@);
                if j - 1 > p {
                    assert(lex_lt(v[p as int], v[j - 1]));
                    lemma_lex_trans(x@, v[p as int], v[j - 1]);
                    if x@ == v[j - 1] {
                        lemma_lex_antisym(v[p as int], v[j - 1]);
                    }
                }
            } else if i < p {
                assert(w[i] == v[i] && w[j] == v[j - 1]);
            } else {
                assert(w[i] == v[i - 1] && w[j] == v[j - 1]);
            }
        }
        assert forall|s: Seq<char>| w.to_set().contains(s) <==> v.to_set().insert(x@).contains(s) by {
            if w.contains(s) {
                let k = choose|k: int| 0 <= k < w.len() && w[k] == s;
                if k < p {
                    assert(v[k] == s);
                } else if k > p {
                    assert(v[k - 1] == s);
                }
            }
            if v.contains(s) {
                let k = choose|k: int| 0 <= k < v.len() && v[k] == s;
                if k < p {
                    assert(w[k] == s);
                } else {
                    assert(w[k + 1] == s);
                }
            }
            if s == x@ {
                assert(w[p as int] == x@);
            }
        }
        assert(w.to_set() =~= v.to_set().insert(x@));
    }
}

/// Normalise list entries for persistence: trim each line, drop blanks,
/// remove duplicates, and sort, so the written file is deterministic. The
/// result is the entries of `lines`, each once, in order.
pub fn normalize_entries(lines: &[String]) -> (r: Vec<String>)
    ensures
        strictly_sorted(strs(r@)),
        strs(r@).to_set() == entries_of(strs(lines@)).to_set(),
{
    let ghost lv = strs(lines@);
    let mut out: Vec<String> = Vec::new();
    let mut i: usize = 0;
    assert(strs(out@).to_set() =~= Set::<Seq<char>>::empty());
    while i < lines.len()
        invariant
            lv == strs(lines@),
            i <= lv.len(),
            strictly_sorted(strs(out@)),
            strs(out@).to_set() == entries_of(lv.take(i as int)).to_set(),
        decreases lv.len() - i,
    {
        proof {
            lv.lemma_filter_map_take_succ(kept_entry_fn(), i as int);
        }
        let t = trimmed(lines[i].as_str());
        assert(lv[i as int] == lines@[i as int]@);
        if t.unicode_len() > 0 {
            let ghost before = entries_of(lv.take(i as int));
            insert_sorted(&mut out, t);
            proof {
                let after = entries_of(lv.take(i + 1));
                assert(after == before + seq![trim(lv[i as int])]);
                assert(after.to_set() =~= before.to_set().insert(trim(lv[i as int]))) by {
                    assert forall|s: Seq<char>| after.contains(s) <==> before.contains(s) || s == trim(
                        lv[i as int],
                    ) by {
                        if after.contains(s) {
                            let k = choose|k: int| 0 <= k < after.len() && after[k] == s;
                            if k < before.len() {
                                assert(before[k] == s);
                            }
                        }
                        if before.contains(s) {
                            let k = choose|k: int| 0 <= k < before.len() && before[k] == s;
                            assert(after[k] == s);
                        }
                        if s == trim(lv[i as int]) {
                            assert(after[before.len() as int] == s);
                        }
                    }
                }
            }
        } else {
            assert(entries_of(lv.take(i + 1)) =~= entries_of(lv.take(i as int)));
        }
        i += 1;
    }
    assert(lv.take(lv.len() as int) =~= lv);
    out
}

pub open spec fn removed_fn(to_remove: Seq<Seq<char>>, want: bool) -> spec_fn(Seq<char>) -> Option<Seq<char>> {
    |l: Seq<char>| if to_remove.contains(l) == want { Some(l) } else { None }
}

/// Split `lines` into the entries to keep and the entries removed, preserving
/// the original order of both. Matching is exact against the raw stored line.
pub fn partition_remove(lines: &[String], to_remove: &[String]) -> (r: (Vec<String>, Vec<String>))
    ensures
        strs(r.0@) == strs(lines@).filter_map(removed_fn(strs(to_remove@), false)),
        strs(r.1@) == strs(lines@).filter_map(removed_fn(strs(to_remove@), true)),
{
    let ghost lv = strs(lines@);
    let ghost rv = strs(to_remove@);
    let mut kept: Vec<String> = Vec::new();
    let mut removed: Vec<String> = Vec::new();
    let mut i: usize = 0;
    while i < lines.len()
        invariant
            lv == strs(lines@),
            rv == strs(to_remove@),
            i <= lv.len(),
            strs(kept@) == lv.take(i as int).filter_map(removed_fn(rv, false)),
            strs(removed@) == lv.take(i as int).filter_map(removed_fn(rv, true)),
        decreases lv.len() - i,
    {
        proof {
            lv.lemma_filter_map_take_succ(removed_fn(rv, false), i as int);
            lv.lemma_filter_map_take_succ(removed_fn(rv, true), i as int);
        }
        let line = &lines[i];
        assert(lv[i as int] == line@);
        let mut hit = false;
        let mut k: usize = 0;
        while k < to_remove.len()
            invariant
                rv == strs(to_remove@),
                k <= rv.len(),
                hit == (exists|j: int| 0 <= j < k && rv[j] == line@),
            decreases rv.len() - k,
        {
            if same(to_remove[k].as_str(), line.as_str()) {
                assert(rv[k as int] == line@);
                hit = true;
            }
            k += 1;
        }
        assert(hit == rv.contains(line@));
        let ghost k0 = strs(kept@);
        let ghost r0 = strs(removed@);
        if hit {
            removed.push(line.clone());
            assert(strs(removed@) =~= r0 + seq![line@]);
            assert(k0 + Seq::<Seq<char>>::empty() =~= k0);
        } else {
            kept.push(line.clone());
            assert(strs(kept@) =~= k0 + seq![line@]);
            assert(r0 + Seq::<Seq<char>>::empty() =~= r0);
        }
        i += 1;
    }
    assert(lv.take(lv.len() as int) =~= lv);
    (kept, removed)
}

/// The lines of `lines` whose answer in `answers` is `want`, in order.
pub open spec fn pick(lines: Seq<Seq<char>>, answers: Seq<bool>, want: bool) -> Seq<Seq<char>>
    decreases lines.len(),
{
    if lines.len() == 0 || answers.len() != lines.len() {
        Seq::empty()
    } else {
        let rest = pick(lines.drop_last(), answers.drop_last(), want);
        if answers.last() == want {
            rest.push(lines.last())
        } else {
            rest
        }
    }
}

/// Whether `present` may have answered `b` about a line with this text.
pub open spec fn answered<F: Fn(&str) -> bool>(present: F, line: Seq<char>, b: bool) -> bool {
    exists|t: &str| t@ == line && #[trigger] present.ensures((t,), b)
}

/// Split `lines` into the entries whose file is still there and the entries
/// whose file has gone, preserving the original order of both. `present` is
/// asked once about each raw stored line, in order, and its answers decide.
pub fn partition_missing<F: Fn(&str) -> bool>(lines: &[String], present: F) -> (r: (
    Vec<String>,
    Vec<String>,
))
    requires
        forall|t: &str| #[trigger] present.requires((t,)),
    ensures
        exists|answers: Seq<bool>|
            answers.len() == lines@.len() && (forall|i: int|
                0 <= i < lines@.len() ==> answered(present, lines@[i]@, #[trigger] answers[i]))
                && strs(r.0@) == pick(strs(lines@), answers, true) && strs(r.1@) == pick(
                strs(lines@),
                answers,
                false,
            ),
{
    let ghost lv = strs(lines@);
    let ghost mut answers: Seq<bool> = Seq::empty();
    let mut kept: Vec<String> = Vec::new();
    let mut missing: Vec<String> = Vec::new();
    let mut i: usize = 0;
    while i < lines.len()
        invariant
            lv == strs(lines@),
            i <= lv.len(),
            answers.len() == i,
            forall|t: &str| #[trigger] present.requires((t,)),
            forall|j: int| 0 <= j < i ==> answered(present, lines@[j]@, #[trigger] answers[j]),
            strs(kept@) == pick(lv.take(i as int), answers, true),
            strs(missing@) == pick(lv.take(i as int), answers, false),
        decreases lv.len() - i,
    {
        let line = &lines[i];
        let s = line.as_str();
        let b = present(s);
        let ghost a2 = answers.push(b);
        assert(lv.take(i + 1).drop_last() =~= lv.take(i as int));
        assert(a2.drop_last() =~= answers);
        assert(lv.take(i + 1).last() == line@);
        if b {
            kept.push(line.clone());
        } else {
            missing.push(line.clone());
        }
        proof {
            assert(present.ensures((s,), b));
            assert(answered(present, line@, b));
            answers = a2;
        }
        i += 1;
    }
    assert(lv.take(lv.len() as int) =~= lv);
    (kept, missing)
}


/// The normalised form of a list is determined by the entries it holds: two
/// sorted lists, each without repeats, that hold the same entries are the same
/// list. So normalising is deterministic, and normalising a normalised list
/// changes nothing.
pub proof fn lemma_normalized_is_determined(a: Seq<Seq<char>>, b: Seq<Seq<char>>)
    requires
        strictly_sorted(a),
        strictly_sorted(b),
        a.to_set() == b.to_set(),
    ensures
        a == b,
    decreases a.len(),
{
    if a.len() == 0 {
        if b.len() > 0 {
            assert(b.to_set().contains(b[0]));
        }
        assert(a =~= b);
    } else {
        assert(a.to_set().contains(a[0]));
        let k = choose|k: int| 0 <= k < b.len() && b[k] == a[0];
        assert(b.to_set().contains(b[0]));
        let m = choose|m: int| 0 <= m < a.len() && a[m] == b[0];
        if m > 0 && k > 0 {
            assert(lex_lt(a[0], a[m]));
            assert(lex_lt(b[0], b[k]));
            lemma_lex_antisym(a[0], b[0]);
        }
        assert(a[0] == b[0]);
        let a1 = a.drop_first();
        let b1 = b.drop_first();
        assert(strictly_sorted(a1)) by {
            assert forall|i: int, j: int| 0 <= i < j < a1.len() implies lex_lt(#[trigger] a1[i], #[trigger] a1[j]) by {
                assert(a1[i] == a[i + 1] && a1[j] == a[j + 1]);
            }
        }
        assert(strictly_sorted(b1)) by {
            assert forall|i: int, j: int| 0 <= i < j < b1.len() implies lex_lt(#[trigger] b1[i], #[trigger] b1[j]) by {
                assert(b1[i] == b[i + 1] && b1[j] == b[j + 1]);
            }
        }
        assert forall|x: Seq<char>| a1.to_set().contains(x) <==> b1.to_set().contains(x) by {
            if a1.contains(x) {
                let i = choose|i: int| 0 <= i < a1.len() && a1[i] == x;
                assert(lex_lt(a[0], a[i + 1]));
                assert(a.to_set().contains(x));
                let j = choose|j: int| 0 <= j < b.len() && b[j] == x;
                assert(j != 0);
                assert(b1[j - 1] == x);
            }
            if b1.contains(x) {
                let i = choose|i: int| 0 <= i < b1.len() && b1[i] == x;
                assert(lex_lt(b[0], b[i + 1]));
                assert(b.to_set().contains(x));
                let j = choose|j: int| 0 <= j < a.len() && a[j] == x;
                assert(j != 0);
                assert(a1[j - 1] == x);
            }
        }
        assert(a1.to_set() =~= b1.to_set());
        lemma_normalized_is_determined(a1, b1);
        assert(a =~= seq![a[0]] + a1);
        assert(b =~= seq![b[0]] + b1);
    }
}

/// The lines of a list's text, each without its newline.
pub fn list_lines(contents: &str) -> (r: Vec<String>)
    ensures
        strs(r@) == crate::text::lines(contents@),
{
    let ls = crate::text::lines_of(contents);
    let mut out: Vec<String> = Vec::new();
    let mut i: usize = 0;
    while i < ls.len()
        invariant
            ls@.map_values(|p: Vec<char>| p@) == crate::text::lines(contents@),
            i <= ls@.len(),
            strs(out@) == crate::text::lines(contents@).take(i as int),
        decreases ls@.len() - i,
    {
        let ghost prev = out@;
        let line = crate::text::string_from(&ls[i]);
        out.push(line);
        assert(strs(out@) =~= strs(prev).push(ls@[i as int]@));
        assert(crate::text::lines(contents@).take(i + 1) =~= crate::text::lines(contents@).take(
            i as int,
        ).push(crate::text::lines(contents@)[i as int]));
        i += 1;
    }
    assert(crate::text::lines(contents@).take(ls@.len() as int) =~= crate::text::lines(contents@));
    out
}

/// Each entry followed by a newline: the text a list is written as.
pub open spec fn list_text(entries: Seq<Seq<char>>) -> Seq<char>
    decreases entries.len(),
{
    if entries.len() == 0 {
        Seq::empty()
    } else {
        list_text(entries.drop_last()) + entries.last() + "\n"@
    }
}

/// The text a list is written as: its normalised entries, one per line.
pub fn list_contents(lines: &[String]) -> (r: String)
    ensures
        exists|n: Seq<Seq<char>>|
            strictly_sorted(n) && n.to_set() == entries_of(strs(lines@)).to_set() && r@ == list_text(n),
{
    let normalized = normalize_entries(lines);
    let ghost n = strs(normalized@);
    let mut out = String::new();
    let mut i: usize = 0;
    while i < normalized.len()
        invariant
            n == strs(normalized@),
            i <= n.len(),
            out@ == list_text(n.take(i as int)),
        decreases n.len() - i,
    {
        out.append(normalized[i].as_str());
        out.append("\n");
        assert(n.take(i + 1).drop_last() =~= n.take(i as int));
        i += 1;
    }
    assert(n.take(n.len() as int) =~= n);
    out
}


/// Whether `list` holds a line that is exactly `s`.
pub fn contains_string(list: &Vec<String>, s: &str) -> (r: bool)
    ensures
        r == strs(list@).contains(s@),
{
    let mut i: usize = 0;
    while i < list.len()
        invariant
            i <= list@.len(),
            forall|j: int| 0 <= j < i ==> list@[j]@ != s@,
        decreases list@.len() - i,
    {
        if same(list[i].as_str(), s) {
            assert(strs(list@)[i as int] == s@);
            return true;
        }
        i += 1;
    }
    assert(!strs(list@).contains(s@)) by {
        if strs(list@).contains(s@) {
            let j = choose|j: int| 0 <= j < strs(list@).len() && strs(list@)[j] == s@;
            assert(list@[j]@ == s@);
        }
    }
    false
}

/// Whether the standalone `kf` tool's list is copied into place: only on
/// first use, where there is no list yet and there is a `kf` one.
pub fn needs_migration(list_exists: bool, legacy_exists: bool) -> (r: bool)
    ensures
        r == (!list_exists && legacy_exists),
{
    !list_exists && legacy_exists
}

/// What a migration of `count` entries from `from` is reported with.
pub fn migration_note(count: usize, from: &str) -> (r: String)
    ensures
        r@ == "migrated "@ + crate::text::decimal(count as nat) + " entries from "@ + from@,
{
    let mut m = String::from_str("migrated ");
    let n = crate::text::decimal_string(count as u64);
    m.append(n.as_str());
    m.append(" entries from ");
    m.append(from);
    m
}

} // verus!
