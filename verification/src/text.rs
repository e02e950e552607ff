//! Text primitives over the character sequence a string stands for.
//!
//! Every function here is stated over `Seq<char>`, the view Verus gives `str`
//! and `String`: the modules above read their input as characters, find and
//! split on characters, and build their output a character at a time.

use vstd::prelude::*;

verus! {

// --- character classes ------------------------------------------------------

/// Unicode's `White_Space` property, which `char::is_whitespace`, `str::trim`
/// and `str::split_whitespace` test.
pub open spec fn is_ws(c: char) -> bool {
    let n = c as u32;
    (9 <= n && n <= 13) || n == 32 || n == 0x85 || n == 0xa0 || n == 0x1680 || (0x2000 <= n
        && n <= 0x200a) || n == 0x2028 || n == 0x2029 || n == 0x202f || n == 0x205f || n == 0x3000
}

/// Unicode's general category `Cc`, which `char::is_control` tests.
pub open spec fn is_ctrl(c: char) -> bool {
    let n = c as u32;
    n <= 0x1f || (0x7f <= n && n <= 0x9f)
}

pub open spec fn is_digit(c: char) -> bool {
    '0' <= c && c <= '9'
}

pub open spec fn is_ascii_alnum(c: char) -> bool {
    is_digit(c) || ('a' <= c && c <= 'z') || ('A' <= c && c <= 'Z')
}

/// `char::to_ascii_lowercase`: A–Z mapped to a–z, everything else unchanged.
pub open spec fn lower(c: char) -> char {
    if 'A' <= c && c <= 'Z' {
        ((c as u32) + 32) as char
    } else {
        c
    }
}

/// `char::to_ascii_uppercase`: a–z mapped to A–Z, everything else unchanged.
pub open spec fn upper(c: char) -> char {
    if 'a' <= c && c <= 'z' {
        ((c as u32) - 32) as char
    } else {
        c
    }
}

/// `str::eq_ignore_ascii_case`.
pub open spec fn eq_ascii_ci(a: Seq<char>, b: Seq<char>) -> bool {
    a.len() == b.len() && forall|i: int| 0 <= i < a.len() ==> lower(#[trigger] a[i]) == lower(b[i])
}

pub fn ws(c: char) -> (r: bool)
    ensures
        r == is_ws(c),
{
    let n = c as u32;
    (9 <= n && n <= 13) || n == 32 || n == 0x85 || n == 0xa0 || n == 0x1680 || (0x2000 <= n && n
        <= 0x200a) || n == 0x2028 || n == 0x2029 || n == 0x202f || n == 0x205f || n == 0x3000
}

pub fn ctrl(c: char) -> (r: bool)
    ensures
        r == is_ctrl(c),
{
    let n = c as u32;
    n <= 0x1f || (0x7f <= n && n <= 0x9f)
}

pub fn digit(c: char) -> (r: bool)
    ensures
        r == is_digit(c),
{
    '0' <= c && c <= '9'
}

pub fn ascii_alnum(c: char) -> (r: bool)
    ensures
        r == is_ascii_alnum(c),
{
    ('0' <= c && c <= '9') || ('a' <= c && c <= 'z') || ('A' <= c && c <= 'Z')
}

pub fn to_lower(c: char) -> (r: char)
    ensures
        r == lower(c),
{
    if 'A' <= c && c <= 'Z' {
        let n = (c as u32) + 32;
        // a–z, which every `u8` value below 0x80 is a char for
        let b = n as u8;
        b as char
    } else {
        c
    }
}

/// Whether `v[lo..hi]` equals `p`, ignoring ASCII case.
pub fn range_eq_ci(v: &Vec<char>, lo: usize, hi: usize, p: &str) -> (r: bool)
    requires
        lo <= hi <= v@.len(),
    ensures
        r == eq_ascii_ci(v@.subrange(lo as int, hi as int), p@),
{
    let q = chars_of(p);
    if hi - lo != q.len() {
        return false;
    }
    let ghost s = v@.subrange(lo as int, hi as int);
    let mut i: usize = 0;
    while i < q.len()
        invariant
            q@ == p@,
            hi - lo == q@.len(),
            lo <= hi <= v@.len(),
            s == v@.subrange(lo as int, hi as int),
            i <= q@.len(),
            forall|j: int| 0 <= j < i ==> lower(#[trigger] s[j]) == lower(q@[j]),
        decreases q@.len() - i,
    {
        if to_lower(v[lo + i]) != to_lower(q[i]) {
            assert(s[i as int] == v@[lo + i]);
            return false;
        }
        i += 1;
    }
    true
}

/// `str::eq_ignore_ascii_case`.
pub fn eq_ignore_case(a: &str, b: &str) -> (r: bool)
    ensures
        r == eq_ascii_ci(a@, b@),
{
    let v = chars_of(a);
    assert(v@.subrange(0, v@.len() as int) =~= v@);
    range_eq_ci(&v, 0, v.len(), b)
}

/// Whether `char::is_alphabetic` holds of `c`: Unicode's `Alphabetic`
/// property, a table this crate does not restate.
pub uninterp spec fn alphabetic(c: char) -> bool;

/// `char::is_alphabetic`. The contract names its result; of the ASCII range
/// it says which characters have the property (the letters, and nothing
/// else), and of the rest of Unicode nothing.
#[verifier::external_body]
pub(crate) fn is_alphabetic(c: char) -> (r: bool)
    ensures
        r == alphabetic(c),
        (c as u32) < 128 ==> (r <==> (('a' <= c && c <= 'z') || ('A' <= c && c <= 'Z'))),
{
    c.is_alphabetic()
}

// --- conversions ------------------------------------------------------------

/// The characters of `s`, in order.
pub fn chars_of(s: &str) -> (v: Vec<char>)
    ensures
        v@ == s@,
{
    let mut v: Vec<char> = Vec::new();
    for c in it: s.chars()
        invariant
            v@ == it.seq().take(it.index() as int),
            it.seq() == s@,
    {
        v.push(c);
    }
    v
}

/// `String::push`, which vstd gives no specification: the character is
/// appended to the end of the string.
#[verifier::external_body]
pub(crate) fn push_char(out: &mut String, c: char)
    ensures
        final(out)@ == old(out)@.push(c),
{
    out.push(c);
}

/// The characters `v[lo..hi]` as a string.
pub fn string_of(v: &Vec<char>, lo: usize, hi: usize) -> (r: String)
    requires
        lo <= hi <= v@.len(),
    ensures
        r@ == v@.subrange(lo as int, hi as int),
{
    let mut out = String::new();
    let mut i = lo;
    while i < hi
        invariant
            lo <= i <= hi <= v@.len(),
            out@ == v@.subrange(lo as int, i as int),
        decreases hi - i,
    {
        push_char(&mut out, v[i]);
        assert(v@.subrange(lo as int, i + 1) =~= v@.subrange(lo as int, i as int).push(v@[i as int]));
        i += 1;
    }
    out
}

/// The whole of `v` as a string.
pub fn string_from(v: &Vec<char>) -> (r: String)
    ensures
        r@ == v@,
{
    let r = string_of(v, 0, v.len());
    assert(v@.subrange(0, v@.len() as int) =~= v@);
    r
}

/// A string holding `s` followed by `t`.
pub fn concat(s: &str, t: &str) -> (r: String)
    ensures
        r@ == s@ + t@,
{
    let mut out = String::from_str(s);
    out.append(t);
    out
}

/// Append the characters of `v[lo..hi]` to `out`.
pub fn push_range(out: &mut String, v: &Vec<char>, lo: usize, hi: usize)
    requires
        lo <= hi <= v@.len(),
    ensures
        final(out)@ == old(out)@ + v@.subrange(lo as int, hi as int),
{
    let mut i = lo;
    while i < hi
        invariant
            lo <= i <= hi <= v@.len(),
            out@ == old(out)@ + v@.subrange(lo as int, i as int),
        decreases hi - i,
    {
        push_char(out, v[i]);
        assert(v@.subrange(lo as int, i + 1) =~= v@.subrange(lo as int, i as int).push(v@[i as int]));
        i += 1;
    }
}

/// Whether two strings hold the same characters.
pub fn same(a: &str, b: &str) -> (r: bool)
    ensures
        r == (a@ == b@),
{
    let x = chars_of(a);
    let y = chars_of(b);
    if x.len() != y.len() {
        return false;
    }
    let mut i: usize = 0;
    while i < x.len()
        invariant
            x@ == a@,
            y@ == b@,
            x@.len() == y@.len(),
            i <= x@.len(),
            forall|j: int| 0 <= j < i ==> x@[j] == y@[j],
        decreases x@.len() - i,
    {
        if x[i] != y[i] {
            return false;
        }
        i += 1;
    }
    assert(x@ =~= y@);
    true
}

/// Whether `v[lo..hi]` holds exactly the characters of `p`.
pub fn range_is(v: &Vec<char>, lo: usize, hi: usize, p: &str) -> (r: bool)
    requires
        lo <= hi <= v@.len(),
    ensures
        r == (v@.subrange(lo as int, hi as int) == p@),
{
    let q = chars_of(p);
    if hi - lo != q.len() {
        return false;
    }
    let mut i: usize = 0;
    while i < q.len()
        invariant
            q@ == p@,
            lo <= hi <= v@.len(),
            hi - lo == q@.len(),
            i <= q@.len(),
            forall|j: int| 0 <= j < i ==> v@[lo + j] == q@[j],
        decreases q@.len() - i,
    {
        if v[lo + i] != q[i] {
            assert(v@.subrange(lo as int, hi as int)[i as int] != p@[i as int]);
            return false;
        }
        i += 1;
    }
    assert(v@.subrange(lo as int, hi as int) =~= p@);
    true
}

/// Whether two character vectors hold the same characters.
pub fn vec_eq(a: &Vec<char>, b: &Vec<char>) -> (r: bool)
    ensures
        r == (a@ == b@),
{
    if a.len() != b.len() {
        return false;
    }
    let mut i: usize = 0;
    while i < a.len()
        invariant
            a@.len() == b@.len(),
            i <= a@.len(),
            forall|j: int| 0 <= j < i ==> a@[j] == b@[j],
        decreases a@.len() - i,
    {
        if a[i] != b[i] {
            return false;
        }
        i += 1;
    }
    assert(a@ =~= b@);
    true
}

/// `v` without the prefix `p`, when it begins with it.
pub fn strip_prefix_vec(v: &Vec<char>, p: &str) -> (r: Option<Vec<char>>)
    ensures
        match r {
            Some(x) => strip_prefix(v@, p@) == Some(x@),
            None => strip_prefix(v@, p@) is None,
        },
{
    assert(v@.subrange(0, v@.len() as int) =~= v@);
    if range_starts_with(v, 0, v.len(), p) {
        let n = p.unicode_len();
        Some(slice_vec(v, n, v.len()))
    } else {
        None
    }
}

/// `v` split around its first `c`.
pub fn split_once_vec(v: &Vec<char>, c: char) -> (r: Option<(Vec<char>, Vec<char>)>)
    ensures
        match r {
            Some(x) => split_once(v@, c) == Some((x.0@, x.1@)),
            None => split_once(v@, c) is None,
        },
{
    assert(v@.subrange(0, v@.len() as int) =~= v@);
    proof {
        v@.index_of_first_ensures(c);
    }
    match find_in(v, 0, v.len(), c) {
        Some(i) => Some((slice_vec(v, 0, i), slice_vec(v, i + 1, v.len()))),
        None => None,
    }
}

// --- prefixes and suffixes --------------------------------------------------

pub open spec fn starts_with(s: Seq<char>, p: Seq<char>) -> bool {
    p.len() <= s.len() && s.subrange(0, p.len() as int) == p
}

pub open spec fn ends_with(s: Seq<char>, p: Seq<char>) -> bool {
    p.len() <= s.len() && s.subrange(s.len() - p.len(), s.len() as int) == p
}

/// `str::strip_prefix`.
pub open spec fn strip_prefix(s: Seq<char>, p: Seq<char>) -> Option<Seq<char>> {
    if starts_with(s, p) {
        Some(s.subrange(p.len() as int, s.len() as int))
    } else {
        None
    }
}

/// `str::strip_suffix`.
pub open spec fn strip_suffix(s: Seq<char>, p: Seq<char>) -> Option<Seq<char>> {
    if ends_with(s, p) {
        Some(s.subrange(0, s.len() - p.len()))
    } else {
        None
    }
}

/// Whether `v[lo..hi]` begins with `p`.
pub fn range_starts_with(v: &Vec<char>, lo: usize, hi: usize, p: &str) -> (r: bool)
    requires
        lo <= hi <= v@.len(),
    ensures
        r == starts_with(v@.subrange(lo as int, hi as int), p@),
{
    let n = p.unicode_len();
    if n > hi - lo {
        return false;
    }
    let r = range_is(v, lo, lo + n, p);
    assert(v@.subrange(lo as int, hi as int).subrange(0, n as int) =~= v@.subrange(
        lo as int,
        lo + n,
    ));
    r
}

/// Whether `v[lo..hi]` ends with `p`.
pub fn range_ends_with(v: &Vec<char>, lo: usize, hi: usize, p: &str) -> (r: bool)
    requires
        lo <= hi <= v@.len(),
    ensures
        r == ends_with(v@.subrange(lo as int, hi as int), p@),
{
    let n = p.unicode_len();
    if n > hi - lo {
        return false;
    }
    let r = range_is(v, hi - n, hi, p);
    assert(v@.subrange(lo as int, hi as int).subrange(hi - lo - n, hi - lo) =~= v@.subrange(
        hi - n,
        hi as int,
    ));
    r
}

/// `str::starts_with` for a pattern of characters.
pub fn has_prefix(s: &str, p: &str) -> (r: bool)
    ensures
        r == starts_with(s@, p@),
{
    let v = chars_of(s);
    assert(v@.subrange(0, v@.len() as int) =~= v@);
    range_starts_with(&v, 0, v.len(), p)
}

/// `str::ends_with` for a pattern of characters.
pub fn has_suffix(s: &str, p: &str) -> (r: bool)
    ensures
        r == ends_with(s@, p@),
{
    let v = chars_of(s);
    assert(v@.subrange(0, v@.len() as int) =~= v@);
    range_ends_with(&v, 0, v.len(), p)
}

// --- searching --------------------------------------------------------------

/// The first index in `v[lo..hi]` holding `c`, counted from `lo`.
pub fn find_in(v: &Vec<char>, lo: usize, hi: usize, c: char) -> (r: Option<usize>)
    requires
        lo <= hi <= v@.len(),
    ensures
        match r {
            Some(i) => v@.subrange(lo as int, hi as int).index_of_first(c) == Some(i as int),
            None => v@.subrange(lo as int, hi as int).index_of_first(c) is None,
        },
{
    let ghost s = v@.subrange(lo as int, hi as int);
    proof {
        s.index_of_first_ensures(c);
    }
    let mut i = lo;
    while i < hi
        invariant
            lo <= i <= hi <= v@.len(),
            s == v@.subrange(lo as int, hi as int),
            forall|j: int| 0 <= j < i - lo ==> s[j] != c,
            match s.index_of_first(c) {
                Some(index) => {
                    &&& s.contains(c)
                    &&& 0 <= index < s.len()
                    &&& s[index] == c
                    &&& forall|j: int| 0 <= j < index < s.len() ==> s[j] != c
                },
                None => { !s.contains(c) },
            },
        decreases hi - i,
    {
        if v[i] == c {
            assert(s[i - lo] == c);
            return Some(i - lo);
        }
        i += 1;
    }
    None
}

/// The last index in `v[lo..hi]` holding `c`, counted from `lo`.
pub fn rfind_in(v: &Vec<char>, lo: usize, hi: usize, c: char) -> (r: Option<usize>)
    requires
        lo <= hi <= v@.len(),
    ensures
        match r {
            Some(i) => v@.subrange(lo as int, hi as int).index_of_last(c) == Some(i as int),
            None => v@.subrange(lo as int, hi as int).index_of_last(c) is None,
        },
{
    let ghost s = v@.subrange(lo as int, hi as int);
    proof {
        s.index_of_last_ensures(c);
    }
    let mut i = hi;
    while i > lo
        invariant
            lo <= i <= hi <= v@.len(),
            s == v@.subrange(lo as int, hi as int),
            forall|j: int| i - lo <= j < s.len() ==> s[j] != c,
            match s.index_of_last(c) {
                Some(index) => {
                    &&& s.contains(c)
                    &&& 0 <= index < s.len()
                    &&& s[index] == c
                    &&& forall|j: int| 0 <= index < j < s.len() ==> s[j] != c
                },
                None => { !s.contains(c) },
            },
        decreases i - lo,
    {
        if v[i - 1] == c {
            assert(s[i - 1 - lo] == c);
            return Some(i - 1 - lo);
        }
        i -= 1;
    }
    None
}

/// Where `p` occurs in `s` starting at `i`.
pub open spec fn occurs_at(s: Seq<char>, p: Seq<char>, i: int) -> bool {
    0 <= i && i + p.len() <= s.len() && s.subrange(i, i + p.len()) == p
}

/// `str::find` for a pattern of characters: the first place `p` occurs.
pub open spec fn find_sub(s: Seq<char>, p: Seq<char>) -> Option<int> {
    if p.len() > s.len() {
        None
    } else {
        Seq::new((s.len() - p.len() + 1) as nat, |i: int| occurs_at(s, p, i)).index_of_first(true)
    }
}

/// Where `find_sub` says a match is, and that none comes before it.
pub proof fn lemma_find_sub(s: Seq<char>, p: Seq<char>)
    ensures
        match find_sub(s, p) {
            Some(i) => occurs_at(s, p, i) && forall|j: int| 0 <= j < i ==> !occurs_at(s, p, j),
            None => forall|j: int| !occurs_at(s, p, j),
        },
{
    if p.len() <= s.len() {
        let flags = Seq::new((s.len() - p.len() + 1) as nat, |i: int| occurs_at(s, p, i));
        flags.index_of_first_ensures(true);
        match flags.index_of_first(true) {
            Some(i) => {
                assert forall|j: int| 0 <= j < i implies !occurs_at(s, p, j) by {
                    assert(flags[j] == occurs_at(s, p, j));
                }
            },
            None => {
                assert forall|j: int| !occurs_at(s, p, j) by {
                    if occurs_at(s, p, j) {
                        assert(flags[j]);
                        assert(flags.contains(true));
                    }
                }
            },
        }
    }
}

/// `find_sub` of a sequence is the unique first occurrence.
pub proof fn lemma_find_sub_is(s: Seq<char>, p: Seq<char>, i: int)
    requires
        occurs_at(s, p, i),
        forall|j: int| 0 <= j < i ==> !occurs_at(s, p, j),
    ensures
        find_sub(s, p) == Some(i),
{
    lemma_find_sub(s, p);
    match find_sub(s, p) {
        Some(k) => {
            if k < i {
                assert(!occurs_at(s, p, k));
            }
            if i < k {
                assert(!occurs_at(s, p, i));
            }
        },
        None => {
            assert(!occurs_at(s, p, i));
        },
    }
}

/// The first place `p` occurs in `v[lo..hi]`, counted from `lo`.
pub fn find_str_in(v: &Vec<char>, lo: usize, hi: usize, p: &str) -> (r: Option<usize>)
    requires
        lo <= hi <= v@.len(),
    ensures
        r matches Some(i) ==> find_sub(v@.subrange(lo as int, hi as int), p@) == Some(i as int),
        r is None ==> find_sub(v@.subrange(lo as int, hi as int), p@) is None,
{
    let ghost s = v@.subrange(lo as int, hi as int);
    let n = p.unicode_len();
    if n > hi - lo {
        proof {
            lemma_find_sub(s, p@);
        }
        return None;
    }
    if n == 0 {
        assert(s.subrange(0, 0) =~= p@);
        proof {
            lemma_find_sub_is(s, p@, 0);
        }
        return Some(0);
    }
    let mut i = lo;
    while i <= hi - n
        invariant
            lo <= i <= hi <= v@.len(),
            n == p@.len(),
            1 <= n <= hi - lo,
            s == v@.subrange(lo as int, hi as int),
            forall|j: int| 0 <= j < i - lo ==> !occurs_at(s, p@, j),
        decreases hi - i,
    {
        let here = range_is(v, i, i + n, p);
        assert(s.subrange(i - lo, i - lo + n) =~= v@.subrange(i as int, i + n));
        if here {
            proof {
                lemma_find_sub_is(s, p@, i - lo);
            }
            return Some(i - lo);
        }
        i += 1;
    }
    proof {
        lemma_find_sub(s, p@);
        match find_sub(s, p@) {
            Some(k) => {
                assert(occurs_at(s, p@, k));
                assert(false);
            },
            None => {},
        }
    }
    None
}

/// `str::contains` for a pattern of characters.
pub fn contains_str(s: &str, p: &str) -> (r: bool)
    ensures
        r == (find_sub(s@, p@) is Some),
{
    let v = chars_of(s);
    assert(v@.subrange(0, v@.len() as int) =~= v@);
    find_str_in(&v, 0, v.len(), p).is_some()
}

/// Whether `c` occurs in `s`.
pub fn contains_char(s: &str, c: char) -> (r: bool)
    ensures
        r == s@.contains(c),
{
    let v = chars_of(s);
    assert(v@.subrange(0, v@.len() as int) =~= v@);
    let f = find_in(&v, 0, v.len(), c);
    proof {
        v@.index_of_first_ensures(c);
    }
    f.is_some()
}

/// The first `true` in `flags` is at `i` when none comes before it.
pub proof fn lemma_first_true(flags: Seq<bool>, i: int)
    requires
        0 <= i < flags.len(),
        flags[i],
        forall|j: int| 0 <= j < i ==> !flags[j],
    ensures
        flags.index_of_first(true) == Some(i),
{
    flags.index_of_first_ensures(true);
    match flags.index_of_first(true) {
        Some(k) => {
            if k < i {
                assert(!flags[k]);
            }
            if i < k {
                assert(flags[i]);
            }
        },
        None => {
            assert(flags.contains(true));
        },
    }
}

/// No `true` in `flags`, no first one.
pub proof fn lemma_no_true(flags: Seq<bool>)
    requires
        forall|j: int| 0 <= j < flags.len() ==> !flags[j],
    ensures
        flags.index_of_first(true) is None,
{
    flags.index_of_first_ensures(true);
    match flags.index_of_first(true) {
        Some(k) => {
            assert(!flags[k]);
        },
        None => {},
    }
}

// --- trimming ---------------------------------------------------------------

/// `str::trim_start`.
pub open spec fn trim_start(s: Seq<char>) -> Seq<char>
    decreases s.len(),
{
    if s.len() > 0 && is_ws(s[0]) {
        trim_start(s.drop_first())
    } else {
        s
    }
}

/// `str::trim_end`.
pub open spec fn trim_end(s: Seq<char>) -> Seq<char>
    decreases s.len(),
{
    if s.len() > 0 && is_ws(s.last()) {
        trim_end(s.drop_last())
    } else {
        s
    }
}

/// `str::trim`.
pub open spec fn trim(s: Seq<char>) -> Seq<char> {
    trim_end(trim_start(s))
}

/// Where `v[lo..hi]` begins once leading whitespace is skipped.
pub fn skip_ws(v: &Vec<char>, lo: usize, hi: usize) -> (a: usize)
    requires
        lo <= hi <= v@.len(),
    ensures
        lo <= a <= hi,
        v@.subrange(a as int, hi as int) == trim_start(v@.subrange(lo as int, hi as int)),
{
    let mut i = lo;
    while i < hi && ws(v[i])
        invariant
            lo <= i <= hi <= v@.len(),
            trim_start(v@.subrange(i as int, hi as int)) == trim_start(
                v@.subrange(lo as int, hi as int),
            ),
        decreases hi - i,
    {
        assert(v@.subrange(i as int, hi as int).drop_first() =~= v@.subrange(i + 1, hi as int));
        i += 1;
    }
    i
}

/// Where `v[lo..hi]` ends once trailing whitespace is dropped.
pub fn skip_ws_back(v: &Vec<char>, lo: usize, hi: usize) -> (b: usize)
    requires
        lo <= hi <= v@.len(),
    ensures
        lo <= b <= hi,
        v@.subrange(lo as int, b as int) == trim_end(v@.subrange(lo as int, hi as int)),
{
    let mut i = hi;
    while i > lo && ws(v[i - 1])
        invariant
            lo <= i <= hi <= v@.len(),
            trim_end(v@.subrange(lo as int, i as int)) == trim_end(
                v@.subrange(lo as int, hi as int),
            ),
        decreases i - lo,
    {
        assert(v@.subrange(lo as int, i as int).drop_last() =~= v@.subrange(lo as int, i - 1));
        i -= 1;
    }
    i
}

/// The bounds of `v[lo..hi]` with whitespace trimmed from both ends.
pub fn trim_range(v: &Vec<char>, lo: usize, hi: usize) -> (r: (usize, usize))
    requires
        lo <= hi <= v@.len(),
    ensures
        lo <= r.0 <= r.1 <= hi,
        v@.subrange(r.0 as int, r.1 as int) == trim(v@.subrange(lo as int, hi as int)),
{
    let a = skip_ws(v, lo, hi);
    let b = skip_ws_back(v, a, hi);
    (a, b)
}

/// `str::trim`, as an owned string.
pub fn trimmed(s: &str) -> (r: String)
    ensures
        r@ == trim(s@),
{
    let v = chars_of(s);
    assert(v@.subrange(0, v@.len() as int) =~= v@);
    let (a, b) = trim_range(&v, 0, v.len());
    string_of(&v, a, b)
}

/// `str::trim`, borrowing from `s`.
pub fn trim_str(s: &str) -> (r: &str)
    ensures
        r@ == trim(s@),
{
    let v = chars_of(s);
    assert(v@.subrange(0, v@.len() as int) =~= v@);
    let (a, b) = trim_range(&v, 0, v.len());
    s.substring_char(a, b)
}

/// Whether `s` is empty once trimmed: every character is whitespace.
pub open spec fn blank(s: Seq<char>) -> bool {
    forall|i: int| 0 <= i < s.len() ==> is_ws(#[trigger] s[i])
}

pub proof fn lemma_trim_start_blank(s: Seq<char>)
    ensures
        (trim_start(s).len() == 0) == blank(s),
        trim_start(s).len() <= s.len(),
        trim_start(s) == s.subrange(s.len() - trim_start(s).len(), s.len() as int),
    decreases s.len(),
{
    if s.len() > 0 && is_ws(s[0]) {
        lemma_trim_start_blank(s.drop_first());
        if blank(s.drop_first()) {
            assert forall|i: int| 0 <= i < s.len() implies is_ws(#[trigger] s[i]) by {
                if i > 0 {
                    assert(s[i] == s.drop_first()[i - 1]);
                }
            }
        } else {
            let i = choose|i: int| 0 <= i < s.drop_first().len() && !is_ws(s.drop_first()[i]);
            assert(s[i + 1] == s.drop_first()[i]);
        }
        let t = trim_start(s.drop_first());
        assert(s.drop_first().subrange(s.drop_first().len() - t.len(), s.drop_first().len() as int)
            =~= s.subrange(s.len() - t.len(), s.len() as int));
    } else {
        assert(s.subrange(0, s.len() as int) =~= s);
        if s.len() > 0 {
            assert(!is_ws(s[0]));
        }
    }
}

pub proof fn lemma_trim_blank(s: Seq<char>)
    ensures
        (trim(s).len() == 0) == blank(s),
{
    lemma_trim_start_blank(s);
    let t = trim_start(s);
    lemma_trim_end_len(t);
    if blank(t) && !blank(s) {
        let i = choose|i: int| 0 <= i < s.len() && !is_ws(s[i]);
        let k = s.len() - t.len();
        if i >= k {
            assert(t[i - k] == s[i]);
        } else {
            // every character before the trimmed part is whitespace
            lemma_trim_start_prefix_ws(s, i);
        }
    }
    if !blank(t) && blank(s) {
        let i = choose|i: int| 0 <= i < t.len() && !is_ws(t[i]);
        let k = s.len() - t.len();
        assert(t[i] == s[i + k]);
    }
}

/// Everything `trim_start` drops is whitespace.
pub proof fn lemma_trim_start_prefix_ws(s: Seq<char>, i: int)
    requires
        0 <= i < s.len() - trim_start(s).len(),
    ensures
        is_ws(s[i]),
    decreases s.len(),
{
    lemma_trim_start_blank(s);
    if s.len() > 0 && is_ws(s[0]) {
        if i > 0 {
            lemma_trim_start_prefix_ws(s.drop_first(), i - 1);
        }
    }
}

/// `trim_end` leaves nothing exactly when nothing but whitespace was there.
pub proof fn lemma_trim_end_len(s: Seq<char>)
    ensures
        (trim_end(s).len() == 0) == blank(s),
        trim_end(s).len() <= s.len(),
        trim_end(s) == s.subrange(0, trim_end(s).len() as int),
    decreases s.len(),
{
    if s.len() > 0 && is_ws(s.last()) {
        lemma_trim_end_len(s.drop_last());
        if blank(s.drop_last()) {
            assert forall|i: int| 0 <= i < s.len() implies is_ws(#[trigger] s[i]) by {
                if i < s.len() - 1 {
                    assert(s[i] == s.drop_last()[i]);
                }
            }
        } else {
            let i = choose|i: int| 0 <= i < s.drop_last().len() && !is_ws(s.drop_last()[i]);
            assert(s[i] == s.drop_last()[i]);
        }
        let t = trim_end(s.drop_last());
        assert(s.drop_last().subrange(0, t.len() as int) =~= s.subrange(0, t.len() as int));
    } else {
        assert(s.subrange(0, s.len() as int) =~= s);
        if s.len() > 0 {
            assert(!is_ws(s.last()));
        }
    }
}

/// Whether `s` holds nothing but whitespace.
pub fn is_blank(s: &str) -> (r: bool)
    ensures
        r == blank(s@),
        r == (trim(s@).len() == 0),
{
    let v = chars_of(s);
    let mut i: usize = 0;
    while i < v.len()
        invariant
            v@ == s@,
            i <= v@.len(),
            forall|j: int| 0 <= j < i ==> is_ws(#[trigger] v@[j]),
        decreases v@.len() - i,
    {
        if !ws(v[i]) {
            proof {
                lemma_trim_blank(s@);
            }
            return false;
        }
        i += 1;
    }
    proof {
        lemma_trim_blank(s@);
    }
    true
}

// --- splitting --------------------------------------------------------------

/// `str::split` on one character: the pieces between each occurrence of `c`.
/// There is always at least one piece.
pub open spec fn split(s: Seq<char>, c: char) -> Seq<Seq<char>>
    decreases s.len(),
{
    match s.index_of_first(c) {
        Some(i) => {
            if 0 <= i < s.len() {
                seq![s.subrange(0, i)] + split(s.subrange(i + 1, s.len() as int), c)
            } else {
                seq![s]
            }
        },
        None => seq![s],
    }
}

/// `str::splitn(n, c)`: at most `n` pieces, the last holding the rest.
pub open spec fn splitn(s: Seq<char>, n: nat, c: char) -> Seq<Seq<char>>
    decreases s.len(),
{
    if n <= 1 {
        seq![s]
    } else {
        match s.index_of_first(c) {
            Some(i) => {
                if 0 <= i < s.len() {
                    seq![s.subrange(0, i)] + splitn(s.subrange(i + 1, s.len() as int), (n - 1) as nat, c)
                } else {
                    seq![s]
                }
            },
            None => seq![s],
        }
    }
}

/// `str::split_once` on one character.
pub open spec fn split_once(s: Seq<char>, c: char) -> Option<(Seq<char>, Seq<char>)> {
    match s.index_of_first(c) {
        Some(i) => Some((s.subrange(0, i), s.subrange(i + 1, s.len() as int))),
        None => None,
    }
}

/// `str::split_once` on a pattern of characters.
pub open spec fn split_once_str(s: Seq<char>, p: Seq<char>) -> Option<(Seq<char>, Seq<char>)> {
    match find_sub(s, p) {
        Some(i) => Some((s.take(i), s.skip(i + p.len()))),
        None => None,
    }
}

/// `str::rsplit_once` on one character.
pub open spec fn rsplit_once(s: Seq<char>, c: char) -> Option<(Seq<char>, Seq<char>)> {
    match s.index_of_last(c) {
        Some(i) => Some((s.subrange(0, i), s.subrange(i + 1, s.len() as int))),
        None => None,
    }
}

/// The pieces of `v[lo..hi]` between occurrences of `c`.
pub fn split_range(v: &Vec<char>, lo: usize, hi: usize, c: char) -> (r: Vec<Vec<char>>)
    requires
        lo <= hi <= v@.len(),
    ensures
        r@.map_values(|p: Vec<char>| p@) == split(v@.subrange(lo as int, hi as int), c),
{
    let mut out: Vec<Vec<char>> = Vec::new();
    let mut start = lo;
    loop
        invariant
            lo <= start <= hi <= v@.len(),
            out@.map_values(|p: Vec<char>| p@) + split(v@.subrange(start as int, hi as int), c)
                == split(v@.subrange(lo as int, hi as int), c),
        decreases hi - start,
    {
        let ghost rest = v@.subrange(start as int, hi as int);
        proof {
            rest.index_of_first_ensures(c);
        }
        match find_in(v, start, hi, c) {
            Some(i) => {
                let mut piece = Vec::new();
                let mut k = start;
                while k < start + i
                    invariant
                        start <= k <= start + i < hi <= v@.len(),
                        piece@ == v@.subrange(start as int, k as int),
                    decreases start + i - k,
                {
                    piece.push(v[k]);
                    assert(v@.subrange(start as int, k + 1) =~= v@.subrange(start as int, k as int).push(v@[k as int]));
                    k += 1;
                }
                assert(rest.subrange(0, i as int) =~= v@.subrange(start as int, start + i));
                assert(rest.subrange(i + 1, rest.len() as int) =~= v@.subrange(start + i + 1, hi as int));
                let ghost before = out@.map_values(|p: Vec<char>| p@);
                out.push(piece);
                assert(out@.map_values(|p: Vec<char>| p@) =~= before.push(v@.subrange(start as int, start + i)));
                assert(split(rest, c) == seq![rest.subrange(0, i as int)] + split(rest.subrange(i + 1, rest.len() as int), c));
                assert(before + split(rest, c) =~= before.push(v@.subrange(start as int, start + i)) + split(v@.subrange(start + i + 1, hi as int), c));
                start = start + i + 1;
            },
            None => {
                let mut piece = Vec::new();
                let mut k = start;
                while k < hi
                    invariant
                        start <= k <= hi <= v@.len(),
                        piece@ == v@.subrange(start as int, k as int),
                    decreases hi - k,
                {
                    piece.push(v[k]);
                    assert(v@.subrange(start as int, k + 1) =~= v@.subrange(start as int, k as int).push(v@[k as int]));
                    k += 1;
                }
                let ghost before = out@.map_values(|p: Vec<char>| p@);
                out.push(piece);
                assert(out@.map_values(|p: Vec<char>| p@) =~= before.push(rest));
                assert(before + split(rest, c) =~= before.push(rest));
                return out;
            },
        }
    }
}

/// The pieces of `v[lo..hi]` that `str::splitn(n, c)` yields.
pub fn splitn_range(v: &Vec<char>, lo: usize, hi: usize, n: usize, c: char) -> (r: Vec<Vec<char>>)
    requires
        lo <= hi <= v@.len(),
    ensures
        r@.map_values(|p: Vec<char>| p@) == splitn(v@.subrange(lo as int, hi as int), n as nat, c),
{
    let mut out: Vec<Vec<char>> = Vec::new();
    let mut start = lo;
    let mut left = n;
    loop
        invariant
            lo <= start <= hi <= v@.len(),
            out@.map_values(|p: Vec<char>| p@) + splitn(v@.subrange(start as int, hi as int), left as nat, c)
                == splitn(v@.subrange(lo as int, hi as int), n as nat, c),
        decreases hi - start,
    {
        let ghost rest = v@.subrange(start as int, hi as int);
        proof {
            rest.index_of_first_ensures(c);
        }
        let found = if left <= 1 {
            None
        } else {
            find_in(v, start, hi, c)
        };
        match found {
            Some(i) => {
                let piece = slice_vec(v, start, start + i);
                assert(rest.subrange(0, i as int) =~= v@.subrange(start as int, start + i));
                assert(rest.subrange(i + 1, rest.len() as int) =~= v@.subrange(start + i + 1, hi as int));
                let ghost before = out@.map_values(|p: Vec<char>| p@);
                out.push(piece);
                assert(out@.map_values(|p: Vec<char>| p@) =~= before.push(v@.subrange(start as int, start + i)));
                assert(splitn(rest, left as nat, c) == seq![rest.subrange(0, i as int)] + splitn(rest.subrange(i + 1, rest.len() as int), (left - 1) as nat, c));
                assert(before + splitn(rest, left as nat, c) =~= before.push(v@.subrange(start as int, start + i)) + splitn(v@.subrange(start + i + 1, hi as int), (left - 1) as nat, c));
                start = start + i + 1;
                left = left - 1;
            },
            None => {
                let piece = slice_vec(v, start, hi);
                let ghost before = out@.map_values(|p: Vec<char>| p@);
                out.push(piece);
                assert(out@.map_values(|p: Vec<char>| p@) =~= before.push(rest));
                assert(splitn(rest, left as nat, c) == seq![rest]);
                assert(before + splitn(rest, left as nat, c) =~= before.push(rest));
                return out;
            },
        }
    }
}

/// A copy of `v[lo..hi]`.
pub fn slice_vec(v: &Vec<char>, lo: usize, hi: usize) -> (r: Vec<char>)
    requires
        lo <= hi <= v@.len(),
    ensures
        r@ == v@.subrange(lo as int, hi as int),
{
    let mut piece = Vec::new();
    let mut k = lo;
    while k < hi
        invariant
            lo <= k <= hi <= v@.len(),
            piece@ == v@.subrange(lo as int, k as int),
        decreases hi - k,
    {
        piece.push(v[k]);
        assert(v@.subrange(lo as int, k + 1) =~= v@.subrange(lo as int, k as int).push(v@[k as int]));
        k += 1;
    }
    piece
}

/// `str::lines`: the pieces between newlines, each without the carriage return
/// that ended it, and without the empty piece a final newline leaves.
pub open spec fn lines(s: Seq<char>) -> Seq<Seq<char>> {
    let p = split(s, '\n');
    let n: int = if p.last().len() == 0 {
        p.len() - 1
    } else {
        p.len() as int
    };
    Seq::new(n as nat, |i: int| line_at(p, i))
}

/// The `i`th piece between newlines as a line: without its carriage return
/// when a newline followed it.
pub open spec fn line_at(p: Seq<Seq<char>>, i: int) -> Seq<char> {
    if i < p.len() - 1 {
        strip_cr(p[i])
    } else {
        p[i]
    }
}

/// A line's carriage return, dropped.
pub open spec fn strip_cr(l: Seq<char>) -> Seq<char> {
    if l.len() > 0 && l.last() == '\r' {
        l.drop_last()
    } else {
        l
    }
}

pub proof fn lemma_split_nonempty(s: Seq<char>, c: char)
    ensures
        split(s, c).len() >= 1,
    decreases s.len(),
{
    s.index_of_first_ensures(c);
    match s.index_of_first(c) {
        Some(i) => {
            lemma_split_nonempty(s.subrange(i + 1, s.len() as int), c);
        },
        None => {},
    }
}

/// The lines of `s`.
pub fn lines_of(s: &str) -> (r: Vec<Vec<char>>)
    ensures
        r@.map_values(|p: Vec<char>| p@) == lines(s@),
{
    let v = chars_of(s);
    assert(v@.subrange(0, v@.len() as int) =~= v@);
    let pieces = split_range(&v, 0, v.len(), '\n');
    let ghost p = split(s@, '\n');
    proof {
        lemma_split_nonempty(s@, '\n');
    }
    assert(pieces@.len() == p.len());
    let count = if pieces[pieces.len() - 1].len() == 0 {
        pieces.len() - 1
    } else {
        pieces.len()
    };
    assert(pieces@[pieces@.len() - 1]@ == p.last());
    let mut out: Vec<Vec<char>> = Vec::new();
    let mut i: usize = 0;
    while i < count
        invariant
            count <= pieces@.len(),
            pieces@.map_values(|q: Vec<char>| q@) == p,
            p == split(s@, '\n'),
            p.len() >= 1,
            count == lines(s@).len(),
            i <= count,
            forall|j: int| 0 <= j < i ==> (#[trigger] out@[j])@ == lines(s@)[j],
            out@.len() == i,
        decreases count - i,
    {
        let piece = &pieces[i];
        assert(piece@ == p[i as int]);
        let n = piece.len();
        let mut line = Vec::new();
        let keep = if i + 1 < pieces.len() && n > 0 && piece[n - 1] == '\r' {
            n - 1
        } else {
            n
        };
        let mut k: usize = 0;
        while k < keep
            invariant
                keep <= n == piece@.len(),
                k <= keep,
                line@ == piece@.subrange(0, k as int),
            decreases keep - k,
        {
            line.push(piece[k]);
            assert(piece@.subrange(0, k + 1) =~= piece@.subrange(0, k as int).push(piece@[k as int]));
            k += 1;
        }
        proof {
            let l = lines(s@);
            assert(l[i as int] == line_at(p, i as int));
            if keep < n {
                assert(strip_cr(p[i as int]) == p[i as int].drop_last());
            } else {
                assert(piece@.subrange(0, n as int) =~= piece@);
            }
        }
        assert(line@ =~= lines(s@)[i as int]);
        out.push(line);
        i += 1;
    }
    assert(out@.map_values(|q: Vec<char>| q@) =~= lines(s@));
    out
}

// --- joining ----------------------------------------------------------------

/// `[&str]::join(sep)`.
pub open spec fn join(parts: Seq<Seq<char>>, sep: Seq<char>) -> Seq<char>
    decreases parts.len(),
{
    if parts.len() == 0 {
        Seq::empty()
    } else if parts.len() == 1 {
        parts[0]
    } else {
        join(parts.drop_last(), sep) + sep + parts.last()
    }
}

/// The strings of `parts` with `sep` between each two.
pub fn join_strings(parts: &Vec<String>, sep: &str) -> (r: String)
    ensures
        r@ == join(parts@.map_values(|p: String| p@), sep@),
{
    let ghost views = parts@.map_values(|p: String| p@);
    let mut out = String::new();
    let mut i: usize = 0;
    while i < parts.len()
        invariant
            views == parts@.map_values(|p: String| p@),
            i <= parts@.len(),
            out@ == join(views.take(i as int), sep@),
        decreases parts@.len() - i,
    {
        if i > 0 {
            out.append(sep);
        }
        out.append(parts[i].as_str());
        assert(views.take(i + 1).drop_last() =~= views.take(i as int));
        i += 1;
    }
    assert(views.take(parts@.len() as int) =~= views);
    out
}

// --- numbers ----------------------------------------------------------------

pub open spec fn digit_value(c: char) -> nat {
    ((c as u32) - ('0' as u32)) as nat
}

pub open spec fn digit_char(d: nat) -> char {
    ((d + 48) as u8) as char
}

/// The number a run of decimal digits spells.
pub open spec fn value(s: Seq<char>) -> nat
    decreases s.len(),
{
    if s.len() == 0 {
        0
    } else {
        value(s.drop_last()) * 10 + digit_value(s.last())
    }
}

pub open spec fn all_digits(s: Seq<char>) -> bool {
    forall|i: int| 0 <= i < s.len() ==> is_digit(#[trigger] s[i])
}

/// What `str::parse` reads a non-negative integer as: an optional `+`, then at
/// least one digit and nothing else. The bound of the type is checked apart.
pub open spec fn parse_nat(s: Seq<char>) -> Option<nat> {
    let body = if s.len() > 0 && s[0] == '+' {
        s.drop_first()
    } else {
        s
    };
    if body.len() > 0 && all_digits(body) {
        Some(value(body))
    } else {
        None
    }
}

/// What `str::parse` reads a signed integer as: `parse_nat`, or a `-` and at
/// least one digit.
pub open spec fn parse_int(s: Seq<char>) -> Option<int> {
    if s.len() > 0 && s[0] == '-' {
        let body = s.drop_first();
        if body.len() > 0 && all_digits(body) {
            Some(-value(body))
        } else {
            None
        }
    } else {
        match parse_nat(s) {
            Some(n) => Some(n as int),
            None => None,
        }
    }
}

/// The decimal digits of `n`, most significant first, as `Display` writes it.
pub open spec fn decimal(n: nat) -> Seq<char>
    decreases n,
{
    if n < 10 {
        seq![digit_char(n)]
    } else {
        decimal(n / 10).push(digit_char(n % 10))
    }
}

/// Read the digits `v[lo..hi]` as a number no larger than `max`; `None` when
/// one is not a digit, the run is empty, or the number exceeds `max`.
pub fn digits_value(v: &Vec<char>, lo: usize, hi: usize, max: u64) -> (r: Option<u64>)
    requires
        lo <= hi <= v@.len(),
    ensures
        match r {
            Some(n) => {
                &&& hi > lo
                &&& all_digits(v@.subrange(lo as int, hi as int))
                &&& n == value(v@.subrange(lo as int, hi as int))
                &&& n <= max
            },
            None => !(hi > lo && all_digits(v@.subrange(lo as int, hi as int)) && value(
                v@.subrange(lo as int, hi as int),
            ) <= max),
        },
{
    if hi == lo {
        return None;
    }
    let ghost s = v@.subrange(lo as int, hi as int);
    let mut j = lo;
    while j < hi
        invariant
            lo <= j <= hi <= v@.len(),
            s == v@.subrange(lo as int, hi as int),
            forall|t: int| 0 <= t < j - lo ==> is_digit(#[trigger] s[t]),
        decreases hi - j,
    {
        if !digit(v[j]) {
            assert(!is_digit(s[j - lo]));
            return None;
        }
        j += 1;
    }
    assert(all_digits(s));
    let mut acc: u64 = 0;
    let mut i = lo;
    while i < hi
        invariant
            lo <= i <= hi <= v@.len(),
            s == v@.subrange(lo as int, hi as int),
            all_digits(s),
            acc == value(v@.subrange(lo as int, i as int)),
            acc <= max,
        decreases hi - i,
    {
        let c = v[i];
        assert(v@.subrange(lo as int, i + 1).drop_last() =~= v@.subrange(lo as int, i as int));
        assert(is_digit(s[i - lo]));
        let d = (c as u32 - '0' as u32) as u64;
        assert(s.subrange(0, i + 1 - lo) =~= v@.subrange(lo as int, i + 1));
        if d > max || acc > (max - d) / 10 {
            proof {
                lemma_value_grows(s, i + 1 - lo);
                if d <= max {
                    assert(acc * 10 + d > max) by (nonlinear_arith)
                        requires
                            acc > (max - d) / 10,
                            d <= max,
                    {
                    }
                }
            }
            return None;
        }
        assert(acc * 10 + d <= max) by (nonlinear_arith)
            requires
                acc <= (max - d) / 10,
                d <= max,
        ;
        acc = acc * 10 + d;
        i += 1;
    }
    assert(v@.subrange(lo as int, hi as int) =~= v@.subrange(lo as int, i as int));
    Some(acc)
}

/// A prefix of a run of digits never spells more than the whole run.
pub proof fn lemma_value_grows(s: Seq<char>, k: int)
    requires
        0 <= k <= s.len(),
        all_digits(s),
    ensures
        value(s.subrange(0, k)) <= value(s),
    decreases s.len() - k,
{
    if k < s.len() {
        lemma_value_grows(s, k + 1);
        assert(s.subrange(0, k + 1).drop_last() =~= s.subrange(0, k));
    } else {
        assert(s.subrange(0, k) =~= s);
    }
}

/// `str::parse::<u64>` bounded by `max`, as the narrower unsigned types read.
pub fn parse_unsigned(v: &Vec<char>, lo: usize, hi: usize, max: u64) -> (r: Option<u64>)
    requires
        lo <= hi <= v@.len(),
    ensures
        match r {
            Some(n) => parse_nat(v@.subrange(lo as int, hi as int)) == Some(n as nat),
            None => !(parse_nat(v@.subrange(lo as int, hi as int)) matches Some(n) && n <= max),
        },
        r matches Some(n) ==> n <= max,
{
    let ghost s = v@.subrange(lo as int, hi as int);
    if hi > lo && v[lo] == '+' {
        assert(s.drop_first() =~= v@.subrange(lo + 1, hi as int));
        digits_value(v, lo + 1, hi, max)
    } else {
        digits_value(v, lo, hi, max)
    }
}

/// `str::parse::<i64>`.
pub fn parse_i64(v: &Vec<char>, lo: usize, hi: usize) -> (r: Option<i64>)
    requires
        lo <= hi <= v@.len(),
    ensures
        match r {
            Some(n) => parse_int(v@.subrange(lo as int, hi as int)) == Some(n as int),
            None => !(parse_int(v@.subrange(lo as int, hi as int)) matches Some(n) && i64::MIN
                <= n <= i64::MAX),
        },
{
    let ghost s = v@.subrange(lo as int, hi as int);
    if hi > lo && v[lo] == '-' {
        assert(s.drop_first() =~= v@.subrange(lo + 1, hi as int));
        match digits_value(v, lo + 1, hi, 9223372036854775808u64) {
            Some(m) => {
                if m == 9223372036854775808u64 {
                    Some(i64::MIN)
                } else {
                    Some(-(m as i64))
                }
            },
            None => None,
        }
    } else {
        match parse_unsigned(v, lo, hi, i64::MAX as u64) {
            Some(m) => Some(m as i64),
            None => None,
        }
    }
}

/// Append the decimal digits of `n` to `out`.
pub fn push_decimal(out: &mut String, n: u64)
    ensures
        final(out)@ == old(out)@ + decimal(n as nat),
    decreases n,
{
    if n >= 10 {
        push_decimal(out, n / 10);
    }
    let d = (n % 10) as u8;
    push_char(out, (d + 48) as char);
    assert(old(out)@ + decimal(n as nat) =~= if n >= 10 {
        (old(out)@ + decimal((n / 10) as nat)).push(digit_char((n % 10) as nat))
    } else {
        old(out)@.push(digit_char(n as nat))
    });
}

/// `n` in decimal, as `Display` writes an unsigned integer.
pub fn decimal_string(n: u64) -> (r: String)
    ensures
        r@ == decimal(n as nat),
{
    let mut out = String::new();
    push_decimal(&mut out, n);
    assert(out@ =~= decimal(n as nat));
    out
}

} // verus!
