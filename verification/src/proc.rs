//! Running processes: reading `ps` output, which pids may be signalled, and
//! which signal a name means.
//!
//! `ps` reports CPU and memory shares as decimal fractions. A process here
//! keeps them as the text `ps` printed: reading that text as a number, and
//! ordering or formatting by it, is floating point and is not done here.

use std::collections::HashSet;

use vstd::prelude::*;

use crate::text::{chars_of, is_ws, parse_int, push_decimal, string_of, trim, trim_end, trim_start, ws};

verus! {

/// The `ps` field list scriv reads, in the order [`parse`] expects. The
/// trailing `=` suppresses each header, so every line is a process; `args`
/// comes last because it is the only field that can contain spaces.
pub const PS_ARGS: [&'static str; 3] = ["-axo", "user=,pid=,ppid=,pcpu=,pmem=,etime=,args=", "-ww"];

/// How many fixed-width fields precede the command in a `ps` line.
pub const FIELDS: usize = 6;

/// The widest the user column is allowed to get.
pub const MAX_USER_WIDTH: usize = 14;

/// One running process, as `ps` reported it.
#[derive(Debug, Clone, PartialEq, Eq)]
pub struct Process {
    pub pid: i32,
    pub ppid: i32,
    pub user: String,
    /// The CPU share, as `ps` printed it.
    pub cpu: String,
    /// The memory share, as `ps` printed it.
    pub mem: String,
    /// Elapsed running time, in `ps`'s own `[[dd-]hh:]mm:ss` form.
    pub elapsed: String,
    /// The full command line, arguments included.
    pub command: String,
}

/// The first character of `s` that is whitespace.
pub open spec fn first_ws(s: Seq<char>) -> Option<int>
    decreases s.len(),
{
    if s.len() == 0 {
        None
    } else if is_ws(s[0]) {
        Some(0)
    } else {
        match first_ws(s.drop_first()) {
            Some(i) => Some(i + 1),
            None => None,
        }
    }
}

/// What precedes the first whitespace of `s`: its first word.
pub open spec fn first_word(s: Seq<char>) -> Seq<char> {
    match first_ws(s) {
        Some(i) => s.take(i),
        None => s,
    }
}

/// What follows the last `/` of `s`, or all of it.
pub open spec fn last_component(s: Seq<char>) -> Seq<char> {
    match s.index_of_last('/') {
        Some(i) => s.skip(i + 1),
        None => s,
    }
}

proof fn lemma_first_ws(s: Seq<char>)
    ensures
        match first_ws(s) {
            Some(i) => 0 <= i < s.len() && is_ws(s[i]) && forall|j: int| 0 <= j < i ==> !is_ws(s[j]),
            None => forall|j: int| 0 <= j < s.len() ==> !is_ws(s[j]),
        },
    decreases s.len(),
{
    if s.len() > 0 && !is_ws(s[0]) {
        lemma_first_ws(s.drop_first());
        match first_ws(s.drop_first()) {
            Some(i) => {
                assert forall|j: int| 0 <= j < i + 1 implies !is_ws(s[j]) by {
                    if j > 0 {
                        assert(s[j] == s.drop_first()[j - 1]);
                    }
                }
            },
            None => {
                assert forall|j: int| 0 <= j < s.len() implies !is_ws(s[j]) by {
                    if j > 0 {
                        assert(s[j] == s.drop_first()[j - 1]);
                    }
                }
            },
        }
    }
}

fn first_ws_in(v: &Vec<char>, lo: usize, hi: usize) -> (r: Option<usize>)
    requires
        lo <= hi <= v@.len(),
    ensures
        match r {
            Some(i) => lo <= i < hi && first_ws(v@.subrange(lo as int, hi as int)) == Some(i - lo),
            None => first_ws(v@.subrange(lo as int, hi as int)) is None,
        },
{
    let mut i = lo;
    while i < hi
        invariant
            lo <= i <= hi <= v@.len(),
            forall|j: int| lo <= j < i ==> !is_ws(#[trigger] v@[j]),
        decreases hi - i,
    {
        if ws(v[i]) {
            proof {
                let s = v@.subrange(lo as int, hi as int);
                lemma_first_ws(s);
                match first_ws(s) {
                    Some(k) => {
                        if k < i - lo {
                            assert(s[k] == v@[lo + k]);
                        }
                        if k > i - lo {
                            assert(s[i - lo] == v@[i as int]);
                        }
                    },
                    None => {
                        assert(s[i - lo] == v@[i as int]);
                    },
                }
            }
            return Some(i);
        }
        i += 1;
    }
    proof {
        let s = v@.subrange(lo as int, hi as int);
        lemma_first_ws(s);
        if first_ws(s) is Some {
            let k = first_ws(s).unwrap();
            assert(s[k] == v@[lo + k]);
        }
    }
    None
}

impl Process {
    /// The process name alone: the last path component of argv[0].
    pub fn name(&self) -> (r: &str)
        ensures
            r@ == last_component(first_word(self.command@)),
    {
        let s = self.command.as_str();
        let v = chars_of(s);
        let n = v.len();
        assert(v@.subrange(0, n as int) =~= v@);
        let end = match first_ws_in(&v, 0, n) {
            Some(i) => i,
            None => n,
        };
        let ghost w = first_word(s@);
        assert(w =~= v@.subrange(0, end as int));
        proof {
            w.index_of_last_ensures('/');
        }
        match crate::text::rfind_in(&v, 0, end, '/') {
            Some(i) => {
                assert(w.skip(i + 1) =~= v@.subrange(i + 1, end as int));
                s.substring_char(i + 1, end)
            },
            None => s.substring_char(0, end),
        }
    }
}

/// The first `k` whitespace-separated fields of `s`, and what follows them
/// trimmed of leading whitespace; `None` when a field has no whitespace after
/// it.
pub open spec fn fields_of(s: Seq<char>, k: nat) -> Option<(Seq<Seq<char>>, Seq<char>)>
    decreases k,
{
    if k == 0 {
        Some((Seq::empty(), s))
    } else {
        match first_ws(s) {
            Some(e) => match fields_of(trim_start(s.skip(e)), (k - 1) as nat) {
                Some((fs, rest)) => Some((seq![s.take(e)] + fs, rest)),
                None => None,
            },
            None => None,
        }
    }
}

pub open spec fn parse_i32_of(s: Seq<char>) -> Option<i32> {
    match parse_int(s) {
        Some(n) => if i32::MIN <= n <= i32::MAX {
            Some(n as i32)
        } else {
            None
        },
        None => None,
    }
}

pub struct ProcessView {
    pub pid: i32,
    pub ppid: i32,
    pub user: Seq<char>,
    pub cpu: Seq<char>,
    pub mem: Seq<char>,
    pub elapsed: Seq<char>,
    pub command: Seq<char>,
}

impl View for Process {
    type V = ProcessView;

    open spec fn view(&self) -> ProcessView {
        ProcessView {
            pid: self.pid,
            ppid: self.ppid,
            user: self.user@,
            cpu: self.cpu@,
            mem: self.mem@,
            elapsed: self.elapsed@,
            command: self.command@,
        }
    }
}

/// One `ps` line read: six fields and the command after them, the text made
/// safe as a row, the pids read; `None` for a line that is not one. The CPU
/// and memory fields are kept as written, unread.
pub open spec fn process_of(line: Seq<char>) -> Option<ProcessView> {
    match fields_of(trim_start(line), FIELDS as nat) {
        Some((f, rest)) => {
            let command = trim_end(rest);
            if command.len() == 0 {
                None
            } else {
                match (parse_i32_of(f[1]), parse_i32_of(f[2])) {
                    (Some(pid), Some(ppid)) => Some(
                        ProcessView {
                            pid,
                            ppid,
                            user: crate::history::row_text(f[0]),
                            cpu: f[3],
                            mem: f[4],
                            elapsed: crate::history::row_text(f[5]),
                            command: crate::history::row_text(command),
                        },
                    ),
                    _ => None,
                }
            }
        },
        None => None,
    }
}

pub open spec fn process_of_fn() -> spec_fn(Seq<char>) -> Option<ProcessView> {
    |l: Seq<char>| process_of(l)
}

/// Every readable line of `ps` output, in order.
pub open spec fn processes_of(text: Seq<char>) -> Seq<ProcessView> {
    crate::text::lines(text).filter_map(process_of_fn())
}

fn parse_line(v: &Vec<char>) -> (r: Option<Process>)
    ensures
        match r {
            Some(p) => process_of(v@) == Some(p@),
            None => process_of(v@) is None,
        },
{
    let n = v.len();
    assert(v@.subrange(0, n as int) =~= v@);
    let mut at = crate::text::skip_ws(v, 0, n);
    let ghost start = at;
    assert(trim_start(v@) == v@.subrange(start as int, n as int));
    let mut bounds: Vec<(usize, usize)> = Vec::new();
    let mut k: usize = 0;
    while k < FIELDS
        invariant
            start <= at <= n == v@.len(),
            trim_start(v@) == v@.subrange(start as int, n as int),
            k <= FIELDS,
            bounds@.len() == k,
            forall|j: int|
                0 <= j < k ==> (#[trigger] bounds@[j]).0 <= bounds@[j].1 <= n,
            fields_of(v@.subrange(start as int, n as int), FIELDS as nat) == match fields_of(
                v@.subrange(at as int, n as int),
                (FIELDS - k) as nat,
            ) {
                Some((fs, rest)) => Some(
                    (
                        Seq::new(k as nat, |j: int| v@.subrange(bounds@[j].0 as int, bounds@[j].1 as int))
                            + fs,
                        rest,
                    ),
                ),
                None => None::<(Seq<Seq<char>>, Seq<char>)>,
            },
        decreases FIELDS - k,
    {
        let ghost s = v@.subrange(at as int, n as int);
        let e = match first_ws_in(v, at, n) {
            Some(e) => e,
            None => {
                assert(fields_of(s, (FIELDS - k) as nat) is None);
                return None;
            },
        };
        let next = crate::text::skip_ws(v, e, n);
        assert(s.skip(e - at) =~= v@.subrange(e as int, n as int));
        assert(s.take(e - at) =~= v@.subrange(at as int, e as int));
        let ghost old_bounds = bounds@;
        bounds.push((at, e));
        proof {
            let f = |j: int| v@.subrange(bounds@[j].0 as int, bounds@[j].1 as int);
            let g = |j: int| v@.subrange(old_bounds[j].0 as int, old_bounds[j].1 as int);
            match fields_of(v@.subrange(next as int, n as int), (FIELDS - k - 1) as nat) {
                Some((fs, rest)) => {
                    assert(Seq::new((k + 1) as nat, f) + fs =~= Seq::new(k as nat, g) + (seq![
                        v@.subrange(at as int, e as int),
                    ] + fs));
                },
                None => {},
            }
        }
        at = next;
        k += 1;
    }
    let ghost fs_all = Seq::new(FIELDS as nat, |j: int| v@.subrange(bounds@[j].0 as int, bounds@[j].1 as int));
    assert(fields_of(v@.subrange(at as int, n as int), 0) == Some((Seq::<Seq<char>>::empty(), v@.subrange(at as int, n as int))));
    assert(fs_all + Seq::<Seq<char>>::empty() =~= fs_all);
    assert(trim_start(v@) == v@.subrange(start as int, n as int));
    let b = crate::text::skip_ws_back(v, at, n);
    if b == at {
        return None;
    }
    let (u0, u1) = bounds[0];
    let (p0, p1) = bounds[1];
    let (q0, q1) = bounds[2];
    let (c0, c1) = bounds[3];
    let (m0, m1) = bounds[4];
    let (e0, e1) = bounds[5];
    let pid = match crate::text::parse_i64(v, p0, p1) {
        Some(x) => if -2147483648 <= x && x <= 2147483647 {
            x as i32
        } else {
            return None;
        },
        None => {
            return None;
        },
    };
    let ppid = match crate::text::parse_i64(v, q0, q1) {
        Some(x) => if -2147483648 <= x && x <= 2147483647 {
            x as i32
        } else {
            return None;
        },
        None => {
            return None;
        },
    };
    let cpu = string_of(v, c0, c1);
    let mem = string_of(v, m0, m1);
    let user = string_of(v, u0, u1);
    let elapsed = string_of(v, e0, e1);
    let command = string_of(v, at, b);
    Some(
        Process {
            pid,
            ppid,
            user: crate::term::one_row(user.as_str()),
            cpu,
            mem,
            elapsed: crate::term::one_row(elapsed.as_str()),
            command: crate::term::one_row(command.as_str()),
        },
    )
}

/// Read the output of `ps` with [`PS_ARGS`] — see [`processes_of`].
/// Unreadable lines are skipped rather than failing the listing, and every
/// process chooses its own argv, so the text is made safe here.
#[verifier::spinoff_prover]
#[verifier::rlimit(50)]
pub fn parse(text: &str) -> (r: Vec<Process>)
    ensures
        r@.map_values(|p: Process| p@) == processes_of(text@),
{
    let ls = crate::text::lines_of(text);
    let ghost lv = ls@.map_values(|p: Vec<char>| p@);
    let mut out: Vec<Process> = Vec::new();
    let mut i: usize = 0;
    while i < ls.len()
        invariant
            lv == ls@.map_values(|p: Vec<char>| p@),
            lv == crate::text::lines(text@),
            i <= lv.len(),
            out@.map_values(|p: Process| p@) == lv.take(i as int).filter_map(process_of_fn()),
        decreases lv.len() - i,
    {
        proof {
            lv.lemma_filter_map_take_succ(process_of_fn(), i as int);
        }
        let ghost before = out@.map_values(|p: Process| p@);
        assert(lv[i as int] == ls@[i as int]@);
        match parse_line(&ls[i]) {
            Some(p) => {
                out.push(p);
                assert(out@.map_values(|p: Process| p@) =~= before + seq![p@]);
            },
            None => {
                assert(before + Seq::<ProcessView>::empty() =~= before);
            },
        }
        i += 1;
    }
    assert(lv.take(lv.len() as int) =~= lv);
    out
}

// --- which pids may be signalled --------------------------------------------

/// The first process listed under `pid`.
pub open spec fn first_with_pid(ps: Seq<ProcessView>, pid: i32) -> Option<int>
    decreases ps.len(),
{
    if ps.len() == 0 {
        None
    } else if ps[0].pid == pid {
        Some(0)
    } else {
        match first_with_pid(ps.drop_first(), pid) {
            Some(i) => Some(i + 1),
            None => None,
        }
    }
}

proof fn lemma_first_with_pid(ps: Seq<ProcessView>, pid: i32)
    ensures
        match first_with_pid(ps, pid) {
            Some(i) => 0 <= i < ps.len() && ps[i].pid == pid && forall|j: int|
                0 <= j < i ==> ps[j].pid != pid,
            None => forall|j: int| 0 <= j < ps.len() ==> ps[j].pid != pid,
        },
    decreases ps.len(),
{
    if ps.len() > 0 && ps[0].pid != pid {
        lemma_first_with_pid(ps.drop_first(), pid);
        assert forall|j: int| 0 < j < ps.len() implies ps[j] == ps.drop_first()[j - 1] by {}
    }
}

/// The parent `pid` has in the table, when it is listed and its parent is a
/// process rather than the kernel.
pub open spec fn parent_step(ps: Seq<ProcessView>, pid: i32) -> Option<i32> {
    match first_with_pid(ps, pid) {
        Some(i) => if ps[i].ppid > 0 {
            Some(ps[i].ppid)
        } else {
            None
        },
        None => None,
    }
}

/// `chain` is `pid` and its ancestors: it starts at `pid`, each next pid is
/// the parent of the one before, no pid comes twice, and it stops where the
/// table has no parent to go on to or the next parent is already in it.
pub open spec fn is_ancestry(ps: Seq<ProcessView>, pid: i32, chain: Seq<i32>) -> bool {
    &&& chain.len() > 0
    &&& chain[0] == pid
    &&& chain.no_duplicates()
    &&& forall|i: int| 0 <= i < chain.len() - 1 ==> parent_step(ps, #[trigger] chain[i]) == Some(chain[i + 1])
    &&& match parent_step(ps, chain.last()) {
        Some(p) => chain.contains(p),
        None => true,
    }
}

pub open spec fn process_views(ps: Seq<Process>) -> Seq<ProcessView> {
    ps.map_values(|p: Process| p@)
}

fn find_pid(processes: &[Process], pid: i32) -> (r: Option<usize>)
    ensures
        match r {
            Some(i) => first_with_pid(process_views(processes@), pid) == Some(i as int),
            None => first_with_pid(process_views(processes@), pid) is None,
        },
{
    let ghost pv = process_views(processes@);
    proof {
        lemma_first_with_pid(pv, pid);
    }
    let mut i: usize = 0;
    while i < processes.len()
        invariant
            pv == process_views(processes@),
            i <= pv.len(),
            forall|j: int| 0 <= j < i ==> pv[j].pid != pid,
            match first_with_pid(pv, pid) {
                Some(k) => 0 <= k < pv.len() && pv[k].pid == pid && forall|j: int|
                    0 <= j < k ==> pv[j].pid != pid,
                None => forall|j: int| 0 <= j < pv.len() ==> pv[j].pid != pid,
            },
        decreases pv.len() - i,
    {
        if processes[i].pid == pid {
            assert(pv[i as int].pid == pid);
            return Some(i);
        }
        i += 1;
    }
    None
}

fn holds_pid(chain: &Vec<i32>, pid: i32) -> (r: bool)
    ensures
        r == chain@.contains(pid),
{
    let mut i: usize = 0;
    while i < chain.len()
        invariant
            i <= chain@.len(),
            forall|j: int| 0 <= j < i ==> chain@[j] != pid,
        decreases chain@.len() - i,
    {
        if chain[i] == pid {
            assert(chain@[i as int] == pid);
            return true;
        }
        i += 1;
    }
    false
}

proof fn lemma_distinct_indices_bound(found: Seq<int>, n: int)
    requires
        n >= 0,
        found.no_duplicates(),
        forall|i: int| 0 <= i < found.len() ==> 0 <= #[trigger] found[i] < n,
    ensures
        found.len() <= n,
{
    found.unique_seq_to_set();
    vstd::set_lib::lemma_int_range(0, n);
    assert(found.to_set().subset_of(vstd::set_lib::set_int_range(0, n))) by {
        assert forall|x: int| found.to_set().contains(x) implies vstd::set_lib::set_int_range(0, n).contains(x) by {
            let i = choose|i: int| 0 <= i < found.len() && found[i] == x;
            assert(0 <= found[i] < n);
        }
    }
    vstd::set_lib::lemma_len_subset(found.to_set(), vstd::set_lib::set_int_range(0, n));
}

/// `pid` and every process above it in the parent chain, in that order — see
/// [`is_ancestry`]. Walked defensively: a table read while processes were
/// exiting can contain a cycle, and the walk stops at the first pid it has
/// already seen.
fn ancestor_chain(processes: &[Process], pid: i32) -> (r: Vec<i32>)
    ensures
        is_ancestry(process_views(processes@), pid, r@),
{
    let ghost pv = process_views(processes@);
    let n = processes.len();
    let mut chain: Vec<i32> = Vec::new();
    let mut current = pid;
    let ghost mut found: Seq<int> = Seq::empty();
    loop
        invariant_except_break
            chain@.len() == found.len(),
            found.len() <= n,
            chain@.len() == 0 ==> current == pid,
            chain@.len() > 0 ==> parent_step(pv, chain@.last()) == Some(current),
        invariant
            pv == process_views(processes@),
            n == pv.len(),
            chain@.len() > 0 ==> chain@[0] == pid,
            chain@.no_duplicates(),
            forall|i: int|
                0 <= i < chain@.len() - 1 ==> parent_step(pv, #[trigger] chain@[i]) == Some(
                    chain@[i + 1],
                ),
            found.len() <= chain@.len(),
            found.no_duplicates(),
            forall|i: int| 0 <= i < found.len() ==> 0 <= #[trigger] found[i] < n,
            forall|i: int|
                0 <= i < found.len() ==> first_with_pid(pv, chain@[i]) == Some(#[trigger] found[i]),
        ensures
            is_ancestry(pv, pid, chain@),
        decreases n + 1 - chain@.len(),
    {
        if holds_pid(&chain, current) {
            break;
        }
        let ghost before = chain@;
        chain.push(current);
        assert(chain@.no_duplicates()) by {
            assert forall|i: int, j: int| 0 <= i < j < chain@.len() implies chain@[i] != chain@[j] by {
                if j == chain@.len() - 1 {
                    assert(chain@[j] == current);
                    assert(chain@[i] == before[i]);
                } else {
                    assert(chain@[i] == before[i] && chain@[j] == before[j]);
                }
            }
        }
        assert forall|i: int|
            0 <= i < chain@.len() - 1 implies parent_step(pv, #[trigger] chain@[i]) == Some(
            chain@[i + 1],
        ) by {
            assert(chain@[i] == before[i]);
            if i < before.len() - 1 {
                assert(chain@[i + 1] == before[i + 1]);
            }
        }
        match find_pid(processes, current) {
            None => {
                break;
            },
            Some(idx) => {
                proof {
                    lemma_first_with_pid(pv, current);
                }
                let pp = processes[idx].ppid;
                assert(pv[idx as int].ppid == pp);
                if pp <= 0 {
                    break;
                }
                proof {
                    lemma_first_with_pid(pv, current);
                    let f2 = found.push(idx as int);
                    assert(f2.no_duplicates()) by {
                        assert forall|i: int, j: int| 0 <= i < j < f2.len() implies f2[i] != f2[j] by {
                            if j == f2.len() - 1 && f2[i] == f2[j] {
                                assert(first_with_pid(pv, chain@[i]) == Some(f2[i]));
                                lemma_first_with_pid(pv, chain@[i]);
                                assert(chain@[i] == pv[f2[i]].pid);
                                assert(chain@[j] == current);
                            } else if j < f2.len() - 1 {
                                assert(f2[i] == found[i] && f2[j] == found[j]);
                            }
                        }
                    }
                    found = f2;
                    lemma_distinct_indices_bound(found, n as int);
                }
                current = pp;
            },
        }
    }
    chain
}

/// Why a pid given on the command line will not be signalled.
#[derive(Debug, Clone, Copy, PartialEq, Eq, Structural)]
pub enum Refusal {
    /// `0` or negative. To `kill(2)` these are process *groups*, not
    /// processes: `scriv proc kill -- -1` would end the login session.
    NotAProcess,
    /// scriv itself, or something that spawned it.
    OwnAncestry,
}

impl Refusal {
    pub fn reason(self) -> (r: &'static str)
        ensures
            r@ == (match self {
                Refusal::NotAProcess => "not a process id — `0` means this process group and a negative number means a whole process group; use `kill` directly if that is what you meant"@,
                Refusal::OwnAncestry => "scriv itself or a process that spawned it"@,
            }),
    {
        match self {
            Refusal::NotAProcess => "not a process id — `0` means this process group and a negative number means a whole process group; use `kill` directly if that is what you meant",
            Refusal::OwnAncestry => "scriv itself or a process that spawned it",
        }
    }
}

/// Why `pid` may not be signalled, if it may not: not a process at all, or
/// one of `own`, the chain that runs up from scriv.
pub open spec fn refusal_of(own: Seq<i32>, pid: i32) -> Option<(i32, Refusal)> {
    if pid <= 0 {
        Some((pid, Refusal::NotAProcess))
    } else if own.contains(pid) {
        Some((pid, Refusal::OwnAncestry))
    } else {
        None
    }
}

/// `pid` and every process above it in the parent chain, as a set: the pids
/// of the chain [`is_ancestry`] describes.
pub fn ancestry(processes: &[Process], pid: i32) -> (r: HashSet<i32>)
    ensures
        exists|chain: Seq<i32>| is_ancestry(process_views(processes@), pid, chain) && r@ == chain.to_set(),
{
    broadcast use vstd::std_specs::hash::group_hash_axioms;
    let chain = ancestor_chain(processes, pid);
    let mut set: HashSet<i32> = HashSet::new();
    let mut i: usize = 0;
    while i < chain.len()
        invariant
            i <= chain@.len(),
            set@ == chain@.take(i as int).to_set(),
        decreases chain@.len() - i,
    {
        let ghost before = set@;
        let ghost prev = chain@.take(i as int);
        let ghost next = chain@.take(i + 1);
        set.insert(chain[i]);
        assert(set@ =~= next.to_set()) by {
            assert(next =~= prev.push(chain@[i as int]));
            assert forall|x: i32| set@.contains(x) implies next.to_set().contains(x) by {
                if x == chain@[i as int] {
                    assert(next[i as int] == x);
                } else {
                    assert(prev.to_set().contains(x));
                    let j = choose|j: int| 0 <= j < prev.len() && #[trigger] prev[j] == x;
                    assert(next[j] == x);
                }
            }
            assert forall|x: i32| next.to_set().contains(x) implies set@.contains(x) by {
                let j = choose|j: int| 0 <= j < next.len() && #[trigger] next[j] == x;
                if j < i {
                    assert(prev[j] == x);
                    assert(prev.to_set().contains(x));
                }
            }
        }
        i += 1;
    }
    assert(chain@.take(chain@.len() as int) =~= chain@);
    set
}

pub open spec fn refusal_fn(own: Seq<i32>) -> spec_fn(i32) -> Option<(i32, Refusal)> {
    |pid: i32| refusal_of(own, pid)
}

/// Check pids given as arguments against the rules the selector enforces by
/// never offering the row in the first place: each refused pid, in order,
/// with why.
pub fn refuse(processes: &[Process], self_pid: i32, pids: &[i32]) -> (r: Vec<(i32, Refusal)>)
    ensures
        exists|own: Seq<i32>|
            is_ancestry(process_views(processes@), self_pid, own) && r@ == pids@.filter_map(
                refusal_fn(own),
            ),
{
    let own = ancestor_chain(processes, self_pid);
    let mut out: Vec<(i32, Refusal)> = Vec::new();
    let mut i: usize = 0;
    while i < pids.len()
        invariant
            i <= pids@.len(),
            out@ == pids@.take(i as int).filter_map(refusal_fn(own@)),
        decreases pids@.len() - i,
    {
        proof {
            pids@.lemma_filter_map_take_succ(refusal_fn(own@), i as int);
        }
        let pid = pids[i];
        let ghost before = out@;
        if pid <= 0 {
            out.push((pid, Refusal::NotAProcess));
            assert(out@ =~= before + seq![(pid, Refusal::NotAProcess)]);
        } else if holds_pid(&own, pid) {
            out.push((pid, Refusal::OwnAncestry));
            assert(out@ =~= before + seq![(pid, Refusal::OwnAncestry)]);
        } else {
            assert(before + Seq::<(i32, Refusal)>::empty() =~= before);
        }
        i += 1;
    }
    assert(pids@.take(pids@.len() as int) =~= pids@);
    out
}

impl Process {
    /// A copy of this process, field for field.
    pub fn duplicate(&self) -> (r: Process)
        ensures
            r@ == self@,
    {
        Process {
            pid: self.pid,
            ppid: self.ppid,
            user: self.user.clone(),
            cpu: self.cpu.clone(),
            mem: self.mem.clone(),
            elapsed: self.elapsed.clone(),
            command: self.command.clone(),
        }
    }
}

pub open spec fn not_in_fn(own: Seq<i32>) -> spec_fn(ProcessView) -> Option<ProcessView> {
    |p: ProcessView| if own.contains(p.pid) { None } else { Some(p) }
}

/// The processes worth offering, in listing order: scriv's own process and
/// everything that spawned it dropped, since `-9` on any of that chain takes
/// the session with it. Putting the busiest first orders by CPU share, which
/// is floating point, and is left to the caller.
pub fn others(processes: &[Process], self_pid: i32) -> (r: Vec<Process>)
    ensures
        exists|own: Seq<i32>|
            is_ancestry(process_views(processes@), self_pid, own) && process_views(r@)
                == process_views(processes@).filter_map(not_in_fn(own)),
{
    let own = ancestor_chain(processes, self_pid);
    let ghost pv = process_views(processes@);
    let mut out: Vec<Process> = Vec::new();
    let mut i: usize = 0;
    while i < processes.len()
        invariant
            pv == process_views(processes@),
            i <= pv.len(),
            process_views(out@) == pv.take(i as int).filter_map(not_in_fn(own@)),
        decreases pv.len() - i,
    {
        proof {
            pv.lemma_filter_map_take_succ(not_in_fn(own@), i as int);
        }
        let ghost before = process_views(out@);
        let p = &processes[i];
        assert(pv[i as int] == p@);
        if !holds_pid(&own, p.pid) {
            let d = p.duplicate();
            out.push(d);
            assert(process_views(out@) =~= before + seq![p@]);
        } else {
            assert(before + Seq::<ProcessView>::empty() =~= before);
        }
        i += 1;
    }
    assert(pv.take(pv.len() as int) =~= pv);
    out
}

/// A signed number as `Display` writes it.
pub open spec fn int_text(n: int) -> Seq<char> {
    if n < 0 {
        seq!['-'] + crate::text::decimal((-n) as nat)
    } else {
        crate::text::decimal(n as nat)
    }
}

pub(crate) fn push_int(out: &mut String, n: i32)
    ensures
        final(out)@ == old(out)@ + int_text(n as int),
{
    let ghost start = out@;
    if n < 0 {
        crate::text::push_char(out, '-');
        let m: u64 = if n == i32::MIN {
            2147483648u64
        } else {
            (-n) as u64
        };
        push_decimal(out, m);
        assert(out@ =~= start + int_text(n as int));
    } else {
        push_decimal(out, n as u64);
    }
}

/// A plain listing row: the pid and the command, one space apart, so a pipe
/// through `cut -d' ' -f1` reaches the pid.
pub fn plain_row(p: &Process) -> (r: String)
    ensures
        r@ == int_text(p.pid as int) + seq![' '] + p.command@,
{
    let mut out = String::new();
    push_int(&mut out, p.pid);
    crate::text::push_char(&mut out, ' ');
    out.append(p.command.as_str());
    out
}

/// The widest user name among `procs`, 0 for none.
pub open spec fn widest_user(procs: Seq<Process>) -> nat
    decreases procs.len(),
{
    if procs.len() == 0 {
        0
    } else {
        let rest = widest_user(procs.drop_last());
        let w = procs.last().user@.len();
        if w > rest {
            w
        } else {
            rest
        }
    }
}

/// How wide the user column has to be for `procs` to line up: measured, and
/// capped at [`MAX_USER_WIDTH`]. Past the cap a name is printed in full and
/// pushes its own row out, rather than being cut into an ambiguous one.
pub fn user_width(procs: &[Process]) -> (r: usize)
    ensures
        r == (if widest_user(procs@) < MAX_USER_WIDTH {
            widest_user(procs@)
        } else {
            MAX_USER_WIDTH as nat
        }),
{
    let mut w: usize = 0;
    let mut i: usize = 0;
    while i < procs.len()
        invariant
            i <= procs@.len(),
            w == (if widest_user(procs@.take(i as int)) < MAX_USER_WIDTH {
                widest_user(procs@.take(i as int))
            } else {
                MAX_USER_WIDTH as nat
            }),
        decreases procs@.len() - i,
    {
        assert(procs@.take(i + 1).drop_last() =~= procs@.take(i as int));
        let n = procs[i].user.unicode_len();
        let c = if n < MAX_USER_WIDTH {
            n
        } else {
            MAX_USER_WIDTH
        };
        if c > w {
            w = c;
        }
        i += 1;
    }
    assert(procs@.take(procs@.len() as int) =~= procs@);
    w
}

// --- signals ----------------------------------------------------------------

/// The signals worth offering, by the names `kill -l` prints, with Darwin's
/// numbers: the first five are POSIX's, the rest Darwin's own.
pub const SIGNALS: [(&'static str, i32); 9] = [
    ("HUP", 1),
    ("INT", 2),
    ("QUIT", 3),
    ("KILL", 9),
    ("TERM", 15),
    ("USR1", 30),
    ("USR2", 31),
    ("STOP", 17),
    ("CONT", 19),
];

pub open spec fn signal_table() -> Seq<(Seq<char>, i32)> {
    seq![
        ("HUP"@, 1i32),
        ("INT"@, 2i32),
        ("QUIT"@, 3i32),
        ("KILL"@, 9i32),
        ("TERM"@, 15i32),
        ("USR1"@, 30i32),
        ("USR2"@, 31i32),
        ("STOP"@, 17i32),
        ("CONT"@, 19i32),
    ]
}

/// `str::to_uppercase`: Unicode's uppercase mapping of each character.
pub uninterp spec fn uppercase(s: Seq<char>) -> Seq<char>;

/// `str::to_uppercase`. The contract names the result; of an ASCII string it
/// says what the result is (each of a–z raised to A–Z, the rest unchanged),
/// and the Unicode case tables for the rest are not restated.
#[verifier::external_body]
pub(crate) fn to_upper(s: &str) -> (r: String)
    ensures
        r@ == uppercase(s@),
        (forall|i: int| 0 <= i < s@.len() ==> (#[trigger] s@[i] as u32) < 128) ==> r@
            == s@.map_values(|c: char| crate::text::upper(c)),
{
    s.to_uppercase()
}

/// A signal `scriv proc kill` can send, named as `kill` names it. A closed
/// set, so an unusable signal is rejected before the selector opens. `TERM`,
/// the default, asks the process to stop and lets it clean up; `KILL` cannot
/// be blocked, for when `TERM` has been ignored.
#[allow(non_camel_case_types)]
#[derive(Debug, Clone, Copy, PartialEq, Eq, Structural)]
pub enum Signal {
    HUP,
    INT,
    QUIT,
    KILL,
    TERM,
    USR1,
    USR2,
    STOP,
    CONT,
}

/// The name `kill` knows a signal by.
pub open spec fn signal_name(s: Signal) -> Seq<char> {
    match s {
        Signal::HUP => "HUP"@,
        Signal::INT => "INT"@,
        Signal::QUIT => "QUIT"@,
        Signal::KILL => "KILL"@,
        Signal::TERM => "TERM"@,
        Signal::USR1 => "USR1"@,
        Signal::USR2 => "USR2"@,
        Signal::STOP => "STOP"@,
        Signal::CONT => "CONT"@,
    }
}

fn signal_at(i: usize) -> (r: Signal)
    requires
        i < 9,
    ensures
        signal_name(r) == signal_table()[i as int].0,
{
    proof {
        reveal_strlit("HUP");
    }
    match i {
        0 => Signal::HUP,
        1 => Signal::INT,
        2 => Signal::QUIT,
        3 => Signal::KILL,
        4 => Signal::TERM,
        5 => Signal::USR1,
        6 => Signal::USR2,
        7 => Signal::STOP,
        _ => Signal::CONT,
    }
}

/// The name of the first entry of `t` whose number is `n`.
pub open spec fn by_number(t: Seq<(Seq<char>, i32)>, n: i32) -> Option<Seq<char>>
    decreases t.len(),
{
    if t.len() == 0 {
        None
    } else if t[0].1 == n {
        Some(t[0].0)
    } else {
        by_number(t.drop_first(), n)
    }
}

/// The name of the first entry of `t` named `name`.
pub open spec fn by_name(t: Seq<(Seq<char>, i32)>, name: Seq<char>) -> Option<Seq<char>>
    decreases t.len(),
{
    if t.len() == 0 {
        None
    } else if t[0].0 == name {
        Some(t[0].0)
    } else {
        by_name(t.drop_first(), name)
    }
}

/// The signal a command-line word names: trimmed and upper-cased, without a
/// `SIG` prefix, read as a number when it is one and as a name otherwise.
pub open spec fn signal_named(input: Seq<char>) -> Option<Seq<char>> {
    let upper = uppercase(trim(input));
    let name = match crate::text::strip_prefix(upper, "SIG"@) {
        Some(rest) => rest,
        None => upper,
    };
    match parse_i32_of(name) {
        Some(n) => by_number(signal_table(), n),
        None => by_name(signal_table(), name),
    }
}

/// What an unknown signal is answered with.
pub open spec fn unknown_signal(input: Seq<char>) -> Seq<char> {
    "unknown signal `"@ + input + "` — known signals are HUP, INT, QUIT, KILL, TERM, USR1, USR2, STOP, CONT"@
}

impl Signal {
    /// Parse a signal as written on the command line: `TERM`, `SIGTERM`,
    /// `term` and `15` are all the same signal — see [`signal_named`].
    pub fn parse(input: &str) -> (r: Result<Signal, String>)
        ensures
            match r {
                Ok(s) => signal_named(input@) == Some(signal_name(s)),
                Err(m) => signal_named(input@) is None && m@ == unknown_signal(input@),
            },
    {
        let t = crate::text::trim_str(input);
        let upper = to_upper(t);
        let u = chars_of(upper.as_str());
        let nu = u.len();
        assert(u@.subrange(0, nu as int) =~= u@);
        let start: usize = if crate::text::range_starts_with(&u, 0, nu, "SIG") {
            "SIG".unicode_len()
        } else {
            0
        };
        let ghost name = u@.subrange(start as int, nu as int);
        proof {
            reveal_strlit("SIG");
            if start == 0 {
                assert(name =~= upper@);
            }
        }
        let ghost tab = signal_table();
        assert forall|j: int| 0 <= j < 9 implies (#[trigger] SIGNALS@[j]).0@ == tab[j].0 && SIGNALS@[j].1
            == tab[j].1 by {
            if j == 0 {
            } else if j == 1 {
            } else if j == 2 {
            } else if j == 3 {
            } else if j == 4 {
            } else if j == 5 {
            } else if j == 6 {
            } else if j == 7 {
            } else {
            }
        }
        let number: Option<i32> = match crate::text::parse_i64(&u, start, nu) {
            Some(x) => if -2147483648 <= x && x <= 2147483647 {
                Some(x as i32)
            } else {
                None
            },
            None => None,
        };
        assert(number == parse_i32_of(name));
        assert(tab.skip(0) =~= tab);
        assert(crate::text::strip_prefix(upper@, "SIG"@) == if start > 0 {
            Some(name)
        } else {
            None
        });
        assert(signal_named(input@) == match parse_i32_of(name) {
            Some(n) => by_number(tab, n),
            None => by_name(tab, name),
        });
        match number {
            Some(n) => {
                let mut i: usize = 0;
                while i < 9
                    invariant
                        i <= 9,
                        tab == signal_table(),
                        forall|j: int| 0 <= j < 9 ==> (#[trigger] SIGNALS@[j]).0@ == tab[j].0 && SIGNALS@[j].1 == tab[j].1,
                        by_number(tab, n) == by_number(tab.skip(i as int), n),
                        signal_named(input@) == by_number(tab, n),
                    decreases 9 - i,
                {
                    assert(tab.skip(i as int)[0] == tab[i as int]);
                    assert(tab.skip(i as int).drop_first() =~= tab.skip(i + 1));
                    if SIGNALS[i].1 == n {
                        return Ok(signal_at(i));
                    }
                    i += 1;
                }
                assert(tab.skip(9).len() == 0);
            },
            None => {
                let mut i: usize = 0;
                while i < 9
                    invariant
                        i <= 9,
                        tab == signal_table(),
                        forall|j: int| 0 <= j < 9 ==> (#[trigger] SIGNALS@[j]).0@ == tab[j].0 && SIGNALS@[j].1 == tab[j].1,
                        name == u@.subrange(start as int, nu as int),
                        start <= nu == u@.len(),
                        by_name(tab, name) == by_name(tab.skip(i as int), name),
                        signal_named(input@) == by_name(tab, name),
                    decreases 9 - i,
                {
                    assert(tab.skip(i as int)[0] == tab[i as int]);
                    assert(tab.skip(i as int).drop_first() =~= tab.skip(i + 1));
                    if crate::text::range_is(&u, start, nu, SIGNALS[i].0) {
                        return Ok(signal_at(i));
                    }
                    i += 1;
                }
                assert(tab.skip(9).len() == 0);
            },
        }
        let mut m = String::from_str("unknown signal `");
        m.append(input);
        m.append("` — known signals are HUP, INT, QUIT, KILL, TERM, USR1, USR2, STOP, CONT");
        Err(m)
    }

    /// The name to hand `kill`, and to print in the report afterwards.
    pub fn name(self) -> (r: &'static str)
        ensures
            r@ == signal_name(self),
    {
        match self {
            Signal::HUP => "HUP",
            Signal::INT => "INT",
            Signal::QUIT => "QUIT",
            Signal::KILL => "KILL",
            Signal::TERM => "TERM",
            Signal::USR1 => "USR1",
            Signal::USR2 => "USR2",
            Signal::STOP => "STOP",
            Signal::CONT => "CONT",
        }
    }
}

} // verus!
