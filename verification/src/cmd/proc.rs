//! `scriv proc kill`'s report: what each signal did, and why a pid named on
//! the command line is refused.

use vstd::prelude::*;

use crate::proc::{first_word, int_text, last_component, push_int, signal_name, Process, Refusal, Signal};

verus! {

/// The name of the first process with `pid`, if one is listed.
pub open spec fn name_for(procs: Seq<Process>, pid: i32) -> Option<Seq<char>>
    decreases procs.len(),
{
    if procs.len() == 0 {
        None
    } else if procs[0].pid == pid {
        Some(last_component(first_word(procs[0].command@)))
    } else {
        name_for(procs.drop_first(), pid)
    }
}

/// What is said once `signal` was sent to `pid`: the process's name where it
/// was listed, so a row that has since exited is still reported by its pid.
pub open spec fn sent_line_of(signal: Signal, pid: i32, name: Option<Seq<char>>) -> Seq<char> {
    "sent "@ + signal_name(signal) + " to "@ + int_text(pid as int) + match name {
        Some(n) => " "@ + n,
        None => Seq::empty(),
    }
}

/// See [`sent_line_of`]; the name is looked up among `procs`.
pub fn sent_line(signal: Signal, pid: i32, procs: &[Process]) -> (r: String)
    ensures
        r@ == sent_line_of(signal, pid, name_for(procs@, pid)),
{
    let mut line = String::from_str("sent ");
    line.append(signal.name());
    line.append(" to ");
    push_int(&mut line, pid);
    let mut i: usize = 0;
    assert(procs@.skip(0) =~= procs@);
    while i < procs.len()
        invariant
            i <= procs@.len(),
            name_for(procs@, pid) == name_for(procs@.skip(i as int), pid),
            line@ == "sent "@ + signal_name(signal) + " to "@ + int_text(pid as int),
        decreases procs@.len() - i,
    {
        assert(procs@.skip(i as int)[0] == procs@[i as int]);
        if procs[i].pid == pid {
            line.append(" ");
            line.append(procs[i].name());
            return line;
        }
        assert(procs@.skip(i as int).drop_first() =~= procs@.skip(i + 1));
        i += 1;
    }
    line
}

/// Why a run naming `pid` is refused outright.
pub fn refusal_line(pid: i32, refusal: Refusal) -> (r: String)
    ensures
        r@ == "refusing to signal "@ + int_text(pid as int) + ": "@ + (match refusal {
            Refusal::NotAProcess => "not a process id — `0` means this process group and a negative number means a whole process group; use `kill` directly if that is what you meant"@,
            Refusal::OwnAncestry => "scriv itself or a process that spawned it"@,
        }),
{
    let mut line = String::from_str("refusing to signal ");
    push_int(&mut line, pid);
    line.append(": ");
    line.append(refusal.reason());
    line
}

/// The selector's prompt, which names the signal: `--force` is not visible
/// once the selector has the screen.
pub fn kill_prompt(signal: Signal) -> (r: String)
    ensures
        r@ == "Send "@ + signal_name(signal) + " to"@,
{
    let mut p = String::from_str("Send ");
    p.append(signal.name());
    p.append(" to");
    p
}

} // verus!
