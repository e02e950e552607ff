use std::collections::HashSet;

use scriv::proc::{
    ancestry, others, parse, plain_row, refuse, user_width, Process, Refusal, Signal,
    MAX_USER_WIDTH, SIGNALS,
};

const SAMPLE: &str = "\
joakim            501     1   12.3  1.5    03:12:44 /usr/local/bin/node server.js --port 3000
root              1       0    0.0  0.1 12-04:11:02 /sbin/launchd
joakim          70123 70100    0.0  0.4       01:20 -fish
";

fn sample() -> Vec<Process> {
    parse(SAMPLE)
}

#[test]
fn parse_reads_every_column_and_keeps_the_command_whole() {
    let procs = sample();
    assert_eq!(procs.len(), 3);
    assert_eq!(
        procs[0],
        Process {
            pid: 501,
            ppid: 1,
            user: "joakim".into(),
            cpu: "12.3".into(),
            mem: "1.5".into(),
            elapsed: "03:12:44".into(),
            command: "/usr/local/bin/node server.js --port 3000".into(),
        }
    );
}

#[test]
fn a_command_keeps_its_arguments() {
    assert_eq!(
        sample()[0].command,
        "/usr/local/bin/node server.js --port 3000"
    );
}

#[test]
fn unreadable_lines_are_skipped_rather_than_failing() {
    let text = format!("{SAMPLE}garbage\n  \n99999 1\n");
    assert_eq!(parse(&text).len(), 3);
}

#[test]
fn name_is_the_last_component_of_argv0() {
    let procs = sample();
    assert_eq!(procs[0].name(), "node");
    assert_eq!(procs[1].name(), "launchd");
    assert_eq!(procs[2].name(), "-fish");
}

#[test]
fn a_command_line_cannot_carry_an_escape_out_of_ps() {
    let procs = parse("joakim 501 1 0.0 0.1 01:00 /bin/evil \x1b[2K\x1b[1;32mhidden\n");
    assert_eq!(procs.len(), 1);
    assert!(!procs[0].command.contains('\x1b'), "{:?}", procs[0].command);
    assert_eq!(procs[0].command, "/bin/evil [2K[1;32mhidden");
}

#[test]
fn ancestry_walks_from_a_pid_to_the_top() {
    let procs = sample();
    let chain = ancestry(&procs, 70123);
    assert!(chain.contains(&70123), "the process itself");
    assert!(
        chain.contains(&70100),
        "its parent, even though ps did not list it"
    );
}

#[test]
fn a_pid_that_is_really_a_process_group_is_refused() {
    let procs = sample();
    for pid in [0, -1, -70123] {
        let refused = refuse(&procs, 501, &[pid]);
        assert_eq!(
            refused,
            vec![(pid, Refusal::NotAProcess)],
            "{pid} reached kill"
        );
    }
}

#[test]
fn an_ancestor_named_as_an_argument_is_refused_too() {
    let procs = sample();
    assert_eq!(
        refuse(&procs, 70123, &[70123]),
        vec![(70123, Refusal::OwnAncestry)]
    );
    assert_eq!(
        refuse(&procs, 70123, &[70100]),
        vec![(70100, Refusal::OwnAncestry)]
    );
}

#[test]
fn an_unrelated_pid_passes() {
    assert!(refuse(&sample(), 70123, &[501, 1]).is_empty());
}

fn process(pid: i32, ppid: i32, command: &str) -> Process {
    Process {
        pid,
        ppid,
        user: "root".into(),
        cpu: "0.0".into(),
        mem: "0.0".into(),
        elapsed: "01:00".into(),
        command: command.into(),
    }
}

#[test]
fn ancestry_terminates_on_a_cycle() {
    let procs = vec![process(1, 2, "a"), process(2, 1, "b")];
    assert_eq!(ancestry(&procs, 1), HashSet::from([1, 2]));
}

#[test]
fn ancestry_stops_at_the_kernel() {
    let procs = vec![process(5, 3, "a"), process(3, 0, "b")];
    assert_eq!(ancestry(&procs, 5), HashSet::from([5, 3]));
}

#[test]
fn scriv_and_its_ancestors_are_not_offered() {
    let procs = sample();
    let pids: Vec<i32> = others(&procs, 70123).iter().map(|p| p.pid).collect();
    assert!(!pids.contains(&70123), "offered its own process");
    assert!(!pids.contains(&70100), "offered the shell that invoked it");
    assert!(pids.contains(&501), "dropped an unrelated process");
}

#[test]
fn a_plain_row_leads_with_the_pid() {
    assert_eq!(
        plain_row(&sample()[0]),
        "501 /usr/local/bin/node server.js --port 3000"
    );
}

#[test]
fn the_user_column_is_as_wide_as_the_longest_name() {
    let mut procs = sample();
    assert_eq!(user_width(&procs), "joakim".len());
    procs[1].user = "_windowserver".into();
    assert_eq!(user_width(&procs), "_windowserver".len());
}

#[test]
fn one_very_long_name_does_not_widen_every_row() {
    let mut procs = sample();
    procs[1].user = "_installcoordinationd".into();
    assert_eq!(user_width(&procs), MAX_USER_WIDTH);
}

#[test]
fn a_signal_is_read_by_name_or_number_in_any_case() {
    for input in ["KILL", "kill", "SIGKILL", "sigkill", "9", " 9 "] {
        assert_eq!(Signal::parse(input).unwrap(), Signal::KILL, "{input}");
    }
}

#[test]
fn an_unusable_signal_is_refused_up_front() {
    for input in ["NOPE", "0", "64", ""] {
        let err = Signal::parse(input).unwrap_err().to_string();
        assert!(err.contains("known signals are"), "{input}: {err}");
    }
}

#[test]
fn the_signal_numbers_are_darwins() {
    let number = |name: &str| SIGNALS.iter().find(|(n, _)| *n == name).unwrap().1;
    assert_eq!(
        (
            number("USR1"),
            number("USR2"),
            number("STOP"),
            number("CONT"),
        ),
        (30, 31, 17, 19),
    );
}

#[test]
fn the_portable_signals_are_numbered_as_posix_says() {
    for (name, number) in [
        ("HUP", 1),
        ("INT", 2),
        ("QUIT", 3),
        ("KILL", 9),
        ("TERM", 15),
    ] {
        assert_eq!(Signal::parse(&number.to_string()).unwrap().name(), name);
    }
}

#[test]
fn the_default_signal_can_be_caught() {
    assert_eq!(Signal::TERM.name(), "TERM");
    assert_ne!(Signal::TERM, Signal::KILL);
}

#[test]
fn an_unknown_signal_names_what_was_asked_for() {
    assert_eq!(
        Signal::parse("WINCH").unwrap_err(),
        "unknown signal `WINCH` — known signals are HUP, INT, QUIT, KILL, TERM, USR1, USR2, STOP, CONT"
    );
}
