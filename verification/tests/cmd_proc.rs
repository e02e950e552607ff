use scriv::cmd::proc::{kill_prompt, refusal_line, sent_line};
use scriv::proc::{parse, Refusal, Signal};

const SAMPLE: &str = "\
joakim            501     1   12.3  1.5    03:12:44 /usr/local/bin/node server.js --port 3000
root              1       0    0.0  0.1 12-04:11:02 /sbin/launchd
";

#[test]
fn a_sent_signal_names_the_process_where_it_was_listed() {
    let procs = parse(SAMPLE);
    assert_eq!(sent_line(Signal::TERM, 501, &procs), "sent TERM to 501 node");
    assert_eq!(sent_line(Signal::KILL, 9999, &procs), "sent KILL to 9999");
}

#[test]
fn a_refused_pid_is_reported_with_why() {
    assert_eq!(
        refusal_line(1, Refusal::OwnAncestry),
        "refusing to signal 1: scriv itself or a process that spawned it"
    );
    assert!(refusal_line(-1, Refusal::NotAProcess).starts_with("refusing to signal -1: not a process id"));
}

#[test]
fn the_prompt_names_the_signal() {
    assert_eq!(kill_prompt(Signal::KILL), "Send KILL to");
}
