use scriv::cmd::project::merge;

#[test]
fn merging_puts_stdout_before_stderr() {
    assert_eq!(merge(b"out\n", b"err\n"), "out\nerr");
}

#[test]
fn merging_drops_the_streams_that_said_nothing() {
    assert_eq!(merge(b"", b"err\n"), "err");
    assert_eq!(merge(b"out\n", b""), "out");
    assert_eq!(merge(b"", b""), "");
}

#[test]
fn merging_keeps_invalid_utf8_readable() {
    assert_eq!(merge(&[0xff, b'a'], b""), "\u{fffd}a");
}

#[test]
fn only_trailing_whitespace_is_dropped() {
    assert_eq!(merge(b"  a b \n\n", b" \t\n"), "  a b");
}
