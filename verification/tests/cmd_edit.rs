use scriv::cmd::edit::{launch_command, no_tracked_files, tracked_items};

fn strings(v: &[&str]) -> Vec<String> {
    v.iter().map(|s| s.to_string()).collect()
}

#[test]
fn the_editor_gets_its_own_arguments_then_the_files_after_a_separator() {
    let (program, args) = launch_command(&strings(&["code", "-w"]), &strings(&["-c", "b.rs"]));
    assert_eq!(program, "code");
    assert_eq!(args, strings(&["-w", "--", "-c", "b.rs"]));
    let (program, args) = launch_command(&strings(&["hx"]), &vec![]);
    assert_eq!(program, "hx");
    assert_eq!(args, strings(&["--"]));
}

#[test]
fn a_tracked_file_is_shown_from_home_and_opened_absolute() {
    let rows = tracked_items(&strings(&["~/notes/a.md", "/etc/hosts"]), "/home/u");
    assert_eq!(rows[0].label, "~/notes/a.md");
    assert_eq!(rows[0].value, "/home/u/notes/a.md");
    assert_eq!(rows[1].label, "/etc/hosts");
    assert_eq!(rows[1].value, "/etc/hosts");
    assert_eq!(no_tracked_files(), "no known files yet — add one with `scriv file add <path>`");
}
