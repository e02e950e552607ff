use scriv::path::{
    clean, display_path, expand_home_dir, expand_tilde, file_name_of, join_path_str, label_below,
    relative_label,
    sanitize_file_path,
};

const HOME: &str = "/Users/kevin";
const PWD: &str = "/Users/kevin/fake/dir";

#[test]
fn expands_tilde_prefix() {
    let home = "/home/user";
    assert_eq!(expand_home_dir("~/foo/bar", home), "/home/user/foo/bar");
}

#[test]
fn expands_bare_tilde_slash_to_home() {
    let home = "/home/user";
    assert_eq!(expand_home_dir("~/", home), home);
}

#[test]
fn expands_bare_tilde_to_home() {
    let home = "/home/user";
    assert_eq!(expand_home_dir("~", home), home);
}

#[test]
fn leaves_non_tilde_paths_unchanged() {
    let home = "/home/user";
    for input in ["/etc/hosts", "foo/bar", "/opt/~/foo", ""] {
        assert_eq!(expand_home_dir(input, home), input);
    }
}

#[test]
fn expand_tilde_expands_to_absolute() {
    assert_eq!(
        expand_tilde("~/mydir/file.txt", HOME),
        "/Users/kevin/mydir/file.txt"
    );
}

#[test]
fn expand_tilde_leaves_absolute_alone() {
    assert_eq!(expand_tilde("/etc/passwd", HOME), "/etc/passwd");
}

#[test]
fn expand_tilde_bare_expands_to_home() {
    assert_eq!(expand_tilde("~", HOME), HOME);
}

#[test]
fn expand_tilde_only_rewrites_a_leading_tilde() {
    assert_eq!(expand_tilde("/etc/~/passwd", HOME), "/etc/~/passwd");
}

#[test]
fn formats_home_relative_by_default() {
    assert_eq!(
        display_path("/home/user/dev/repo", "/home/user", false),
        "~/dev/repo"
    );
}

#[test]
fn formats_absolute_when_requested() {
    assert_eq!(
        display_path("/home/user/dev/repo", "/home/user", true),
        "/home/user/dev/repo"
    );
}

#[test]
fn leaves_paths_outside_home_unchanged() {
    assert_eq!(
        display_path("/opt/tools/repo", "/home/user", false),
        "/opt/tools/repo"
    );
}

#[test]
fn relative_label_strips_the_root() {
    assert_eq!(
        relative_label(
            "/Users/kevin/dev/github.com/kkc/scriv",
            "/Users/kevin/dev/github.com"
        ),
        "kkc/scriv"
    );
}

#[test]
fn relative_label_falls_back_to_basename_when_repo_is_the_root() {
    assert_eq!(relative_label("/Users/kevin/bin", "/Users/kevin/bin"), "bin");
}

#[test]
fn collapses_only_at_a_path_boundary() {
    assert_eq!(display_path("/home/user", "/home/user", false), "~");
    assert_eq!(
        display_path("/home/username/x", "/home/user", false),
        "/home/username/x"
    );
}

#[test]
fn sanitize_leaves_abspath_outside_home_alone() {
    assert_eq!(sanitize_file_path("/etc/passwd", HOME, PWD), "/etc/passwd");
}

#[test]
fn sanitize_cleans_abspath() {
    assert_eq!(
        sanitize_file_path("/relative/path/../path/file.txt", HOME, PWD),
        "/relative/path/file.txt"
    );
}

#[test]
fn sanitize_shrinks_home_path_with_tilde() {
    assert_eq!(
        sanitize_file_path("/Users/kevin/file.txt", HOME, PWD),
        "~/file.txt"
    );
}

#[test]
fn sanitize_leaves_tilde_alone() {
    assert_eq!(
        sanitize_file_path("~/mydir/file.txt", HOME, PWD),
        "~/mydir/file.txt"
    );
}

#[test]
fn sanitize_joins_relative_to_pwd() {
    assert_eq!(
        sanitize_file_path("file.txt", HOME, PWD),
        "~/fake/dir/file.txt"
    );
}

#[test]
fn sanitize_relative_with_parent_segments() {
    assert_eq!(
        sanitize_file_path("../file.txt", HOME, PWD),
        "~/fake/file.txt"
    );
}

#[test]
fn clean_collapses_redundant_separators() {
    assert_eq!(clean("/a//b/./c"), "/a/b/c");
}

#[test]
fn clean_empty_is_dot() {
    assert_eq!(clean(""), ".");
}

#[test]
fn clean_keeps_a_leading_parent_of_a_relative_path() {
    assert_eq!(clean("../../a/./b/.."), "../../a");
    assert_eq!(clean("/../a"), "/a");
    assert_eq!(clean("a/.."), ".");
    assert_eq!(clean("/"), "/");
}

#[test]
fn a_relative_label_outside_the_root_is_the_last_component() {
    assert_eq!(relative_label("/opt/tools/repo", "/Users/kevin"), "repo");
    assert_eq!(relative_label("/Users/kevinx/repo", "/Users/kevin"), "repo");
}

#[test]
fn a_displayed_path_expands_back_to_itself() {
    for path in ["/home/u", "/home/u/dev/x", "/home/user2/x", "/etc/hosts", "rel/path", ""] {
        let shown = display_path(path, "/home/u", false);
        assert_eq!(expand_tilde(&shown, "/home/u"), path, "{shown}");
    }
}

#[test]
fn joining_onto_an_empty_base_keeps_the_rest() {
    assert_eq!(join_path_str("", "owner/repo"), "owner/repo");
    assert_eq!(join_path_str("", "/abs"), "/abs");
    assert_eq!(join_path_str("/base", ""), "/base");
    assert_eq!(join_path_str("/base", "x"), "/base/x");
    assert_eq!(join_path_str("/base/", "x"), "/base/x");
}

#[test]
fn a_relative_label_compares_the_root_by_component() {
    assert_eq!(relative_label("/a//x", "/a"), "x");
    assert_eq!(relative_label("/a/./x", "/a"), "x");
    assert_eq!(relative_label("/a/x/", "/a/"), "x");
    assert_eq!(relative_label("/ab/x", "/a"), "x");
}

#[test]
fn a_label_is_the_rest_or_else_the_last_component() {
    assert_eq!(label_below("/r/kkc/scriv", Some("kkc/scriv".to_string())), "kkc/scriv");
    assert_eq!(label_below("/r/bin", Some(String::new())), "bin");
    assert_eq!(label_below("/r/bin", None), "bin");
    assert_eq!(label_below("/", None), "/");
}

#[test]
fn the_last_component_skips_a_trailing_dot() {
    assert_eq!(file_name_of("foo.txt/."), Some("foo.txt".to_string()));
    assert_eq!(file_name_of("foo.txt/.//"), Some("foo.txt".to_string()));
    assert_eq!(file_name_of("foo.txt/.."), None);
    assert_eq!(file_name_of("."), None);
    assert_eq!(file_name_of("/"), None);
}
