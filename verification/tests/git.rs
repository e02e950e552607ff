use scriv::git::{check_ignore_args, common_dir_args, current_branch_args, merged_args, ref_list_args, root_args, worktree_list_args};
use scriv::git::{current_branch, exclude_with, failure, repo_root, require_repo_root};
use scriv::git::{
    by_relevance, classify, default_branch, filtered, mark_current, parse_ref_lines,
    parse_worktrees, resolve, tree_source, unprefixed, Branch, BranchKind, Checkout, Filter,
    RefLine, TreeSource, SEP,
};

fn line(refname: &str, head: bool, upstream: &str) -> RefLine {
    RefLine {
        refname: refname.to_string(),
        head,
        symref: String::new(),
        upstream: upstream.to_string(),
        date: "2 days ago".to_string(),
        subject: "some commit".to_string(),
    }
}

fn render(rows: &[(&str, &str, &str, &str, &str, &str)]) -> String {
    rows.iter()
        .map(|(r, h, y, u, d, s)| format!("{r}{SEP}{h}{SEP}{y}{SEP}{u}{SEP}{d}{SEP}{s}"))
        .collect::<Vec<_>>()
        .join("\n")
}

fn names(branches: &[Branch]) -> Vec<&str> {
    branches.iter().map(|b| b.name.as_str()).collect()
}

#[test]
fn parses_ref_rows() {
    let out = render(&[
        ("refs/heads/main", "*", "", "origin/main", "2 hours ago", "init"),
        ("refs/remotes/origin/HEAD", " ", "origin/main", "", "2 hours ago", "init"),
        ("refs/remotes/origin/main", " ", "", "", "2 hours ago", "init"),
    ]);
    let got = parse_ref_lines(&out);
    assert_eq!(got.len(), 3);
    assert_eq!(got[0].refname, "refs/heads/main");
    assert!(got[0].head);
    assert_eq!(got[0].symref, "");
    assert_eq!(got[0].upstream, "origin/main");
    assert_eq!(got[0].date, "2 hours ago");
    assert_eq!(got[1].symref, "origin/main");
    assert_eq!(got[2].refname, "refs/remotes/origin/main");
    assert!(!got[2].head);
}

#[test]
fn subject_keeps_trailing_separators() {
    let out = format!("refs/heads/main{SEP} {SEP}{SEP}{SEP}now{SEP}fix: a{SEP}b");
    let got = parse_ref_lines(&out);
    assert_eq!(got[0].subject, format!("fix: a{SEP}b"));
}

#[test]
fn skips_malformed_rows() {
    let out = format!("refs/heads/main{SEP}*\n\nrefs/heads/ok{SEP} {SEP}{SEP}{SEP}now{SEP}s");
    let got = parse_ref_lines(&out);
    assert_eq!(got.len(), 1);
    assert_eq!(got[0].refname, "refs/heads/ok");
}

#[test]
fn local_with_remote_counterpart_is_tracked() {
    let got = classify(&[
        line("refs/heads/main", true, "origin/main"),
        line("refs/remotes/origin/main", false, ""),
    ]);
    assert_eq!(got.len(), 1, "the remote ref must not add a second row");
    assert_eq!(got[0].kind, BranchKind::Both);
    assert!(got[0].head);
}

#[test]
fn local_without_remote_is_local_only() {
    let got = classify(&[line("refs/heads/scratch", false, "")]);
    assert_eq!(got[0].kind, BranchKind::Local);
}

#[test]
fn stale_upstream_is_local_only() {
    let got = classify(&[line("refs/heads/gone", false, "origin/gone")]);
    assert_eq!(got[0].kind, BranchKind::Local);
}

#[test]
fn upstream_under_another_name_still_counts() {
    let got = classify(&[
        line("refs/heads/local-name", false, "origin/remote-name"),
        line("refs/remotes/origin/remote-name", false, ""),
    ]);
    assert_eq!(got.len(), 1);
    assert_eq!(got[0].kind, BranchKind::Both);
}

#[test]
fn remote_only_keeps_its_remote_prefix() {
    let got = classify(&[line("refs/remotes/origin/feat/x", false, "")]);
    assert_eq!(got[0].kind, BranchKind::Remote);
    assert_eq!(got[0].name, "origin/feat/x");
    assert_eq!(
        resolve(&got, "origin/feat/x"),
        Checkout::Track {
            remote_ref: "origin/feat/x".to_string()
        }
    );
}

#[test]
fn drops_remote_head_pointer() {
    let got = classify(&[
        line("refs/remotes/origin/HEAD", false, ""),
        line("refs/remotes/origin/main", false, ""),
    ]);
    assert_eq!(got.len(), 1);
    assert_eq!(got[0].name, "origin/main");
}

#[test]
fn same_branch_on_two_remotes_lists_both() {
    let got = classify(&[
        line("refs/remotes/origin/shared", false, ""),
        line("refs/remotes/fork/shared", false, ""),
    ]);
    assert_eq!(names(&got), vec!["origin/shared", "fork/shared"]);
}

#[test]
fn preserves_input_order() {
    let got = classify(&[
        line("refs/heads/b", false, ""),
        line("refs/heads/a", false, ""),
    ]);
    assert_eq!(names(&got), vec!["b", "a"]);
}

#[test]
fn relevance_groups_current_then_local_then_remote() {
    let got = by_relevance(
        classify(&[
            line("refs/remotes/origin/hot", false, ""),
            line("refs/heads/scratch", false, ""),
            line("refs/heads/main", true, "origin/main"),
            line("refs/remotes/origin/main", false, ""),
        ]),
        None,
    );
    assert_eq!(names(&got), vec!["main", "scratch", "origin/hot"]);
}

#[test]
fn relevance_keeps_commit_order_inside_each_group() {
    let got = by_relevance(
        classify(&[
            line("refs/heads/newest", false, ""),
            line("refs/remotes/origin/newest-remote", false, ""),
            line("refs/heads/older", false, ""),
            line("refs/remotes/origin/oldest-remote", false, ""),
        ]),
        None,
    );
    assert_eq!(
        names(&got),
        vec!["newest", "older", "origin/newest-remote", "origin/oldest-remote"]
    );
}

#[test]
fn relevance_handles_no_current_branch() {
    let got = by_relevance(
        classify(&[
            line("refs/remotes/origin/feature", false, ""),
            line("refs/heads/scratch", false, ""),
        ]),
        None,
    );
    assert_eq!(names(&got), vec!["scratch", "origin/feature"]);
}

#[test]
fn relevance_leads_with_the_default_branch_when_it_is_not_checked_out() {
    let got = by_relevance(
        classify(&[
            line("refs/heads/feat/api", true, "origin/feat/api"),
            line("refs/remotes/origin/feat/api", false, ""),
            line("refs/heads/scratch", false, ""),
            line("refs/heads/main", false, "origin/main"),
            line("refs/remotes/origin/main", false, ""),
            line("refs/remotes/origin/hot", false, ""),
        ]),
        Some("main"),
    );
    assert_eq!(names(&got), vec!["main", "feat/api", "scratch", "origin/hot"]);
}

#[test]
fn relevance_leaves_the_order_alone_on_the_default_branch() {
    let got = by_relevance(
        classify(&[
            line("refs/heads/main", true, "origin/main"),
            line("refs/remotes/origin/main", false, ""),
            line("refs/heads/scratch", false, ""),
        ]),
        Some("main"),
    );
    assert_eq!(names(&got), vec!["main", "scratch"]);
}

#[test]
fn relevance_leads_with_a_default_branch_that_is_only_on_the_remote() {
    let got = by_relevance(
        classify(&[
            line("refs/heads/feat/api", true, ""),
            line("refs/remotes/origin/main", false, ""),
        ]),
        Some("main"),
    );
    assert_eq!(names(&got), vec!["origin/main", "feat/api"]);
}

#[test]
fn relevance_matches_the_whole_name_of_a_local_branch() {
    let got = by_relevance(
        classify(&[
            line("refs/heads/feature/main", false, ""),
            line("refs/heads/main", false, ""),
        ]),
        Some("main"),
    );
    assert_eq!(names(&got), vec!["main", "feature/main"]);
}

#[test]
fn the_default_branch_comes_from_the_remote_head_ref() {
    let mut head = line("refs/remotes/origin/HEAD", false, "");
    head.symref = "origin/trunk".to_string();
    let lines = vec![
        head,
        line("refs/heads/main", false, ""),
        line("refs/remotes/origin/trunk", false, ""),
    ];
    assert_eq!(default_branch(&lines).as_deref(), Some("trunk"));
}

#[test]
fn the_default_branch_falls_back_to_the_name() {
    let lines = vec![
        line("refs/heads/feat/api", true, ""),
        line("refs/heads/master", false, ""),
    ];
    assert_eq!(default_branch(&lines).as_deref(), Some("master"));

    let lines = vec![
        line("refs/heads/feat/api", true, ""),
        line("refs/remotes/origin/main", false, ""),
        line("refs/heads/master", false, ""),
    ];
    assert_eq!(
        default_branch(&lines).as_deref(),
        Some("main"),
        "master won over main"
    );
}

#[test]
fn a_repository_with_no_recognisable_default_branch_has_none() {
    let lines = vec![
        line("refs/heads/feat/api", true, ""),
        line("refs/heads/scratch", false, ""),
    ];
    assert_eq!(default_branch(&lines), None);
}

fn sample() -> Vec<Branch> {
    classify(&[
        line("refs/heads/main", true, "origin/main"),
        line("refs/remotes/origin/main", false, ""),
        line("refs/heads/scratch", false, ""),
        line("refs/remotes/origin/feature", false, ""),
    ])
}

#[test]
fn filters_by_side() {
    let names = |f| {
        filtered(sample(), f)
            .into_iter()
            .map(|b| b.name)
            .collect::<Vec<_>>()
    };
    assert_eq!(names(Filter::All), ["main", "scratch", "origin/feature"]);
    assert_eq!(names(Filter::Local), ["main", "scratch"]);
    assert_eq!(names(Filter::Remote), ["main", "origin/feature"]);
}

#[test]
fn filter_flags_default_to_all() {
    assert_eq!(Filter::from_flags(false, false), Filter::All);
    assert_eq!(Filter::from_flags(true, false), Filter::Local);
    assert_eq!(Filter::from_flags(false, true), Filter::Remote);
}

#[test]
fn local_branch_is_switched_to() {
    assert_eq!(
        resolve(&sample(), "main"),
        Checkout::Switch("main".to_string())
    );
}

#[test]
fn remote_only_branch_creates_a_tracking_branch() {
    assert_eq!(
        resolve(&sample(), "origin/feature"),
        Checkout::Track {
            remote_ref: "origin/feature".to_string()
        }
    );
}

#[test]
fn remote_form_of_a_local_branch_switches_locally() {
    assert_eq!(
        resolve(&sample(), "origin/main"),
        Checkout::Switch("main".to_string())
    );
}

#[test]
fn unknown_name_is_left_to_git() {
    assert_eq!(
        resolve(&sample(), "nope"),
        Checkout::Switch("nope".to_string())
    );
}

#[test]
fn gits_own_error_opener_is_not_repeated_inside_the_callers() {
    assert_eq!(
        unprefixed("error: cannot delete branch 'x' used by worktree at '/y'"),
        "cannot delete branch 'x' used by worktree at '/y'"
    );
    assert_eq!(unprefixed("fatal: not a valid ref"), "not a valid ref");
    assert_eq!(unprefixed("  plain trouble  "), "plain trouble");
}

#[test]
fn an_unknown_name_is_a_branch_to_create() {
    assert_eq!(
        tree_source(&sample(), "feat/new"),
        TreeSource::New("feat/new".to_string())
    );
}

#[test]
fn an_existing_branch_is_checked_out_rather_than_recreated() {
    assert_eq!(
        tree_source(&sample(), "scratch"),
        TreeSource::Branch("scratch".to_string())
    );
}

#[test]
fn a_remote_only_branch_arrives_tracking_it() {
    assert_eq!(
        tree_source(&sample(), "origin/feature"),
        TreeSource::Track {
            remote_ref: "origin/feature".to_string(),
            branch: "feature".to_string(),
        }
    );
    assert_eq!(tree_source(&sample(), "origin/feature").branch(), "feature");
}

#[test]
fn a_bare_name_only_a_remote_has_still_tracks_it() {
    assert_eq!(
        tree_source(&sample(), "feature"),
        TreeSource::Track {
            remote_ref: "origin/feature".to_string(),
            branch: "feature".to_string(),
        }
    );
}

#[test]
fn a_name_two_remotes_share_is_left_as_a_branch_to_create() {
    let mut branches = sample();
    branches.push(Branch {
        name: "fork/feature".to_string(),
        kind: BranchKind::Remote,
        head: false,
        date: "1 day ago".to_string(),
        subject: "theirs".to_string(),
    });
    assert_eq!(
        tree_source(&branches, "feature"),
        TreeSource::New("feature".to_string())
    );
}

const WORKTREE_LIST: &str = "\
worktree /home/u/dev/scriv
HEAD 950547ef3af47b2e60406bd23e530bdb1e226c6e
branch refs/heads/main

worktree /home/u/dev/scriv/.trees/feat
HEAD 32bb788aa1c04d9ee4d1e5a8b0e0b8d1c2f3a4b5
branch refs/heads/feat/x

worktree /home/u/dev/scriv/.trees/spike
HEAD cd7eff2bbb1c04d9ee4d1e5a8b0e0b8d1c2f3a4b
detached

worktree /home/u/dev/scriv/.trees/held
HEAD ec4b8dfccc1c04d9ee4d1e5a8b0e0b8d1c2f3a4b
branch refs/heads/held
locked waiting on review

worktree /home/u/dev/scriv/.trees/gone
HEAD 88a2dedddd1c04d9ee4d1e5a8b0e0b8d1c2f3a4b
branch refs/heads/gone
prunable gitdir file points to non-existent location
";

fn same(path: &str) -> String {
    path.to_string()
}

#[test]
fn parses_every_worktree_record() {
    let got = parse_worktrees(WORKTREE_LIST);
    assert_eq!(got.len(), 5);
    assert_eq!(got[0].path, "/home/u/dev/scriv");
    assert_eq!(got[0].branch, "main", "the ref prefix survived");
    assert_eq!(got[1].branch, "feat/x", "a branch name may contain a slash");
    assert!(got[2].branch.is_empty(), "a detached HEAD has no branch");
    assert!(got[3].locked);
    assert!(got[4].prunable);
}

#[test]
fn a_state_with_a_reason_is_still_that_state() {
    let got = parse_worktrees(WORKTREE_LIST);
    assert_eq!(got[3].tags(), vec!["locked"]);
    assert_eq!(got[4].tags(), vec!["prunable"]);
    assert!(got[0].tags().is_empty(), "an ordinary tree carries no tag");
}

#[test]
fn a_bare_repository_has_no_head_to_report() {
    let got = parse_worktrees("worktree /home/u/dev/mirror.git\nbare\n");
    assert_eq!(got.len(), 1);
    assert!(got[0].bare);
    assert_eq!(got[0].head_label(), "(bare)");
}

#[test]
fn a_detached_head_shows_the_commit_it_sits_on() {
    let got = parse_worktrees(WORKTREE_LIST);
    assert_eq!(got[0].head_label(), "main");
    assert_eq!(got[2].head_label(), "(cd7eff2)");
}

#[test]
fn attributes_belong_to_the_record_that_opened() {
    let got = parse_worktrees(
        "worktree /a\nHEAD abc\nbranch refs/heads/a\nsomething-new value\nworktree /b\nHEAD def\ndetached\n",
    );
    assert_eq!(got.len(), 2);
    assert_eq!(got[0].branch, "a");
    assert_eq!(got[1].path, "/b");
    assert!(got[1].branch.is_empty());
}

#[test]
fn nothing_is_parsed_from_nothing() {
    assert!(parse_worktrees("").is_empty());
    assert!(parse_worktrees("HEAD abc\nbranch refs/heads/a\n").is_empty());
}

#[test]
fn the_current_tree_is_the_one_the_shell_is_in() {
    let here = "/home/u/dev/scriv/.trees/feat";
    let got = mark_current(parse_worktrees(WORKTREE_LIST), Some(here), same);
    assert_eq!(
        got.iter().filter(|w| w.current).count(),
        1,
        "exactly one tree is the current one",
    );
    assert!(got[1].current);
    assert_eq!(got[1].color(), Some(2), "the current tree is green");
}

#[test]
fn the_current_tree_is_found_through_a_symlink() {
    let got = mark_current(
        parse_worktrees("worktree /private/tmp/wt\nHEAD abc\nbranch refs/heads/main\n"),
        Some("/tmp/wt"),
        |path: &str| match path.strip_prefix("/tmp/") {
            Some(rest) => format!("/private/tmp/{rest}"),
            None => path.to_string(),
        },
    );
    assert!(got[0].current, "the symlinked path did not match");
    assert_eq!(
        got[0].path, "/private/tmp/wt",
        "resolving must not rewrite what is displayed",
    );
}

#[test]
fn outside_a_repository_no_tree_is_current() {
    let got = mark_current(parse_worktrees(WORKTREE_LIST), None, same);
    assert!(got.iter().all(|w| !w.current));
}

#[test]
fn an_unusable_tree_is_greyed_even_when_it_is_the_current_one() {
    let got = mark_current(
        parse_worktrees(WORKTREE_LIST),
        Some("/home/u/dev/scriv/.trees/gone"),
        same,
    );
    assert_eq!(got[4].color(), Some(8));
    assert_eq!(got[2].color(), Some(3), "a detached tree is yellow");
    assert_eq!(got[0].color(), None, "an ordinary tree keeps the default");
}

#[test]
fn the_repository_root_is_what_git_printed_trimmed() {
    assert_eq!(repo_root(true, "/home/u/src/scriv\n").as_deref(), Some("/home/u/src/scriv"));
    assert_eq!(repo_root(false, "/x\n"), None);
    assert_eq!(repo_root(true, "  \n"), None);
    assert_eq!(
        require_repo_root(false, "").unwrap_err(),
        "not inside a git repository"
    );
}

#[test]
fn a_detached_head_has_no_current_branch() {
    assert_eq!(current_branch(true, "main\n").as_deref(), Some("main"));
    assert_eq!(current_branch(true, "HEAD\n"), None);
    assert_eq!(current_branch(false, "main\n"), None);
    assert_eq!(current_branch(true, "\n"), None);
}

#[test]
fn a_silent_git_failure_names_the_command() {
    let args = vec!["worktree".to_string(), "list".to_string()];
    assert_eq!(failure(&args, " \n"), "git worktree list failed");
    assert_eq!(failure(&args, "fatal: no\n"), "fatal: no");
}

#[test]
fn an_exclude_pattern_goes_on_a_line_of_its_own() {
    assert_eq!(exclude_with("", ".worktrees"), ".worktrees/\n");
    assert_eq!(exclude_with("*.log", ".worktrees"), "*.log\n.worktrees/\n");
    assert_eq!(exclude_with("*.log\n", ".worktrees"), "*.log\n.worktrees/\n");
}

#[test]
fn what_is_asked_of_git_is_spelled_out() {
    assert_eq!(
        ref_list_args(),
        vec![
            "for-each-ref",
            "--sort=-committerdate",
            "--format=%(refname)\x1f%(HEAD)\x1f%(symref:short)\x1f%(upstream:short)\x1f%(committerdate:relative)\x1f%(subject)",
            "refs/heads",
            "refs/remotes",
        ]
    );
    assert_eq!(worktree_list_args(), vec!["worktree", "list", "--porcelain"]);
    assert_eq!(merged_args(), vec!["branch", "--merged", "HEAD", "--format=%(refname:short)"]);
    assert_eq!(root_args(), vec!["rev-parse", "--show-toplevel"]);
    assert_eq!(current_branch_args(), vec!["rev-parse", "--abbrev-ref", "HEAD"]);
    assert_eq!(common_dir_args(), vec!["rev-parse", "--path-format=absolute", "--git-common-dir"]);
    assert_eq!(check_ignore_args(".trees"), vec!["check-ignore", "--quiet", "--", ".trees"]);
}
