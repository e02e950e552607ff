use scriv::gh::{
    list_repos, page_cap, remaining_pages, speculative_pages,
    color_for, last_page, made_safe, person_or_me, pr_number, repo_made_safe, result_for,
    split_response, tag_for, valid_slug, Author, Check, CheckResult, Checks, MergeMethod,
    Mergeable, PullRequest, Readiness, Repo, Source, Visibility,
};

fn check(name: &str, workflow: &str, status: &str, conclusion: &str) -> Check {
    Check {
        name: name.to_string(),
        context: String::new(),
        workflow_name: workflow.to_string(),
        status: status.to_string(),
        conclusion: conclusion.to_string(),
        state: String::new(),
    }
}

fn context(context: &str, state: &str) -> Check {
    Check {
        name: String::new(),
        context: context.to_string(),
        workflow_name: String::new(),
        status: String::new(),
        conclusion: String::new(),
        state: state.to_string(),
    }
}

fn pr(state: &str, is_draft: bool, mergeable: &str, checks: Vec<Check>) -> PullRequest {
    PullRequest {
        number: 1,
        title: "t".to_string(),
        author: None,
        head_ref_name: "h".to_string(),
        is_draft,
        state: state.to_string(),
        updated_at: String::new(),
        body: String::new(),
        status_check_rollup: checks,
        mergeable: mergeable.to_string(),
    }
}

/// The same pull request the `statusCheckRollup` sample describes.
fn mixed() -> PullRequest {
    pr(
        "OPEN",
        false,
        "MERGEABLE",
        vec![
            check("build", "ci", "COMPLETED", "SUCCESS"),
            check("lint", "ci", "COMPLETED", "FAILURE"),
            check("e2e", "ci", "IN_PROGRESS", ""),
            check("docs", "ci", "COMPLETED", "SKIPPED"),
            context("ci/legacy", "SUCCESS"),
            context("ci/flaky", "ERROR"),
        ],
    )
}

fn sample() -> Vec<PullRequest> {
    vec![
        PullRequest {
            number: 12,
            title: "Add branch selector".to_string(),
            author: Some(Author { login: "joakimen".to_string() }),
            head_ref_name: "feat/branches".to_string(),
            is_draft: false,
            state: "OPEN".to_string(),
            updated_at: "2026-07-27T09:12:33Z".to_string(),
            body: String::new(),
            status_check_rollup: Vec::new(),
            mergeable: String::new(),
        },
        PullRequest {
            number: 9,
            title: "WIP".to_string(),
            author: None,
            head_ref_name: "wip".to_string(),
            is_draft: true,
            state: "OPEN".to_string(),
            updated_at: "2026-07-20T11:00:00Z".to_string(),
            body: String::new(),
            status_check_rollup: Vec::new(),
            mergeable: String::new(),
        },
    ]
}

#[test]
fn only_names_github_could_have_issued_are_valid_slugs() {
    for good in ["joakimen", "acme/api", "a-b_c.d", "acme/my.repo"] {
        assert!(valid_slug(good), "{good} rejected");
    }
    for bad in [
        "-L",
        "--json",
        "..",
        "../../etc",
        "acme/../../etc",
        "a/b/c",
        "",
        "acme/",
        "/api",
        "acme/api;whoami",
        "acme api",
    ] {
        assert!(!valid_slug(bad), "{bad} accepted");
    }
}

#[test]
fn parses_gh_output() {
    let prs = sample();
    assert_eq!(prs[0].author_login(), "joakimen");
    assert_eq!(prs[0].updated_date(), "2026-07-27");
}

#[test]
fn missing_author_falls_back() {
    let prs = sample();
    assert_eq!(prs[1].author_login(), "unknown");
}

#[test]
fn colours_by_state() {
    assert_eq!(color_for(false, "OPEN"), 2);
    assert_eq!(color_for(true, "OPEN"), 8);
    assert_eq!(color_for(false, "MERGED"), 5);
    assert_eq!(color_for(false, "CLOSED"), 1);
    assert_eq!(color_for(true, "MERGED"), 5);
}

#[test]
fn tags_match_colours() {
    assert_eq!(tag_for(false, "OPEN"), "open");
    assert_eq!(tag_for(true, "OPEN"), "draft");
    assert_eq!(tag_for(false, "MERGED"), "merged");
    assert_eq!(tag_for(false, "CLOSED"), "closed");
}

#[test]
fn counts_both_check_shapes() {
    let checks = mixed().checks();
    assert_eq!(checks.passed, 3);
    assert_eq!(checks.failed, 2);
    assert_eq!(checks.pending, 1);
    assert_eq!(checks.total(), 6);
}

#[test]
fn one_failure_makes_the_set_failing() {
    assert_eq!(mixed().checks().tag(), "fail");
    assert_eq!(
        Checks {
            passed: 9,
            failed: 0,
            pending: 1
        }
        .tag(),
        "pending"
    );
    assert_eq!(
        Checks {
            passed: 9,
            failed: 0,
            pending: 0
        }
        .tag(),
        "pass"
    );
}

#[test]
fn no_checks_is_blank_not_pending() {
    let checks = Checks::default();
    assert!(checks.is_empty());
    assert_eq!(checks.tag(), "");
    assert_eq!(checks.summary(), "");
}

#[test]
fn skipped_and_neutral_pass() {
    assert_eq!(result_for("COMPLETED", "SKIPPED", ""), CheckResult::Pass);
    assert_eq!(result_for("COMPLETED", "NEUTRAL", ""), CheckResult::Pass);
    assert_eq!(result_for("COMPLETED", "CANCELLED", ""), CheckResult::Fail);
    assert_eq!(result_for("COMPLETED", "TIMED_OUT", ""), CheckResult::Fail);
    assert_eq!(result_for("QUEUED", "", ""), CheckResult::Pending);
    assert_eq!(result_for("", "", "PENDING"), CheckResult::Pending);
    assert_eq!(result_for("", "", "FAILURE"), CheckResult::Fail);
}

#[test]
fn summary_leads_with_the_bad_news() {
    assert_eq!(mixed().checks().summary(), "2 failed, 1 pending, 3 passed");
}

#[test]
fn failing_checks_are_listed_failures_first() {
    let pr = mixed();
    let names: Vec<String> = pr.failing_checks().iter().map(|c| c.label()).collect();
    assert_eq!(names, ["lint (ci)", "ci/flaky", "e2e (ci)"]);
}

#[test]
fn mergeable_states_parse() {
    assert_eq!(Mergeable::parse("MERGEABLE"), Mergeable::Clean);
    assert_eq!(Mergeable::parse("CONFLICTING"), Mergeable::Conflicting);
    assert_eq!(Mergeable::parse("UNKNOWN"), Mergeable::Unknown);
    assert_eq!(mixed().mergeable(), Mergeable::Clean);
}

#[test]
fn unknown_mergeability_renders_as_nothing() {
    assert_eq!(Mergeable::parse("UNKNOWN").tag(), "");
    assert_eq!(Mergeable::parse("").tag(), "");
}

#[test]
fn check_fields_are_optional() {
    let prs = sample();
    assert!(prs[0].checks().is_empty());
    assert_eq!(prs[0].mergeable(), Mergeable::Unknown);
}

#[test]
fn readiness_is_not_state() {
    assert_eq!(mixed().readiness(), Readiness::Blocked);
    let prs = sample();
    assert_eq!(prs[0].readiness(), Readiness::Ready);
    assert_eq!(prs[1].readiness(), Readiness::Unavailable);
}

#[test]
fn merged_is_never_ready() {
    let pr = pr("MERGED", false, "", vec![check("build", "", "COMPLETED", "SUCCESS")]);
    assert_eq!(pr.checks().tag(), "pass");
    assert_eq!(pr.readiness(), Readiness::Unavailable);
}

#[test]
fn a_conflict_blocks_a_green_pull_request() {
    let pr = pr(
        "OPEN",
        false,
        "CONFLICTING",
        vec![check("build", "", "COMPLETED", "SUCCESS")],
    );
    assert_eq!(pr.checks().tag(), "pass");
    assert_eq!(pr.readiness(), Readiness::Blocked);
}

#[test]
fn a_pending_check_keeps_a_pull_request_waiting() {
    let pr = pr("open", false, "", vec![check("e2e", "", "QUEUED", "")]);
    assert_eq!(pr.readiness(), Readiness::Waiting);
    assert_eq!(Readiness::Waiting.color(), 3);
}

#[test]
fn merge_methods_map_to_gh_flags() {
    assert_eq!(MergeMethod::Merge.flag(), "--merge");
    assert_eq!(MergeMethod::Squash.flag(), "--squash");
    assert_eq!(MergeMethod::Rebase.flag(), "--rebase");
}

#[test]
fn a_merge_names_only_the_flags_asked_for() {
    assert_eq!(scriv::gh::merge(7, None, false, false), vec!["pr", "merge", "7"]);
    assert_eq!(
        scriv::gh::merge(7, Some(MergeMethod::Squash), true, true),
        vec!["pr", "merge", "7", "--squash", "--delete-branch", "--auto"]
    );
}

#[test]
fn visibility_parses_what_github_says() {
    assert_eq!(Visibility::parse("PRIVATE"), Visibility::Private);
    assert_eq!(Visibility::parse("internal"), Visibility::Internal);
    assert_eq!(Visibility::parse("PUBLIC"), Visibility::Public);
    assert_eq!(Visibility::parse(""), Visibility::Public);
}

#[test]
fn each_visibility_reads_differently() {
    let colors = [
        Visibility::Public.color(),
        Visibility::Private.color(),
        Visibility::Internal.color(),
    ];
    let mut distinct = colors.to_vec();
    distinct.sort_unstable();
    distinct.dedup();
    assert_eq!(distinct.len(), colors.len(), "two visibilities look alike");
    assert_eq!(Visibility::Public.color(), None, "the ordinary case is bare");
}

#[test]
fn each_kind_of_owner_is_listed_where_github_keeps_it() {
    assert_eq!(
        Source::Org("acme".into()).page(2),
        "orgs/acme/repos?per_page=100&page=2"
    );
    assert_eq!(
        Source::Person("torvalds".into()).page(1),
        "users/torvalds/repos?per_page=100&page=1"
    );
    assert_eq!(
        Source::Me.page(1),
        "user/repos?affiliation=owner&per_page=100&page=1"
    );
}

#[test]
fn the_page_count_comes_from_the_link_header() {
    let header = "Link: <https://api.github.com/organizations/1/repos?per_page=100&page=2>; \
         rel=\"next\", <https://api.github.com/organizations/1/repos?per_page=100&page=4>; \
         rel=\"last\"";
    assert_eq!(last_page(header), 4);
    assert_eq!(last_page("Date: today\r\nServer: github.com"), 1);
    assert_eq!(last_page(""), 1);
    assert_eq!(last_page("link: <https://x/?page=9>; rel=\"next\""), 1);
}

#[test]
fn a_response_is_split_where_its_headers_end() {
    let (headers, body) = split_response("HTTP/2 200\r\nLink: x\r\n\r\n[{\"a\":1}]");
    assert_eq!(headers, "HTTP/2 200\r\nLink: x");
    assert_eq!(body, "[{\"a\":1}]");

    let (headers, body) = split_response("[]");
    assert_eq!(headers, "");
    assert_eq!(body, "[]");
}

#[test]
fn a_response_with_bare_newlines_splits_too() {
    let (headers, body) = split_response("A: b\n\n[]");
    assert_eq!(headers, "A: b");
    assert_eq!(body, "[]");
}

#[test]
fn a_repository_with_nothing_written_about_it_still_parses() {
    let repo = Repo {
        full_name: "acme/api".to_string(),
        ..Repo::default()
    };
    assert_eq!(repo.description(), "");
    assert_eq!(repo.language(), "");
    assert_eq!(repo.name(), "api");
    assert_eq!(repo.owner(), "acme");
}

#[test]
fn a_repository_description_cannot_carry_an_escape_either() {
    let repo = repo_made_safe(&Repo {
        full_name: "acme/api".to_string(),
        description: Some("a\u{1b}[2Kb".to_string()),
        language: Some("R\u{1b}[31must".to_string()),
        ..Repo::default()
    });
    assert_eq!(repo.description(), "a[2Kb");
    assert_eq!(repo.language(), "R[31must");
    assert_eq!(repo.name_with_owner(), "acme/api");
}

#[test]
fn a_pull_request_cannot_carry_an_escape_into_a_listing() {
    let raw = PullRequest {
        number: 1,
        title: "fix\u{1b}[2K\u{1b}[32m all checks pass".to_string(),
        author: Some(Author { login: "a\u{1b}[31mb".to_string() }),
        head_ref_name: "x\u{1b}[0m".to_string(),
        is_draft: false,
        state: "OPEN".to_string(),
        updated_at: String::new(),
        body: "para\u{1b}[2Kone\n\npara two".to_string(),
        status_check_rollup: vec![check("bu\u{1b}[2Kild", "", "COMPLETED", "FAILURE")],
        mergeable: String::new(),
    };
    let pr = made_safe(&raw);
    for text in [&pr.title, &pr.body, &pr.head_ref_name] {
        assert!(!text.contains('\x1b'), "{text:?}");
    }
    assert!(!pr.author_login().contains('\x1b'));
    assert!(!pr.status_check_rollup[0].name.contains('\x1b'));
    assert_eq!(pr.checks().failed, 1);
    assert_eq!(pr.body, "para[2Kone\n\npara two");
}

#[test]
fn a_repository_carries_only_the_tags_that_mark_it_out() {
    let plain = Repo {
        full_name: "a/b".to_string(),
        visibility: "public".to_string(),
        ..Repo::default()
    };
    assert!(plain.tags().is_empty());
    let odd = Repo {
        full_name: "a/b".to_string(),
        visibility: "private".to_string(),
        archived: true,
        fork: true,
        ..Repo::default()
    };
    assert_eq!(odd.tags(), vec!["archived", "private", "fork"]);
}

#[test]
fn the_token_owner_is_listed_as_themselves() {
    assert_eq!(person_or_me("Joakimen", Some("joakimen")), Source::Me);
    assert_eq!(
        person_or_me("torvalds", Some("joakimen")),
        Source::Person("torvalds".to_string())
    );
    assert_eq!(
        person_or_me("torvalds", None),
        Source::Person("torvalds".to_string())
    );
}

#[test]
fn a_pull_request_number_is_read_or_refused() {
    assert_eq!(pr_number(" 42\n", "main"), Ok(Some(42)));
    assert_eq!(pr_number("\n", "main"), Ok(None));
    assert_eq!(
        pr_number("null", "main"),
        Err("gh returned `null` as the pull request number for main".to_string())
    );
}

#[test]
fn a_listing_is_capped_in_pages_and_rows() {
    assert_eq!(page_cap(0), 1);
    assert_eq!(page_cap(100), 1);
    assert_eq!(page_cap(101), 2);
    assert_eq!(speculative_pages(2), 2);
    assert_eq!(speculative_pages(9), 4);
    assert_eq!(remaining_pages(7, 9, 4), Some((5, 7)));
    assert_eq!(remaining_pages(3, 9, 4), None);
    let repo = |name: &str, archived: bool| Repo {
        full_name: name.to_string(),
        archived,
        ..Repo::default()
    };
    let pages = vec![
        vec![repo("a/1", false), repo("a/2", true)],
        vec![repo("a/3", false), repo("a/4", false)],
    ];
    let got = list_repos(pages.clone(), 2, false);
    assert_eq!(
        got.iter().map(|r| r.full_name.as_str()).collect::<Vec<_>>(),
        vec!["a/1", "a/3"]
    );
    assert_eq!(list_repos(pages, 10, true).len(), 4);
}
