use scriv::cmd::pr::{opening, Opening};
use scriv::cmd::pr::{ensure_target, items, limit_note, ls_row, none_found, number_width, StatusColumns, Tint};
use scriv::gh::{Author, Check, PullRequest, Readiness, GLYPH_WIDTH};

fn check(name: &str, workflow: &str, status: &str, conclusion: &str) -> Check {
    Check {
        name: name.to_string(),
        context: String::new(),
        workflow_name: workflow.to_string(),
        status: status.to_string(),
        conclusion: conclusion.to_string(),
        state: String::new(),
    }
}

fn prs() -> Vec<PullRequest> {
    vec![
        PullRequest {
            number: 7,
            title: "Add branch selector".to_string(),
            author: Some(Author { login: "joakimen".to_string() }),
            head_ref_name: "feat/branches".to_string(),
            is_draft: false,
            state: "OPEN".to_string(),
            updated_at: "2026-07-27T09:12:33Z".to_string(),
            body: "Adds a selector.\r\n\r\nSecond paragraph.".to_string(),
            status_check_rollup: vec![check("build", "ci", "COMPLETED", "SUCCESS")],
            mergeable: "MERGEABLE".to_string(),
        },
        PullRequest {
            number: 123,
            title: "WIP".to_string(),
            author: Some(Author { login: "someone".to_string() }),
            head_ref_name: "wip".to_string(),
            is_draft: true,
            state: "OPEN".to_string(),
            updated_at: "2026-07-20T11:00:00Z".to_string(),
            body: String::new(),
            status_check_rollup: vec![
                check("build", "ci", "COMPLETED", "FAILURE"),
                check("test", "ci", "IN_PROGRESS", ""),
            ],
            mergeable: "CONFLICTING".to_string(),
        },
    ]
}

fn bare_prs() -> Vec<PullRequest> {
    vec![PullRequest {
        number: 1,
        title: "Only one".to_string(),
        author: Some(Author { login: "ada".to_string() }),
        head_ref_name: "only".to_string(),
        is_draft: false,
        state: "OPEN".to_string(),
        updated_at: "2026-07-27T09:12:33Z".to_string(),
        body: String::new(),
        status_check_rollup: Vec::new(),
        mergeable: String::new(),
    }]
}

/// The column a title starts in, as the terminal counts it: every glyph here
/// is one column wide, so characters count columns.
fn title_column(label: &str, title: &str) -> usize {
    let start = label.find(title).expect("title in label");
    label[..start].chars().count()
}

#[test]
fn rows_return_the_pr_number() {
    let items = items(&prs(), Tint::State);
    assert_eq!(items[0].value(), "7");
    assert_eq!(items[1].value(), "123");
}

#[test]
fn rows_show_title_author_and_branch() {
    let label = &items(&prs(), Tint::State)[0].label;
    assert!(label.contains("#7"));
    assert!(label.contains("Add branch selector"));
    assert!(label.contains("@joakimen"));
    assert!(label.contains("[feat/branches]"), "{label}");
}

#[test]
fn drafts_are_tinted_differently() {
    let items = items(&prs(), Tint::State);
    assert_ne!(items[0].color, items[1].color);
}

#[test]
fn number_column_aligns() {
    let items = items(&prs(), Tint::State);
    assert_eq!(
        title_column(&items[0].label, "Add branch selector"),
        title_column(&items[1].label, "WIP"),
    );
}

#[test]
fn rows_carry_the_check_rollup() {
    let items = items(&prs(), Tint::State);
    assert!(items[0].label.contains('✓'), "{}", items[0].label);
    assert!(items[1].label.contains('✗'), "{}", items[1].label);
    assert!(items[1].label.contains('⊘'), "{}", items[1].label);
}

#[test]
fn status_columns_vanish_when_there_is_nothing_to_show() {
    let columns = StatusColumns::of(&bare_prs());
    assert_eq!(columns.cells(&bare_prs()[0]), "");
    let label = &items(&bare_prs(), Tint::State)[0].label;
    assert_eq!(label, "#1  Only one  @ada  [only]");
}

#[test]
fn status_columns_align() {
    let items = items(&prs(), Tint::State);
    assert_eq!(
        title_column(&items[0].label, "Add branch selector"),
        title_column(&items[1].label, "WIP"),
    );
    let columns = StatusColumns::of(&prs());
    let widths: Vec<usize> = prs()
        .iter()
        .map(|pr| columns.cells(pr).chars().count())
        .collect();
    assert_eq!(widths, [GLYPH_WIDTH * 2 + 3; 2]);
}

#[test]
fn the_conflict_column_appears_only_when_one_exists() {
    let clean = &prs()[..1];
    let columns = StatusColumns::of(clean);
    assert_eq!(columns.cells(&clean[0]).chars().count(), GLYPH_WIDTH + 2);
}

#[test]
fn the_bare_listing_carries_the_glyphs() {
    let columns = StatusColumns::of(&prs());
    assert!(columns.cells(&prs()[0]).contains('✓'));
    assert!(columns.cells(&prs()[1]).contains('✗'));
}

#[test]
fn the_merge_selector_tints_by_readiness() {
    let prs = prs();
    let state = items(&prs, Tint::State);
    let readiness = items(&prs, Tint::Readiness);
    assert_eq!(state[0].color, Some(prs[0].color()));
    assert_eq!(readiness[0].color, Some(Readiness::Ready.color()));
    assert_eq!(
        readiness[1].color,
        Some(Readiness::Unavailable.color()),
        "a draft is not a merge candidate",
    );
}

#[test]
fn a_listing_row_carries_the_state_branch_and_date_with_status() {
    let prs = prs();
    let columns = StatusColumns::of(&prs);
    let width = number_width(&prs);
    assert_eq!(width, 3);
    assert_eq!(ls_row(&prs[0], width, columns, false), "#7    ✓    Add branch selector  @joakimen");
    assert_eq!(
        ls_row(&prs[1], width, columns, true),
        "#123  draft   ✗ ⊘  WIP  @someone  [wip]  2026-07-20"
    );
}

#[test]
fn an_empty_listing_names_its_state_unless_it_is_every_state() {
    assert_eq!(none_found("open"), "no open pull requests found for this repository");
    assert_eq!(none_found("all"), "no pull requests found for this repository");
}

#[test]
fn a_full_page_names_the_limit() {
    assert_eq!(
        limit_note(30, 30).as_deref(),
        Some("note: showing the first 30 pull requests; pass --limit to raise it")
    );
    assert_eq!(limit_note(3, 30), None);
}

#[test]
fn pr_needs_a_repository_or_gh_repo() {
    assert!(ensure_target(true, false).is_ok());
    assert!(ensure_target(false, true).is_ok());
    assert!(ensure_target(false, false).unwrap_err().contains("GH_REPO"));
}

#[test]
fn open_current_opens_the_branchs_pull_request_or_says_why_it_opens_the_list() {
    assert_eq!(opening(Some("feat/x"), Some(7)), Opening::Pull(7));
    assert_eq!(
        opening(Some("feat/x"), None),
        Opening::List("note: no pull request from `feat/x`; opening the list".to_string())
    );
    assert_eq!(
        opening(None, None),
        Opening::List("note: HEAD is detached; opening the pull request list".to_string())
    );
}
