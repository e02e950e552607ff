use scriv::cmd::note::{
    chosen_bytes, delete_question, match_files, modes, not_deleted, nothing_to_clean, pattern,
    quickfix_command, resolve, vim_escape, vim_family, with_extension, Looking, Matching,
};
use scriv::note::{Front, Junk, Match, Note};

#[test]
fn a_name_gains_the_extension_a_listing_looks_for() {
    assert_eq!(with_extension("standup"), "standup.md");
    assert_eq!(with_extension("work/standup"), "work/standup.md");
    assert_eq!(with_extension("standup.md"), "standup.md");
    assert_eq!(with_extension("notes.v2.txt"), "notes.v2.txt");
    assert_eq!(with_extension("v1.2/standup"), "v1.2/standup.md");
}

#[test]
fn only_a_vim_is_offered_a_quickfix_list() {
    for editor in ["nvim", "vim", "/usr/bin/vi", "/opt/homebrew/bin/nvim"] {
        assert!(vim_family(editor), "{editor}");
    }
    for editor in ["glow", "code", "hx", "emacs", "bat"] {
        assert!(!vim_family(editor), "{editor}");
    }
}

#[test]
fn a_path_handed_to_vim_is_escaped() {
    assert_eq!(vim_escape("/tmp/a b.txt"), r"/tmp/a\ b.txt");
    assert_eq!(vim_escape("/tmp/100%.txt"), r"/tmp/100\%.txt");
    assert_eq!(vim_escape("/tmp/plain.txt"), "/tmp/plain.txt");
}

#[test]
fn a_named_note_resolves_against_the_vault_but_an_absolute_path_does_not() {
    let (root, home) = ("/vault", "/home/me");
    assert_eq!(resolve(root, home, "work/standup.md"), "/vault/work/standup.md");
    assert_eq!(resolve(root, home, "/elsewhere/a.md"), "/elsewhere/a.md");
    assert_eq!(resolve(root, home, "~/inbox.md"), "/home/me/inbox.md");
}

#[test]
fn a_fuzzy_query_becomes_a_subsequence() {
    let (pattern, is_regex) = pattern("abc", Matching::Fuzzy);
    assert_eq!(pattern, "a[^\n]*b[^\n]*c");
    assert!(is_regex);
}

#[test]
fn a_fuzzy_query_ignores_the_spaces_in_it() {
    assert_eq!(
        pattern("a b", Matching::Fuzzy).0,
        pattern("ab", Matching::Fuzzy).0
    );
}

/// Every metacharacter escaped, and every escape balanced.
fn regex_is_sane(pattern: &str) -> bool {
    let mut chars = pattern.chars().peekable();
    let mut depth = 0i32;
    while let Some(c) = chars.next() {
        match c {
            '\\' => {
                if chars.next().is_none() {
                    return false;
                }
            }
            '[' => depth += 1,
            ']' => depth -= 1,
            _ => {}
        }
    }
    depth == 0
}

#[test]
fn a_half_typed_query_is_not_a_broken_regex() {
    for query in ["(", "[a", "a|", "*", "\\"] {
        let (pattern, _) = pattern(query, Matching::Fuzzy);
        assert!(
            regex_is_sane(&pattern),
            "{query:?} became {pattern:?}, which ripgrep would refuse"
        );
    }
}

#[test]
fn an_exact_query_is_handed_over_untouched() {
    let (pattern, is_regex) = pattern("a.c(", Matching::Exact);
    assert_eq!(pattern, "a.c(");
    assert!(!is_regex, "an exact query would be read as a regex");
}

#[test]
fn the_first_mode_is_the_one_that_reads_names() {
    assert_eq!(Looking::of(0), Looking::Names);
    assert_eq!(Looking::of(1), Looking::Lines(Matching::Fuzzy));
    assert_eq!(Looking::of(2), Looking::Lines(Matching::Exact));
    assert_eq!(modes(true)[0].label, "name");
}

#[test]
fn the_modes_that_search_the_text_are_offered_only_with_ripgrep() {
    assert_eq!(modes(true).len(), 3);
    assert_eq!(modes(false).len(), 1);
    assert_eq!(modes(false)[0].label, "name");
    assert_eq!(Looking::of(0), Looking::Names);
}

#[test]
fn a_fuzzy_query_escapes_what_a_regex_would_read() {
    assert_eq!(pattern("a.(", Matching::Fuzzy).0, "a[^\n]*\\.[^\n]*\\(");
    assert_eq!(pattern("  ", Matching::Fuzzy).0, "");
}

fn candidate(path: &str, bytes: u64) -> (Note, Junk, u64) {
    (
        Note {
            path: path.to_string(),
            rel: path.trim_start_matches("/vault/").to_string(),
            dir: String::new(),
            modified: 0,
            created: 0,
            front: Front::default(),
        },
        Junk::Empty,
        bytes,
    )
}

fn found(path: &str, line: u32) -> Match {
    Match {
        path: path.to_string(),
        rel: path.to_string(),
        line,
        column: 1,
        text: "x".to_string(),
    }
}

#[test]
fn a_cleanup_question_names_the_count_and_the_size_of_what_goes() {
    let candidates = vec![candidate("/vault/a.md", 100), candidate("/vault/b.md", 2000), candidate("/vault/c.md", 7)];
    let chosen = vec!["/vault/b.md".to_string(), "/vault/a.md".to_string()];
    let total = chosen_bytes(&candidates, &chosen);
    assert_eq!(total, 2100);
    assert_eq!(delete_question(chosen.len(), total), "Delete 2 notes (2k)? This cannot be undone");
    assert_eq!(delete_question(1, 7), "Delete 1 note (7b)? This cannot be undone");
}

#[test]
fn the_cleanup_messages_say_how_many() {
    assert_eq!(
        nothing_to_clean(12),
        "Nothing to clean up — all 12 notes have a name and something in them"
    );
    assert_eq!(not_deleted(1, 3), "1 of 3 could not be deleted");
}

#[test]
fn an_editor_without_lines_gets_each_file_once() {
    let matches = vec![found("/v/a.md", 1), found("/v/b.md", 2), found("/v/a.md", 9)];
    assert_eq!(match_files(&matches), vec!["/v/a.md".to_string(), "/v/b.md".to_string()]);
}

#[test]
fn a_vim_walks_a_quickfix_list_and_opens_its_window_for_more_than_one() {
    let args = vec!["-p".to_string()];
    assert_eq!(
        quickfix_command(&args, "/tmp/q 1.txt", 2),
        vec!["-p", "-c", "set errorformat=%f:%l:%c:%m", "-c", "cfile /tmp/q\\ 1.txt", "-c", "cfirst", "-c", "copen"]
    );
    assert_eq!(quickfix_command(&Vec::new(), "/tmp/q", 1).len(), 6);
}
