use scriv::note::row_color;
use scriv::note::{
    date, generated_name, parse_front, prefix, status_row, age, cleanup_order, created, decode_match, encode_match, free_name, is_note, junk, junk_row,
    match_row, match_width, newest_first, parse_match, quickfix_line, row, size,
    split_front_matter, top_dir, Front, Junk, Match, Note, Tint, Widths, DAY, HOUR, MINUTE, WEEK,
    YEAR,
};

fn note(rel: &str, front: Front) -> Note {
    Note {
        path: format!("/vault/{rel}"),
        dir: top_dir(rel).to_string(),
        rel: rel.to_string(),
        modified: 0,
        created: 0,
        front,
    }
}

const SCRATCH: &str = "/vault/scratch/scratch.md";

const ROOT: &str = "/vault";

#[test]
fn a_block_is_what_sits_between_the_two_fences() {
    let (block, body) = split_front_matter("---\ntitle: A\n---\n# Heading\n");
    assert_eq!(block, Some("title: A\n"));
    assert_eq!(body, "# Heading\n");
}

#[test]
fn an_unterminated_block_is_not_front_matter() {
    let text = "---\njust a rule, then prose\n";
    assert_eq!(split_front_matter(text), (None, text));
}

#[test]
fn a_note_with_no_block_keeps_its_whole_body() {
    let text = "# Heading\n\nbody\n";
    assert_eq!(split_front_matter(text), (None, text));
}

#[test]
fn a_block_may_close_with_the_other_yaml_terminator() {
    let (block, body) = split_front_matter("---\ntitle: A\n...\nbody\n");
    assert_eq!(block, Some("title: A\n"));
    assert_eq!(body, "body\n");
}

#[test]
fn a_block_opened_with_a_carriage_return_still_closes() {
    let (block, body) = split_front_matter("---\r\ntitle: A\r\n---\r\nbody");
    assert_eq!(block, Some("title: A\r\n"));
    assert_eq!(body, "body");
}

#[test]
fn a_note_falls_back_to_its_filename_and_takes_a_title_over_it() {
    assert_eq!(note("work/standup.md", Front::default()).title(), "standup");
    assert_eq!(
        note(
            "work/standup.md",
            Front {
                title: Some("Daily standup".into()),
                ..Front::default()
            }
        )
        .title(),
        "Daily standup"
    );
}

#[test]
fn a_creation_date_prefers_front_matter_then_the_filesystem_then_the_edit() {
    assert_eq!(created(Some(10), Some(20), 30), 10);
    assert_eq!(created(None, Some(20), 30), 20);
    assert_eq!(created(None, None, 30), 30);
}

#[test]
fn an_age_reads_as_the_largest_unit_that_fits() {
    let cases = [
        (0, "now"),
        (59, "now"),
        (60, "1m"),
        (59 * MINUTE, "59m"),
        (HOUR, "1h"),
        (DAY, "1d"),
        (6 * DAY, "6d"),
        (WEEK, "1w"),
        (4 * WEEK, "4w"),
        (5 * WEEK, "1mo"),
        (364 * DAY, "11mo"),
        (YEAR, "1y"),
    ];
    for (elapsed, want) in cases {
        assert_eq!(age(elapsed, 0), want, "{elapsed}s");
    }
}

#[test]
fn a_note_dated_in_the_future_reads_as_now() {
    assert_eq!(age(0, 10_000), "now");
}

#[test]
fn an_age_never_rounds_down_to_no_months_at_all() {
    for elapsed in (5 * WEEK)..YEAR {
        let stamp = age(elapsed, 0);
        assert!(stamp.starts_with(|c: char| c != '0'), "{elapsed}s: {stamp}");
    }
}

fn vault() -> Vec<Note> {
    vec![
        Note {
            modified: 3 * DAY,
            created: 400 * DAY,
            ..note(
                "work/meetings/standup.md",
                Front {
                    tags: vec!["daily".into()],
                    ..Front::default()
                },
            )
        },
        Note {
            modified: 0,
            created: 0,
            ..note("scratch/idea.md", Front::default())
        },
        Note {
            modified: 0,
            created: 0,
            ..note("inbox.md", Front::default())
        },
    ]
}

#[test]
fn a_row_is_what_the_note_calls_itself() {
    let rows: Vec<String> = vault().iter().map(row).collect();
    assert_eq!(rows, vec!["standup", "idea", "inbox"]);
}

#[test]
fn a_tag_column_marks_every_tag() {
    let n = note(
        "a.md",
        Front {
            tags: vec!["rust".into(), "til".into()],
            ..Front::default()
        },
    );
    assert_eq!(n.tag_column(), "#rust #til");
    assert_eq!(note("a.md", Front::default()).tag_column(), "");
}

#[test]
fn a_group_is_the_label_or_the_directory_that_has_none() {
    let notes = vault();
    assert_eq!(notes[0].group(Some("job")), "job");
    assert_eq!(notes[1].group(None), "scratch");
    assert_eq!(notes[2].group(None), "");
}

#[test]
fn a_listing_leads_with_what_was_touched_most_recently() {
    let mut notes = vault();
    newest_first(&mut notes);
    assert_eq!(notes[0].rel, "work/meetings/standup.md");
    assert_eq!(notes[1].rel, "inbox.md");
    assert_eq!(notes[2].rel, "scratch/idea.md");
}

#[test]
fn only_markdown_is_a_note() {
    for name in ["a.md", "a.markdown", "a.MD"] {
        assert!(is_note(name), "{name}");
    }
    for name in ["a.png", "a.canvas", "a", "a.md.bak"] {
        assert!(!is_note(name), "{name}");
    }
}

fn body_of(len: usize) -> String {
    "word ".repeat(len)
}

#[test]
fn a_note_with_nothing_in_it_is_a_candidate() {
    let note = note("thoughts.md", Front::default());
    assert_eq!(junk(&note, "", SCRATCH), Some(Junk::Empty));
    assert_eq!(junk(&note, "# Thoughts\n", SCRATCH), Some(Junk::Empty));
    assert_eq!(junk(&note, &body_of(20), SCRATCH), None);
}

#[test]
fn an_untitled_note_is_a_candidate_however_it_is_numbered() {
    for name in [
        "Untitled.md",
        "untitled 1.md",
        "Untitled-2.md",
        "untitled_3.md",
    ] {
        let note = note(name, Front::default());
        assert_eq!(
            junk(&note, &body_of(20), SCRATCH),
            Some(Junk::Untitled),
            "{name}"
        );
    }
    for name in ["Untitled thoughts.md", "untitledness.md"] {
        let note = note(name, Front::default());
        assert_eq!(junk(&note, &body_of(20), SCRATCH), None, "{name}");
    }
}

#[test]
fn a_note_named_only_by_numbers_is_a_candidate_unless_it_says_otherwise() {
    let jotted = note("2026-08-25 1043.md", Front::default());
    assert_eq!(junk(&jotted, &body_of(20), SCRATCH), Some(Junk::Unnamed));

    let titled = note(
        "2026-08-25 1043.md",
        Front {
            title: Some("Bank call".into()),
            ..Front::default()
        },
    );
    assert_eq!(junk(&titled, &body_of(20), SCRATCH), None);
}

#[test]
fn a_name_whose_eighth_byte_is_inside_a_character_is_not_untitled() {
    for name in ["Prosjektø", "Løsningø", "abcdefgø", "Størrelse"] {
        let note = note(&format!("{name}.md"), Front::default());
        assert_ne!(
            junk(&note, &"word ".repeat(20), SCRATCH),
            Some(Junk::Untitled),
            "{name}"
        );
    }
}

#[test]
fn the_scratch_note_is_never_a_candidate() {
    let pad = Note {
        path: SCRATCH.to_string(),
        ..note("scratch/scratch.md", Front::default())
    };
    assert_eq!(junk(&pad, "", SCRATCH), None);
    assert_eq!(junk(&pad, "Untitled", SCRATCH), None);
    let spelled_apart = Note {
        path: "/vault//scratch/./scratch.md".to_string(),
        ..note("scratch/scratch.md", Front::default())
    };
    assert_eq!(junk(&spelled_apart, "", SCRATCH), None);

    let other = note("scratch/other.md", Front::default());
    assert_eq!(junk(&other, "", SCRATCH), Some(Junk::Empty));
}

#[test]
fn a_cleanup_row_says_why_the_note_is_on_the_list() {
    let notes = vault();
    let widths = Widths {
        rel: "work/meetings/standup.md".chars().count(),
        ..Widths::default()
    }
    .with_sizes(&[0]);
    let (row, tints) = junk_row(&notes[0], Junk::Empty, 0, &widths);
    assert!(row.starts_with("empty"), "{row:?}");
    assert!(row.contains("work/meetings/standup.md"), "{row:?}");
    assert!(row.ends_with("0b"), "{row:?}");
    assert_eq!(tints[0].range, 0.."empty".len());
    assert_eq!(tints[0].color, Junk::Empty.color());
}

#[test]
fn a_size_is_one_number_and_one_letter() {
    assert_eq!(size(0), "0b");
    assert_eq!(size(512), "512b");
    assert_eq!(size(1024), "1k");
    assert_eq!(size(4096), "4k");
    assert_eq!(size(2 * 1024 * 1024), "2M");
}

#[test]
fn every_size_ends_in_the_same_column() {
    let notes = vault();
    let sizes = [0u64, 900, 4096, 5 * 1024 * 1024];
    let widths = Widths::default().with_sizes(&sizes);
    let rows: Vec<String> = sizes
        .iter()
        .map(|bytes| junk_row(&notes[0], Junk::Empty, *bytes, &widths).0)
        .collect();
    let lengths: Vec<usize> = rows.iter().map(|r| r.chars().count()).collect();
    assert!(
        lengths.windows(2).all(|w| w[0] == w[1]),
        "the sizes do not line up: {rows:?}"
    );
}

#[test]
fn a_cleanup_list_is_grouped_by_reason_and_then_by_size() {
    let at = |rel: &str| note(rel, Front::default());
    let mut candidates = vec![
        (at("d.md"), Junk::Unnamed, 900),
        (at("a.md"), Junk::Empty, 12),
        (at("c.md"), Junk::Unnamed, 40),
        (at("b.md"), Junk::Untitled, 700),
        (at("e.md"), Junk::Empty, 0),
    ];
    cleanup_order(&mut candidates);

    let order: Vec<(&str, Junk, u64)> = candidates
        .iter()
        .map(|(n, reason, size)| (n.rel.as_str(), *reason, *size))
        .collect();
    assert_eq!(
        order,
        vec![
            ("e.md", Junk::Empty, 0),
            ("a.md", Junk::Empty, 12),
            ("b.md", Junk::Untitled, 700),
            ("c.md", Junk::Unnamed, 40),
            ("d.md", Junk::Unnamed, 900),
        ]
    );
}

#[test]
fn a_vimgrep_line_splits_into_a_place_and_the_text_that_matched() {
    let found = parse_match("/vault/work/a.md:12:5:the matched text", ROOT).unwrap();
    assert_eq!(found.rel, "work/a.md");
    assert_eq!((found.line, found.column), (12, 5));
    assert_eq!(found.text, "the matched text");
}

#[test]
fn a_matched_line_may_contain_colons_of_its_own() {
    let found = parse_match("/vault/a.md:1:1:see also: the other note", ROOT).unwrap();
    assert_eq!(found.text, "see also: the other note");
}

#[test]
fn a_path_with_a_colon_in_it_still_parses() {
    let found = parse_match("/vault/a:b.md:7:2:text", ROOT).unwrap();
    assert_eq!(found.path, "/vault/a:b.md");
    assert_eq!(found.line, 7);
}

#[test]
fn a_match_in_a_norwegian_note_parses_and_draws() {
    let found = parse_match("/vault/nøtter/møte.md:12:5:ærlig talt, en løsning", ROOT).unwrap();
    assert_eq!(found.rel, "nøtter/møte.md");
    assert_eq!((found.line, found.column), (12, 5));
    assert_eq!(found.text, "ærlig talt, en løsning");

    let (row, tints) = match_row(&found, 40);
    assert!(row.contains("nøtter/møte.md"), "{row:?}");
    for tint in &tints {
        assert!(
            row.chars().count() >= tint.range.end,
            "a tint ran past the row: {tint:?} in {row:?}"
        );
    }
    let back = decode_match(&encode_match(&found), ROOT).unwrap();
    assert_eq!(back.rel, found.rel);
}

#[test]
fn a_line_that_is_not_a_match_is_not_one() {
    for line in ["", "no colons at all", "/vault/a.md:not:a:number"] {
        assert!(parse_match(line, ROOT).is_none(), "{line:?}");
    }
}

#[test]
fn a_match_survives_the_trip_through_the_selector() {
    let found = Match {
        path: "/vault/a:b c.md".into(),
        rel: "a:b c.md".into(),
        line: 41,
        column: 3,
        text: "a line with: colons and\ttabs".into(),
    };
    let back = decode_match(&encode_match(&found), ROOT).unwrap();
    assert_eq!(back.path, found.path);
    assert_eq!((back.line, back.column), (41, 3));
    assert_eq!(back.rel, "a:b c.md");
    assert_eq!(back.text, "a line with: colons and tabs");
}

#[test]
fn a_quickfix_entry_is_file_line_column_text() {
    let found = parse_match("/vault/a.md:12:5:text", ROOT).unwrap();
    assert_eq!(quickfix_line(&found), "/vault/a.md:12:5:text");
}

#[test]
fn a_matched_line_cannot_colour_the_row_it_is_drawn_in() {
    let found = parse_match("/vault/a.md:1:1:red \x1b[31mhere", ROOT).unwrap();
    let (row, _) = match_row(&found, 10);
    assert!(!row.contains('\x1b'), "{row:?}");
    assert!(!quickfix_line(&found).contains('\x1b'));
}

#[test]
fn a_search_row_colours_where_the_match_is_and_not_what_it_says() {
    let found = parse_match("/vault/work/a.md:12:1:some words", ROOT).unwrap();
    let (row, tints) = match_row(&found, 20);
    let text = |tint: &Tint| -> String {
        row.chars()
            .skip(tint.range.start)
            .take(tint.range.len())
            .collect()
    };
    assert_eq!(text(&tints[0]), "work/a.md");
    assert_eq!(text(&tints[1]), ":12");
    assert!(row.contains("some words"));
    assert!(
        tints
            .iter()
            .all(|t| t.range.end <= "work/a.md:12".chars().count()),
        "the matched text is coloured over"
    );
}

#[test]
fn the_widest_location_sets_the_column() {
    let a = parse_match("/vault/a.md:1:1:x", ROOT).unwrap();
    let b = parse_match("/vault/work/b.md:120:1:y", ROOT).unwrap();
    assert_eq!(match_width(&[a, b]), "work/b.md:120".len());
    assert_eq!(match_width(&[]), 0);
}

#[test]
fn a_name_already_taken_takes_the_next_one() {
    let taken = |name: &str| ["a.md", "a-2.md"].contains(&name);
    assert_eq!(free_name("a.md", taken), "a-3.md");
    assert_eq!(free_name("b.md", taken), "b.md");
}

#[test]
fn a_name_with_no_extension_is_still_given_a_free_one() {
    assert_eq!(free_name("a", |name: &str| name == "a"), "a-2");
}

#[test]
fn a_hidden_file_name_is_numbered_whole() {
    assert_eq!(free_name(".md", |name: &str| name == ".md"), ".md-2");
}

const UTC: i32 = 0;

fn front(text: &str) -> Front {
    let (block, _) = split_front_matter(text);
    parse_front(block.expect("front matter"), UTC)
}

#[test]
fn tags_are_read_from_a_flow_sequence_a_block_sequence_or_a_bare_list() {
    for written in [
        "tags: [rust, til]",
        "tags:\n  - rust\n  - til",
        "tags:\n- rust\n- til",
        "tags: rust til",
        "tags: rust, til",
        "tags: [\"rust\", 'til']",
        "tag: #rust #til",
    ] {
        let parsed = front(&format!("---\n{written}\n---\n"));
        assert_eq!(parsed.tags, vec!["rust", "til"], "{written:?}");
    }
}

#[test]
fn a_tag_is_stored_without_the_hash_it_is_drawn_with() {
    let parsed = front("---\ntags: [\"#rust\"]\n---\n");
    assert_eq!(parsed.tags, vec!["rust"]);
    assert_eq!(note("a.md", parsed).tag_column(), "#rust");
}

#[test]
fn a_repeated_tag_is_listed_once() {
    assert_eq!(front("---\ntags: [a, b, a]\n---\n").tags, vec!["a", "b"]);
}

#[test]
fn a_sequence_under_another_key_is_not_read_as_tags() {
    let parsed = front("---\ntags:\n  - real\naliases:\n  - other\n  - names\n---\n");
    assert_eq!(parsed.tags, vec!["real"]);
}

#[test]
fn a_nested_mapping_is_skipped_rather_than_read_as_keys() {
    let parsed = front("---\nobsidian:\n  title: nested\ntitle: real\n---\n");
    assert_eq!(parsed.title.as_deref(), Some("real"));
}

#[test]
fn a_quoted_title_loses_its_quotes() {
    assert_eq!(
        front("---\ntitle: \"Error handling\"\n---\n")
            .title
            .as_deref(),
        Some("Error handling")
    );
}

#[test]
fn a_title_may_contain_a_colon() {
    assert_eq!(
        front("---\ntitle: Rust: error handling\n---\n")
            .title
            .as_deref(),
        Some("Rust: error handling")
    );
}

#[test]
fn a_created_date_becomes_local_midnight_on_the_day_it_names() {
    let offset = 2 * 3600;
    let (block, _) = split_front_matter("---\ncreated: 2024-03-01\n---\n");
    let parsed = parse_front(block.unwrap(), offset);
    assert_eq!(date(parsed.created.unwrap(), offset), "2024-03-01");
}

#[test]
fn a_created_value_carrying_a_time_still_names_a_day() {
    for written in ["2024-03-01T09:30:00", "2024-03-01 09:30", "\"2024-03-01\""] {
        let parsed = front(&format!("---\ncreated: {written}\n---\n"));
        assert_eq!(
            date(parsed.created.expect(written), UTC),
            "2024-03-01",
            "{written:?}"
        );
    }
}

#[test]
fn a_created_value_that_is_not_a_date_is_no_date_at_all() {
    for written in ["someday", "2024", "not-a-date-x", "2024-13-01"] {
        let parsed = front(&format!("---\ncreated: {written}\n---\n"));
        assert_eq!(parsed.created, None, "{written:?}");
    }
}

#[test]
fn a_vault_writing_date_rather_than_created_is_read_the_same_way() {
    let parsed = front("---\ndate: 2024-03-01\n---\n");
    assert_eq!(date(parsed.created.unwrap(), UTC), "2024-03-01");
}

#[test]
fn the_first_date_written_wins() {
    let parsed = front("---\ncreated: 2024-03-01\ndate: 2020-01-01\n---\n");
    assert_eq!(date(parsed.created.unwrap(), UTC), "2024-03-01");
}

#[test]
fn front_matter_that_is_not_ascii_parses() {
    let parsed = front("---\ntitle: Årsmøte\ntags: [løsning, ærlig, 日本語]\n---\n");
    assert_eq!(parsed.title.as_deref(), Some("Årsmøte"));
    assert_eq!(parsed.tags, vec!["løsning", "ærlig", "日本語"]);
}

#[test]
fn the_created_date_leads_the_row_without_being_searched() {
    let notes = vault();
    assert_eq!(prefix(&notes[0], UTC), "1971-02-05  ");
    assert!(!row(&notes[0]).contains("1971"));
}

#[test]
fn every_date_column_is_the_same_width() {
    let widths: Vec<usize> = vault()
        .iter()
        .map(|n| prefix(n, UTC).chars().count())
        .collect();
    assert!(widths.windows(2).all(|w| w[0] == w[1]), "{widths:?}");
}

#[test]
fn a_status_row_leads_with_a_readable_path_and_ends_with_both_dates() {
    let notes = vault();
    let widths = Widths {
        path: "~/work/meetings/standup.md".chars().count(),
        group: 7,
        tags: 6,
        ..Widths::default()
    };
    let row = status_row(&notes[0], None, &widths, UTC, "/vault");
    assert!(row.starts_with("~/work/meetings/standup.md"), "{row:?}");
    assert!(row.contains("work"), "{row:?}");
    assert!(row.contains("#daily"), "{row:?}");
    assert!(row.ends_with("1971-02-05"), "{row:?}");
}

#[test]
fn a_generated_name_is_the_date_and_time() {
    assert_eq!(generated_name(0, UTC), "1970-01-01-0000.md");
    assert_eq!(generated_name(3 * 3600 + 25 * 60, UTC), "1970-01-01-0325.md");
}

#[test]
fn a_moment_no_calendar_holds_is_blank_but_keeps_its_width() {
    assert_eq!(date(i64::MAX, UTC), "          ");
    assert_eq!(generated_name(i64::MIN, UTC), "note.md");
}

#[test]
fn a_labelled_note_takes_its_labels_colour_and_an_unlabelled_one_takes_none() {
    let notes = vault();
    assert_eq!(row_color(&notes[0], Some("work"), Some(6)), Some(6));
    assert_eq!(row_color(&notes[1], None, Some(6)), None);
    assert_eq!(row_color(&notes[2], None, None), None);
}

#[test]
fn the_group_column_is_the_label_or_the_directory_that_has_none() {
    let notes = vault();
    assert_eq!(notes[0].group(Some("work")), "work");
    assert!(notes[0].labelled(Some("work")));
    assert_eq!(notes[1].group(None), "scratch");
    assert!(!notes[1].labelled(None));
    assert_eq!(notes[2].group(None), "");
}

#[test]
fn note_column_width_counts_characters_not_bytes() {
    let notes = vec![note("café.md", Front::default()), note("a.md", Front::default())];
    assert_eq!(Widths::of(&notes, &[None, None], "/vault").title, "café".chars().count());
}

#[test]
fn a_name_that_is_not_ascii_does_not_panic_anywhere() {
    let names = [
        "Løsninger",
        "Møtereferat",
        "Størrelsesorden",
        "ø",
        "Untitled ø",
        "Untitledø",
        "ÅRSMØTE",
        "日本語のノート",
        "café",
        "naïveté",
        "emoji 🎉 note",
        "Prosjektø",
    ];
    for name in names {
        for rel in [
            format!("{name}.md"),
            format!("{name}/{name}.md"),
            format!("work/{name}.md"),
            format!("{name}/deeper/{name}.md"),
        ] {
            let note = note(&rel, Front::default());
            let _ = note.title();
            let _ = note.group(None);
            let _ = note.tag_column();
            let _ = note.shown("/home/me");
            let _ = row(&note);
            let _ = prefix(&note, UTC);
            let _ = junk(&note, "", SCRATCH);
            let _ = junk(&note, &"word ".repeat(20), SCRATCH);
            let widths = Widths::of(std::slice::from_ref(&note), &[None], "/home/me");
            let _ = status_row(&note, None, &widths, UTC, "/home/me");
            let _ = junk_row(&note, Junk::Untitled, 10, &widths);
        }
    }
}

#[test]
fn a_match_path_is_taken_below_the_root_by_component() {
    let found = parse_match("/vault//work/a.md:3:1:text", "/vault").unwrap();
    assert_eq!(found.rel, "work/a.md");
}
