use cortex::episode::{
    apply_compression, category_from_title, clamp_segment, draft_too_short, episode_title,
    extract_last_sentence, fallback_groups, flatten, holiday_context, items_for_group,
    needs_compression, split_title_line, time_period_of_hour, validate_structure,
};
use cortex::flush::BroadcastItem;

fn story(id: usize, title: &str) -> BroadcastItem {
    BroadcastItem {
        id,
        title: title.to_string(),
        summary: "s".to_string(),
        source_name: "Wire".to_string(),
        original_url: "http://u".to_string(),
        is_update: false,
    }
}

#[test]
fn structure_validation_accepts_exact_permutations_only() {
    let ids = vec![1, 2, 3, 4, 5];
    assert!(validate_structure(&vec![vec![3, 1, 4], vec![2], vec![5]], &ids));
    // Missing one identifier.
    assert!(!validate_structure(&vec![vec![3, 1, 4], vec![2]], &ids));
    // An identifier from nowhere.
    assert!(!validate_structure(&vec![vec![3, 1, 4], vec![2], vec![6]], &ids));
    // Right length, wrong multiset.
    assert!(!validate_structure(&vec![vec![3, 1, 4], vec![2], vec![2]], &ids));
    // An empty group.
    assert!(!validate_structure(&vec![vec![3, 1, 4, 2, 5], vec![]], &ids));
}

#[test]
fn fallback_groups_chunk_in_original_order() {
    let ids = vec![1, 2, 3, 4, 5, 6, 7, 8, 9];
    let groups = fallback_groups(&ids);
    assert_eq!(groups, vec![vec![1, 2, 3, 4], vec![5, 6, 7, 8], vec![9]]);
    assert_eq!(flatten(&groups), ids);
    assert!(validate_structure(&groups, &ids));
    let empty: Vec<usize> = vec![];
    assert_eq!(fallback_groups(&empty).len(), 0);
}

#[test]
fn group_selection_follows_the_plan_and_skips_unknown_ids() {
    let items = vec![story(1, "one"), story(2, "two"), story(3, "three")];
    let picked = items_for_group(&items, &vec![3, 1, 9]);
    assert_eq!(picked.len(), 2);
    assert_eq!(picked[0].title, "three");
    assert_eq!(picked[1].title, "one");
}

#[test]
fn summary_compression_threshold_and_application() {
    let short = "a".repeat(180);
    let long = "a".repeat(181);
    assert!(!needs_compression(&short));
    assert!(needs_compression(&long));
    let mut it = story(1, "t");
    apply_compression(&mut it, "  compressed text  ");
    assert_eq!(it.summary, "compressed text");
    assert_eq!(it.title, "t");
}

#[test]
fn episode_title_prefers_parsed_then_raw_then_generic() {
    assert_eq!(
        episode_title(Some("  Key Event / Other  ".to_string()), "ignored", "Tech"),
        "Key Event / Other",
    );
    assert_eq!(episode_title(None, "  Short headline  ", "Tech"), "Short headline");
    let dump = "x".repeat(101);
    assert_eq!(episode_title(None, &dump, "Tech"), "Tech News Briefing");
    assert_eq!(episode_title(None, "line one\nline two", "Tech"), "Tech News Briefing");
}

#[test]
fn title_header_line_is_split_off() {
    let (t, body) = split_title_line("TITLE: Apple hits a record\nThe script body.");
    assert_eq!(t.as_deref(), Some("Apple hits a record"));
    assert_eq!(body, "The script body.");
    let (t, body) = split_title_line("No header at all.");
    assert!(t.is_none());
    assert_eq!(body, "No header at all.");
    // A header without a body line is left alone.
    let (t, body) = split_title_line("TITLE: only a header");
    assert!(t.is_none());
    assert_eq!(body, "TITLE: only a header");
    // Repeated markers are stripped like a single one.
    let (t, _) = split_title_line("TITLE:TITLE: Doubled\nbody");
    assert_eq!(t.as_deref(), Some("Doubled"));
}

#[test]
fn last_sentence_threads_the_trailing_context() {
    let s = "\u{7b2c}\u{4e00}\u{53e5}\u{3002}\u{7b2c}\u{4e8c}\u{53e5}\u{ff01}";
    // The last non-empty segment, trimmed of the terminator.
    assert_eq!(extract_last_sentence(s), "\u{7b2c}\u{4e8c}\u{53e5}");
    assert_eq!(extract_last_sentence("no terminator here"), "no terminator here");
    assert_eq!(extract_last_sentence(""), "");
    // Trailing white space after the last terminator is skipped over.
    let s2 = "\u{7b2c}\u{4e00}\u{53e5}\u{3002}   ";
    assert_eq!(extract_last_sentence(s2), "\u{7b2c}\u{4e00}\u{53e5}");
    // The context is capped at one hundred characters.
    let long = "b".repeat(300);
    assert_eq!(extract_last_sentence(&long).chars().count(), 100);
}

#[test]
fn a_draft_under_ten_bytes_is_rejected_without_review() {
    assert!(draft_too_short(""));
    assert!(draft_too_short("   short "));
    assert!(draft_too_short("123456789"));
    assert!(!draft_too_short("1234567890"));
    assert!(!draft_too_short("a perfectly reviewable draft"));
}

#[test]
fn runaway_segments_are_truncated_at_the_byte_budget() {
    let fine = "a".repeat(5000);
    let (kept, overlong) = clamp_segment(&fine);
    assert!(!overlong);
    assert_eq!(kept, fine);
    let runaway = "a".repeat(5001);
    let (kept, overlong) = clamp_segment(&runaway);
    assert!(overlong);
    assert_eq!(kept.len(), 5000);
}

#[test]
fn holiday_table_matches_the_fixed_dates() {
    // New Year's Day by the solar date.
    let g = holiday_context(1, 1, None);
    assert!(g.contains("\u{5143}\u{65e6}"));
    assert!(g.starts_with("\u{7279}\u{522b}\u{63d0}\u{793a}\u{ff1a}"));
    // Mid-Autumn by the lunisolar date.
    let g = holiday_context(9, 29, Some((8, 15)));
    assert!(g.contains("\u{4e2d}\u{79cb}"));
    // Spring Festival.
    let g = holiday_context(2, 10, Some((1, 1)));
    assert!(g.contains("\u{6625}\u{8282}"));
    // An ordinary day gives no greeting at all.
    assert_eq!(holiday_context(3, 14, Some((2, 3))), "");
}

#[test]
fn time_period_table() {
    assert_eq!(time_period_of_hour(3), "\u{6df1}\u{591c}");
    assert_eq!(time_period_of_hour(8), "\u{65e9}\u{4e0a}");
    assert_eq!(time_period_of_hour(13), "\u{4e2d}\u{5348}");
    assert_eq!(time_period_of_hour(15), "\u{4e0b}\u{5348}");
    assert_eq!(time_period_of_hour(20), "\u{665a}\u{4e0a}");
    assert_eq!(time_period_of_hour(23), "\u{6df1}\u{591c}");
}

#[test]
fn category_is_read_from_a_job_title() {
    assert_eq!(category_from_title("Tech - Smart Daily"), "Tech");
    assert_eq!(category_from_title("No separator"), "Other");
}
