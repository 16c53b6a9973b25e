use cortex::textproc::{contains_yes, has_prefix, is_skip, titles_match, trimmed_eq};
use cortex::tts_clean::clean_for_tts;

#[test]
fn titles_match_ignores_space_and_ascii_case() {
    assert!(titles_match("  Apple Event ", "apple event"));
    assert!(titles_match("SAME", "same"));
    assert!(!titles_match("Apple Event", "Apple Events"));
    assert!(titles_match("", "   "));
}

#[test]
fn trimmed_equality_is_exact_inside_the_trim() {
    assert!(trimmed_eq("  body text ", "body text"));
    assert!(!trimmed_eq("Body text", "body text"));
    assert!(!trimmed_eq("body", "body text"));
}

#[test]
fn affirmative_replies_are_recognised() {
    assert!(contains_yes("YES"));
    assert!(contains_yes("  yes.  "));
    assert!(contains_yes("Well, Yes indeed"));
    assert!(!contains_yes("NO"));
    assert!(!contains_yes("maybe"));
}

#[test]
fn skip_marker_or_a_too_short_script_skips() {
    assert!(is_skip("SKIP"));
    assert!(is_skip("The editor said: SKIP this one because nothing is newsworthy."));
    assert!(is_skip("short"));
    assert!(is_skip("   "));
    assert!(!is_skip("A perfectly fine script that is long enough to publish."));
    // The marker is case sensitive, as a deliberate explicit signal.
    assert!(!is_skip("please skip this episode of ours"));
}

#[test]
fn date_prefixes_identify_todays_items() {
    assert!(has_prefix("2026-10-09T08:00:00Z", "2026-10-09"));
    assert!(!has_prefix("2026-10-08T23:59:00Z", "2026-10-09"));
    assert!(has_prefix("anything", ""));
    assert!(!has_prefix("shor", "short"));
}

#[test]
fn markup_is_scrubbed_before_synthesis() {
    assert_eq!(clean_for_tts("**bold** and #tag"), "bold and tag");
    assert_eq!(clean_for_tts("see [the report](http://x) now"), "see  now");
    assert_eq!(clean_for_tts("fact (Source: Wire) stands"), "fact  stands");
    assert_eq!(clean_for_tts("fact (source: Wire) stands"), "fact  stands");
    assert_eq!(
        clean_for_tts(
            "\u{4e8b}\u{5b9e}\u{ff08}\u{6765}\u{6e90}\u{ff1a}\u{67d0}\u{62a5}\u{ff09}\u{6210}\u{7acb}"
        ),
        "\u{4e8b}\u{5b9e}\u{6210}\u{7acb}"
    );
}

#[test]
fn unmatched_markup_is_left_alone() {
    assert_eq!(clean_for_tts("an [unclosed bracket"), "an [unclosed bracket");
    assert_eq!(clean_for_tts("plain (parenthetical) text"), "plain (parenthetical) text");
    assert_eq!(clean_for_tts("(source without a colon)"), "(source without a colon)");
}
