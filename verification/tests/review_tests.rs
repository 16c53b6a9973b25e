use cortex::review::{ReviewLoop, ReviewStep, MAX_REVIEW_ATTEMPTS};
use cortex::jsonx::{
    extract_braced, extract_bracketed, parse_merge_response, parse_review,
    parse_structure_response, parse_title_response, parse_update_response,
};

#[test]
fn a_passing_draft_is_accepted() {
    let mut l = ReviewLoop::new();
    assert_eq!(l.budget, MAX_REVIEW_ATTEMPTS);
    assert!(matches!(l.on_verdict(true), ReviewStep::Accept));
    assert_eq!(l.attempts, 1);
}

#[test]
fn rejections_retry_until_the_budget_forces_acceptance() {
    let mut l = ReviewLoop::new();
    assert!(matches!(l.on_verdict(false), ReviewStep::Retry));
    assert!(matches!(l.on_verdict(false), ReviewStep::Retry));
    // The third rejection exhausts the budget: the draft is kept anyway.
    assert!(matches!(l.on_verdict(false), ReviewStep::ForceAccept));
    assert_eq!(l.attempts, 3);
    assert!(!l.can_attempt());
}

#[test]
fn a_late_pass_still_accepts() {
    let mut l = ReviewLoop::new();
    assert!(matches!(l.on_verdict(false), ReviewStep::Retry));
    assert!(matches!(l.on_verdict(true), ReviewStep::Accept));
}

#[test]
fn braced_span_extraction() {
    assert_eq!(
        extract_braced("noise {\"a\": 1} trailing").as_deref(),
        Some("{\"a\": 1}"),
    );
    assert_eq!(
        extract_braced("```json\n{\"a\": {\"b\": 2}}\n```").as_deref(),
        Some("{\"a\": {\"b\": 2}}"),
    );
    assert!(extract_braced("no json here").is_none());
    assert!(extract_braced("} reversed {").is_none());
    assert_eq!(
        extract_bracketed("plan: [[1,2],[3]] done").as_deref(),
        Some("[[1,2],[3]]"),
    );
}

#[test]
fn review_reply_parses_pass_and_critique() {
    let v = parse_review("{ \"pass\": false, \"critique\": \"too vague\" }");
    assert!(!v.pass);
    assert_eq!(v.critique, "too vague");
    let v = parse_review("reply text { \"pass\": true, \"critique\": \"fine\" }");
    assert!(v.pass);
}

#[test]
fn malformed_review_reply_defaults_to_pass() {
    let v = parse_review("total nonsense");
    assert!(v.pass);
    assert_eq!(v.critique, "JSON Parse Error");
    let v = parse_review("{ not json }");
    assert!(v.pass);
}

#[test]
fn merge_reply_parses_title_and_summary() {
    let r = parse_merge_response("{ \"title\": \"T\", \"summary\": \"S\" }");
    assert_eq!(r, Some(("T".to_string(), "S".to_string())));
    assert!(parse_merge_response("{ \"title\": \"T\" }").is_none());
    assert!(parse_merge_response("garbage").is_none());
}

#[test]
fn update_reply_yields_summary_only_on_affirmation() {
    let r = parse_update_response(
        "{ \"has_update\": true, \"update_summary\": \"new numbers\" }",
    );
    assert_eq!(r.as_deref(), Some("new numbers"));
    assert!(parse_update_response("{ \"has_update\": false, \"update_summary\": \"x\" }")
        .is_none());
    assert!(parse_update_response("not json").is_none());
}

#[test]
fn title_reply_parses_the_title_field() {
    assert_eq!(
        parse_title_response("{ \"title\": \"Big Event / Other Event\" }").as_deref(),
        Some("Big Event / Other Event"),
    );
    assert!(parse_title_response("just words").is_none());
}

#[test]
fn structure_reply_parses_a_two_dimensional_array() {
    let g = parse_structure_response("here is the plan: [[3,1,4],[2]] thanks").unwrap();
    assert_eq!(g, vec![vec![3, 1, 4], vec![2]]);
    assert!(parse_structure_response("no arrays at all").is_none());
}
