use cortex::trace::TraceContext;

#[test]
fn steps_accumulate_in_order() {
    let mut t = TraceContext::new("Tech");
    assert_eq!(t.steps.len(), 0);
    t.log("start", "producing");
    t.log_llm("plan", "first attempt", "the prompt", "the reply");
    assert_eq!(t.steps.len(), 2);
    assert_eq!(t.steps[0].step_name, "start");
    assert!(t.steps[0].llm_prompt.is_none());
    assert_eq!(t.steps[1].llm_prompt.as_deref(), Some("the prompt"));
    assert_eq!(t.steps[1].llm_response.as_deref(), Some("the reply"));
}

#[test]
fn the_slug_is_the_category_head() {
    assert_eq!(TraceContext::new("Technology").slug(), "Tech");
    assert_eq!(TraceContext::new("AI").slug(), "AI");
}
