use cortex::registry::{TopicRegistry, TOPIC_TTL_SECS};

#[test]
fn exported_entries_rebuild_the_same_registry() {
    let mut reg = TopicRegistry::new();
    reg.record_topic_with_details_at("Company ships a new device", "T1", "S1", 1000);
    reg.record_topic_with_details_at("A different long report about satellites", "T2", "S2", 2000);
    let mut rebuilt = TopicRegistry::new();
    for (hash, rec) in reg.entries() {
        rebuilt.restore_entry(hash, rec);
    }
    let hit = rebuilt.is_duplicate("Company ships a new device").unwrap();
    assert_eq!(hit.title, "T1");
    let hit = rebuilt.is_duplicate("A different long report about satellites").unwrap();
    assert_eq!(hit.title, "T2");
    assert_eq!(rebuilt.entries().len(), 2);
}

#[test]
fn a_bare_record_is_found_again() {
    let mut reg = TopicRegistry::new();
    reg.record_topic("Company ships a new device");
    let rec = reg.is_duplicate("Company ships a new device").unwrap();
    assert_eq!(rec.title, "");
    assert_eq!(rec.summary, "");
}

#[test]
fn recorded_topic_is_a_duplicate() {
    let mut reg = TopicRegistry::new();
    reg.record_topic_with_details_at("Company ships a new device", "Title", "Summary", 1000);
    let hit = reg.is_duplicate("Company ships a new device");
    assert!(hit.is_some());
    let rec = hit.unwrap();
    assert_eq!(rec.title, "Title");
    assert_eq!(rec.summary, "Summary");
    assert_eq!(rec.timestamp, 1000);
}

#[test]
fn prune_right_after_recording_keeps_the_record() {
    let mut reg = TopicRegistry::new();
    reg.record_topic_with_details_at("Company ships a new device", "T", "S", 1000);
    let removed = reg.prune_at(1000);
    assert_eq!(removed, 0);
    assert!(reg.is_duplicate("Company ships a new device").is_some());
}

#[test]
fn prune_past_retention_removes_and_forgets() {
    let mut reg = TopicRegistry::new();
    reg.record_topic_with_details_at("Company ships a new device", "T", "S", 1000);
    // At the edge of the window the record survives.
    assert_eq!(reg.prune_at(1000 + TOPIC_TTL_SECS), 0);
    assert!(reg.is_duplicate("Company ships a new device").is_some());
    // One second past it the record goes, and the text is unknown again.
    assert_eq!(reg.prune_at(1000 + TOPIC_TTL_SECS + 1), 1);
    assert!(reg.is_duplicate("Company ships a new device").is_none());
}

#[test]
fn recording_same_text_overwrites() {
    let mut reg = TopicRegistry::new();
    reg.record_topic_with_details_at("One topic text here", "T1", "S1", 1000);
    reg.record_topic_with_details_at("One topic text here", "T2", "S2", 2000);
    let rec = reg.is_duplicate("One topic text here").unwrap();
    assert_eq!(rec.title, "T2");
    assert_eq!(rec.timestamp, 2000);
    // A refreshed record survives a prune that would have dropped the old one.
    assert_eq!(reg.prune_at(1000 + TOPIC_TTL_SECS + 1), 0);
}

#[test]
fn unrelated_text_is_not_a_duplicate() {
    let mut reg = TopicRegistry::new();
    reg.record_topic_with_details_at(
        "A very long report about semiconductor supply chains in several regions",
        "T",
        "S",
        1000,
    );
    assert!(reg
        .is_duplicate("Completely different weather outlook for the coastal cities tomorrow")
        .is_none());
}
