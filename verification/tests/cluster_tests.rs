use cortex::cluster::{ClusterData, PendingNewsItem};

fn item(title: &str, link: &str, desc: &str, cat: &str) -> PendingNewsItem {
    PendingNewsItem {
        title: title.to_string(),
        link: link.to_string(),
        description: desc.to_string(),
        category: cat.to_string(),
        source_name: Some("Wire".to_string()),
        timestamp: 1000,
    }
}

#[test]
fn new_cluster_has_no_related_items() {
    let c = ClusterData::new(item("X", "http://x", "dx", "Tech"));
    assert_eq!(c.related_items.len(), 0);
    assert_eq!(c.main_item.title, "X");
    assert!(c.merged_summary.is_none());
}

#[test]
fn add_related_grows_by_one_and_keeps_main() {
    let mut c = ClusterData::with_id_at(item("X", "http://x", "dx", "Tech"), "c1".to_string(), 50);
    assert_eq!(c.related_items.len(), 0);
    c.add_related(item("Y", "http://y", "dy", "Tech"));
    assert_eq!(c.related_items.len(), 1);
    assert_eq!(c.related_items[0].title, "Y");
    assert_eq!(c.main_item.title, "X");
    assert_eq!(c.id, "c1");
    assert_eq!(c.created_at, 50);
}

#[test]
fn merge_overwrites_title_and_summary_but_not_fingerprint() {
    let mut c = ClusterData::with_id_at(item("X", "http://x", "dx", "Tech"), "c1".to_string(), 50);
    let before_hash = c.simhash;
    c.add_related(item("Y", "http://y", "dy", "Tech"));
    c.set_merged_summary("X and Y".to_string(), "combined".to_string());
    assert_eq!(c.main_item.title, "X and Y");
    assert_eq!(c.merged_summary.as_deref(), Some("combined"));
    // The coarse-filter fingerprint is intentionally left stale.
    assert_eq!(c.simhash, before_hash);
    assert_eq!(c.related_items.len(), 1);
}

#[test]
fn fingerprint_comes_from_main_item_text() {
    let c = ClusterData::with_id_at(item("T", "http://t", "D", "Tech"), "id".to_string(), 1);
    assert_eq!(c.simhash, ClusterData::calculate_simhash("T", "D"));
}
