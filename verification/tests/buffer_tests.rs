use cortex::buffer::NewsBuffer;
use cortex::cluster::{ClusterData, PendingNewsItem};

fn item(title: &str, link: &str, desc: &str, cat: &str) -> PendingNewsItem {
    PendingNewsItem {
        title: title.to_string(),
        link: link.to_string(),
        description: desc.to_string(),
        category: cat.to_string(),
        source_name: None,
        timestamp: 0,
    }
}

fn cluster(title: &str, cat: &str, id: &str, at: u64) -> ClusterData {
    ClusterData::with_id_at(item(title, "http://l", "d", cat), id.to_string(), at)
}

#[test]
fn store_and_list_by_category() {
    let mut buf = NewsBuffer::new();
    buf.store_cluster(cluster("a", "Tech", "1", 10));
    buf.store_cluster(cluster("b", "Tech", "2", 20));
    buf.store_cluster(cluster("c", "Econ", "3", 30));
    assert_eq!(buf.get_category_clusters("Tech").len(), 2);
    assert_eq!(buf.get_category_clusters("Econ").len(), 1);
    assert_eq!(buf.get_category_clusters("None").len(), 0);
}

#[test]
fn store_upserts_by_key() {
    let mut buf = NewsBuffer::new();
    buf.store_cluster(cluster("a", "Tech", "1", 10));
    let mut updated = cluster("a2", "Tech", "1", 10);
    updated.add_related(item("rel", "http://r", "d", "Tech"));
    buf.store_cluster(updated);
    let got = buf.get_category_clusters("Tech");
    assert_eq!(got.len(), 1);
    assert_eq!(got[0].main_item.title, "a2");
    assert_eq!(got[0].related_items.len(), 1);
}

#[test]
fn find_similar_stays_in_category() {
    let mut buf = NewsBuffer::new();
    buf.store_cluster(cluster("same text", "Tech", "1", 10));
    buf.store_cluster(cluster("same text", "Econ", "2", 10));
    let h = ClusterData::calculate_simhash("same text", "d");
    // Even with the loosest threshold, only the queried category comes back.
    let found = buf.find_similar_clusters("Tech", h, 65);
    assert_eq!(found.len(), 1);
    assert_eq!(found[0].main_item.category, "Tech");
    let found_econ = buf.find_similar_clusters("Econ", h, 65);
    assert_eq!(found_econ.len(), 1);
    assert_eq!(found_econ[0].main_item.category, "Econ");
}

#[test]
fn find_similar_respects_threshold() {
    let mut buf = NewsBuffer::new();
    buf.store_cluster(cluster("alpha", "Tech", "1", 10));
    let h = buf.get_category_clusters("Tech")[0].simhash;
    assert_eq!(buf.find_similar_clusters("Tech", h, 1).len(), 1);
    assert_eq!(buf.find_similar_clusters("Tech", h ^ 0b111, 3).len(), 0);
    assert_eq!(buf.find_similar_clusters("Tech", h ^ 0b111, 4).len(), 1);
}

#[test]
fn stats_count_and_oldest() {
    let mut buf = NewsBuffer::new();
    buf.store_cluster(cluster("a", "Tech", "1", 50));
    buf.store_cluster(cluster("b", "Tech", "2", 20));
    buf.store_cluster(cluster("c", "Econ", "3", 99));
    let stats = buf.get_category_stats();
    assert_eq!(stats.len(), 2);
    for st in &stats {
        if st.category == "Tech" {
            assert_eq!(st.count, 2);
            assert_eq!(st.oldest, 20);
        } else {
            assert_eq!(st.category, "Econ");
            assert_eq!(st.count, 1);
            assert_eq!(st.oldest, 99);
        }
    }
}

#[test]
fn remove_clusters_removes_exactly_the_listed_ids() {
    let mut buf = NewsBuffer::new();
    buf.store_cluster(cluster("a", "Tech", "1", 10));
    buf.store_cluster(cluster("b", "Tech", "2", 20));
    buf.store_cluster(cluster("c", "Econ", "3", 30));
    buf.remove_clusters("Tech", &vec!["1".to_string()]);
    let tech = buf.get_category_clusters("Tech");
    assert_eq!(tech.len(), 1);
    assert_eq!(tech[0].id, "2");
    assert_eq!(buf.get_category_clusters("Econ").len(), 1);
}

#[test]
fn pop_category_empties_it_and_keeps_others() {
    let mut buf = NewsBuffer::new();
    buf.store_cluster(cluster("a", "Tech", "1", 10));
    buf.store_cluster(cluster("b", "Econ", "2", 20));
    let popped = buf.pop_category_clusters("Tech");
    assert_eq!(popped.len(), 1);
    assert_eq!(popped[0].id, "1");
    assert_eq!(buf.get_category_clusters("Tech").len(), 0);
    assert_eq!(buf.get_category_clusters("Econ").len(), 1);
}

#[test]
fn link_tracking_marks_and_prunes() {
    let mut buf = NewsBuffer::new();
    assert!(!buf.has_processed_link("http://a"));
    buf.mark_link_processed("http://a", 100);
    assert!(buf.has_processed_link("http://a"));
    // Within the retention window nothing is pruned.
    assert_eq!(buf.prune_old_links(50, 150), 0);
    assert!(buf.has_processed_link("http://a"));
    // One second past the window the entry goes.
    assert_eq!(buf.prune_old_links(50, 151), 1);
    assert!(!buf.has_processed_link("http://a"));
}

#[test]
fn exported_clusters_and_links_rebuild_the_same_buffer() {
    let mut buf = NewsBuffer::new();
    buf.store_cluster(cluster("a", "Tech", "1", 10));
    buf.store_cluster(cluster("b", "Econ", "2", 20));
    buf.mark_link_processed("http://a", 100);
    let mut rebuilt = NewsBuffer::new();
    for c in buf.clusters_list() {
        rebuilt.store_cluster(c);
    }
    for (link, ts) in buf.link_entries() {
        rebuilt.mark_link_processed(&link, ts);
    }
    assert_eq!(rebuilt.get_category_clusters("Tech").len(), 1);
    assert_eq!(rebuilt.get_category_clusters("Econ").len(), 1);
    assert!(rebuilt.has_processed_link("http://a"));
}

#[test]
fn marking_again_refreshes_the_timestamp() {
    let mut buf = NewsBuffer::new();
    buf.mark_link_processed("http://a", 100);
    buf.mark_link_processed("http://a", 200);
    // Pruning at a time that would have dropped the first sighting keeps
    // the refreshed one.
    assert_eq!(buf.prune_old_links(50, 151), 0);
    assert!(buf.has_processed_link("http://a"));
}
