use cortex::buffer::NewsBuffer;
use cortex::cluster::{ClusterData, PendingNewsItem};
use cortex::flush::{flush_candidates, should_flush, should_run_cycle, TriageFlow, TriageStep};
use cortex::registry::TopicRegistry;

fn item(title: &str, link: &str, desc: &str, cat: &str) -> PendingNewsItem {
    PendingNewsItem {
        title: title.to_string(),
        link: link.to_string(),
        description: desc.to_string(),
        category: cat.to_string(),
        source_name: Some("Wire".to_string()),
        timestamp: 0,
    }
}

fn cluster(title: &str, desc: &str, cat: &str, id: &str, at: u64) -> ClusterData {
    ClusterData::with_id_at(item(title, "http://l", desc, cat), id.to_string(), at)
}

#[test]
fn nine_young_clusters_do_not_flush_a_tenth_does() {
    let now: u64 = 100_000;
    let mut buf = NewsBuffer::new();
    for i in 0..9 {
        let id = format!("c{}", i);
        let title = format!("story {}", i);
        // All younger than the six-hour wait limit.
        buf.store_cluster(cluster(&title, "d", "Tech", &id, now - 100));
    }
    let stats = buf.get_category_stats();
    let cats = flush_candidates(&stats, now);
    assert!(cats.is_empty());

    buf.store_cluster(cluster("story 9", "d", "Tech", "c9", now - 100));
    let stats = buf.get_category_stats();
    let cats = flush_candidates(&stats, now);
    assert_eq!(cats, vec!["Tech".to_string()]);
}

#[test]
fn an_old_cluster_flushes_by_wait_time() {
    let now: u64 = 100_000;
    assert!(!should_flush(1, now - 21_600, now));
    assert!(should_flush(1, now - 21_601, now));
    assert!(should_flush(10, now, now));
}

#[test]
fn cycle_scheduling_follows_the_timetable() {
    // The first tick after startup always runs.
    assert!(should_run_cycle(true, &None, "09:00", "2026-10-09:09:00", ""));
    // Without a schedule every tick runs.
    assert!(should_run_cycle(false, &None, "09:00", "2026-10-09:09:00", ""));
    let sched = Some(vec!["08:00".to_string(), "18:00".to_string()]);
    // At a listed time that has not run yet.
    assert!(should_run_cycle(false, &sched, "08:00", "2026-10-09:08:00", ""));
    // The same minute never runs twice.
    assert!(!should_run_cycle(
        false,
        &sched,
        "08:00",
        "2026-10-09:08:00",
        "2026-10-09:08:00",
    ));
    // An unlisted time never runs.
    assert!(!should_run_cycle(false, &sched, "09:30", "2026-10-09:09:30", ""));
}

#[test]
fn category_below_minimum_is_postponed_outright() {
    let clusters = vec![
        cluster("a", "d", "Tech", "1", 10),
        cluster("b", "d", "Tech", "2", 20),
    ];
    assert!(TriageFlow::begin("Tech", clusters).is_none());
}

#[test]
fn two_eligible_topics_postpone_and_nothing_is_removed() {
    let now: u64 = 5_000;
    let mut buf = NewsBuffer::new();
    // Five clusters; three of their topics were already broadcast and have
    // nothing new, so only two stay eligible.
    let texts = [
        "first unique story about chips and fabs",
        "second unique story about satellites in orbit",
        "third already covered story about earnings season",
        "fourth already covered story about a data breach",
        "fifth already covered story about an acquisition",
    ];
    for (i, t) in texts.iter().enumerate() {
        let id = format!("c{}", i);
        buf.store_cluster(cluster(t, "details", "Tech", &id, 100));
    }
    let mut reg = TopicRegistry::new();
    for t in &texts[2..] {
        let combined = format!("{} details", t);
        reg.record_topic_with_details_at(&combined, t, "details", now - 10);
    }
    let fetched = buf.get_category_clusters("Tech");
    let mut flow = TriageFlow::begin("Tech", fetched).unwrap();
    let mut postponed = false;
    loop {
        match flow.advance(&mut reg, now) {
            TriageStep::NeedUpdateCheck { index: _, prev: _ } => {
                // The collaborator finds nothing substantially new.
                flow.on_update(&mut reg, now, None);
            },
            TriageStep::Included => {},
            TriageStep::Postponed => {
                postponed = true;
                break;
            },
            TriageStep::Ready => {
                panic!("two eligible topics must postpone");
            },
        }
    }
    assert!(postponed);
    assert_eq!(flow.items.len(), 2);
    // Nothing was removed from the buffer: all five clusters are retained.
    assert_eq!(buf.get_category_clusters("Tech").len(), 5);
}

#[test]
fn five_eligible_topics_produce_and_ack_removes_exactly_them() {
    let now: u64 = 5_000;
    let mut buf = NewsBuffer::new();
    let texts = [
        "first unique story about chips and fabs",
        "second unique story about satellites in orbit",
        "third unique story about earnings season",
        "fourth unique story about a data breach",
        "fifth unique story about an acquisition",
    ];
    for (i, t) in texts.iter().enumerate() {
        let id = format!("c{}", i);
        buf.store_cluster(cluster(t, "details", "Tech", &id, 100));
    }
    // One further Tech topic was already broadcast and has nothing new:
    // it is ineligible, and must be retained through the acknowledgment.
    let stale = "sixth already covered story about a recall";
    buf.store_cluster(cluster(stale, "details", "Tech", "c5", 100));
    buf.store_cluster(cluster("unrelated econ story", "d", "Econ", "e1", 100));
    let mut reg = TopicRegistry::new();
    reg.record_topic_with_details_at(
        &format!("{} details", stale),
        stale,
        "details",
        now - 10,
    );
    let fetched = buf.get_category_clusters("Tech");
    let mut flow = TriageFlow::begin("Tech", fetched).unwrap();
    loop {
        match flow.advance(&mut reg, now) {
            TriageStep::NeedUpdateCheck { index: _, prev: _ } => {
                flow.on_update(&mut reg, now, None);
            },
            TriageStep::Included => {},
            TriageStep::Ready => break,
            TriageStep::Postponed => panic!("five fresh topics must be ready"),
        }
    }
    assert_eq!(flow.items.len(), 5);
    assert!(flow.items.iter().all(|b| !b.is_update));
    // Confirmed delivery: acknowledge exactly the included clusters; the
    // discarded one stays in the buffer.
    let ids = flow.included_cluster_ids();
    assert_eq!(ids.len(), 5);
    buf.remove_clusters("Tech", &ids);
    let left = buf.get_category_clusters("Tech");
    assert_eq!(left.len(), 1);
    assert_eq!(left[0].id, "c5");
    assert_eq!(buf.get_category_clusters("Econ").len(), 1);
}

#[test]
fn follow_up_with_fresh_information_is_flagged() {
    let now: u64 = 5_000;
    let mut reg = TopicRegistry::new();
    let texts = [
        "alpha story about one theme entirely",
        "beta story about another theme entirely",
        "gamma story about a third theme entirely",
    ];
    // The first topic was broadcast before.
    reg.record_topic_with_details_at(
        "alpha story about one theme entirely details",
        texts[0],
        "details",
        now - 10,
    );
    let clusters: Vec<ClusterData> = texts
        .iter()
        .enumerate()
        .map(|(i, t)| cluster(t, "details", "Tech", &format!("c{}", i), 100))
        .collect();
    let mut flow = TriageFlow::begin("Tech", clusters).unwrap();
    match flow.advance(&mut reg, now) {
        TriageStep::NeedUpdateCheck { index, prev } => {
            assert_eq!(index, 0);
            assert_eq!(prev.title, texts[0]);
            flow.on_update(&mut reg, now, Some("fresh angle".to_string()));
        },
        _ => panic!("the recorded topic must ask for an update check"),
    }
    loop {
        match flow.advance(&mut reg, now) {
            TriageStep::Included => {},
            TriageStep::Ready => break,
            _ => panic!("three surviving topics must be ready"),
        }
    }
    assert_eq!(flow.items.len(), 3);
    assert!(flow.items[0].is_update);
    assert!(flow.items[0].title.starts_with("[\u{66f4}\u{65b0}] "));
    assert_eq!(flow.items[0].summary, "fresh angle");
    assert!(!flow.items[1].is_update);
    // The follow-up counts as included for acknowledgment purposes.
    assert_eq!(flow.included_cluster_ids().len(), 3);
}
