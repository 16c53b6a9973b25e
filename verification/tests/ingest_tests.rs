use cortex::buffer::NewsBuffer;
use cortex::cluster::PendingNewsItem;
use cortex::ingest::{is_advertisement, IngestFlow, IngestProgress};

fn item(title: &str, link: &str, desc: &str) -> PendingNewsItem {
    PendingNewsItem {
        title: title.to_string(),
        link: link.to_string(),
        description: desc.to_string(),
        category: "Tech".to_string(),
        source_name: Some("Wire".to_string()),
        timestamp: 0,
    }
}

const SHARED_DESC: &str =
    "Company A introduced its new flagship product at the annual event, with pricing \
     and availability details for several markets.";

#[test]
fn three_near_duplicates_become_one_cluster_with_two_related() {
    let mut buf = NewsBuffer::new();

    // First sighting: a new singleton cluster.
    match IngestFlow::begin(&mut buf, item("A launches product", "http://1", SHARED_DESC)) {
        IngestProgress::CreatedNew => {},
        _ => panic!("first item must create a cluster"),
    }

    // Second sighting: the coarse filter finds the cluster, the
    // collaborator (mocked as always confirming) verifies it, and the
    // differing title asks for a merge.
    let mut drive = |buf: &mut NewsBuffer, it: PendingNewsItem| {
        let mut step = IngestFlow::begin(buf, it);
        loop {
            step = match step {
                IngestProgress::NeedVerify(flow) => flow.on_verify(buf, true),
                IngestProgress::NeedMerge(flow) => flow.on_merge(buf, None),
                done => return done,
            };
        }
    };

    match drive(
        &mut buf,
        item("A launches product: updated pricing", "http://2", SHARED_DESC),
    ) {
        IngestProgress::Appended => {},
        _ => panic!("second item must join the cluster"),
    }
    match drive(
        &mut buf,
        item("A launches product: pricing revealed", "http://3", SHARED_DESC),
    ) {
        IngestProgress::Appended => {},
        _ => panic!("third item must join the cluster"),
    }

    let clusters = buf.get_category_clusters("Tech");
    assert_eq!(clusters.len(), 1);
    assert_eq!(clusters[0].related_items.len(), 2);
}

#[test]
fn advertisements_are_recognised_by_category() {
    assert!(is_advertisement("Advertisement"));
    assert!(is_advertisement("\u{5e7f}\u{544a}"));
    assert!(!is_advertisement("Tech"));
    assert!(!is_advertisement("advertisement"));
}

#[test]
fn exact_title_match_skips_verification() {
    let mut buf = NewsBuffer::new();
    match IngestFlow::begin(&mut buf, item("Same Headline", "http://1", SHARED_DESC)) {
        IngestProgress::CreatedNew => {},
        _ => panic!("first item must create a cluster"),
    }
    // Identical title up to case and spacing, different body: the fast
    // path appends without asking the collaborator.
    let step = IngestFlow::begin(
        &mut buf,
        item("  same headline ", "http://2", "A different body with new facts."),
    );
    match step {
        IngestProgress::Appended => {},
        _ => panic!("an exact title match must append without verification"),
    }
    let clusters = buf.get_category_clusters("Tech");
    assert_eq!(clusters.len(), 1);
    assert_eq!(clusters[0].related_items.len(), 1);
}

#[test]
fn exact_duplicate_is_discarded_without_storing() {
    let mut buf = NewsBuffer::new();
    match IngestFlow::begin(&mut buf, item("Same Headline", "http://1", SHARED_DESC)) {
        IngestProgress::CreatedNew => {},
        _ => panic!("first item must create a cluster"),
    }
    let step = IngestFlow::begin(&mut buf, item("Same Headline", "http://2", SHARED_DESC));
    match step {
        IngestProgress::Discarded => {},
        _ => panic!("a title-and-body duplicate must be discarded"),
    }
    let clusters = buf.get_category_clusters("Tech");
    assert_eq!(clusters.len(), 1);
    assert_eq!(clusters[0].related_items.len(), 0);
}

#[test]
fn denied_candidates_lead_to_a_new_cluster() {
    let mut buf = NewsBuffer::new();
    match IngestFlow::begin(&mut buf, item("A launches product", "http://1", SHARED_DESC)) {
        IngestProgress::CreatedNew => {},
        _ => panic!("first item must create a cluster"),
    }
    // The collaborator denies every candidate: a new cluster is created.
    let mut step = IngestFlow::begin(
        &mut buf,
        item("A launches product again", "http://2", SHARED_DESC),
    );
    loop {
        step = match step {
            IngestProgress::NeedVerify(flow) => flow.on_verify(&mut buf, false),
            IngestProgress::CreatedNew => break,
            _ => panic!("denials must end in a new cluster"),
        };
    }
    assert_eq!(buf.get_category_clusters("Tech").len(), 2);
}

#[test]
fn merge_outcome_overwrites_title_and_summary() {
    let mut buf = NewsBuffer::new();
    match IngestFlow::begin(&mut buf, item("A launches product", "http://1", SHARED_DESC)) {
        IngestProgress::CreatedNew => {},
        _ => panic!("first item must create a cluster"),
    }
    let mut step = IngestFlow::begin(
        &mut buf,
        item("A launches product: updated pricing", "http://2", SHARED_DESC),
    );
    loop {
        step = match step {
            IngestProgress::NeedVerify(flow) => flow.on_verify(&mut buf, true),
            IngestProgress::NeedMerge(flow) => flow.on_merge(
                &mut buf,
                Some(("Merged headline".to_string(), "Merged summary".to_string())),
            ),
            IngestProgress::Appended => break,
            _ => panic!("the confirmed match must merge"),
        };
    }
    let clusters = buf.get_category_clusters("Tech");
    assert_eq!(clusters.len(), 1);
    assert_eq!(clusters[0].main_item.title, "Merged headline");
    assert_eq!(clusters[0].merged_summary.as_deref(), Some("Merged summary"));
    assert_eq!(clusters[0].related_items.len(), 1);
}
