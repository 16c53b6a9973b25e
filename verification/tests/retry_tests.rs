use cortex::retry_queue::{RetryAction, RetryManager};
use cortex::payload::ItemPayload;

fn upload(filename: &str, path: &str) -> RetryAction {
    RetryAction::UploadAudio { filename: filename.to_string(), file_path: path.to_string() }
}

fn push_item(title: &str) -> RetryAction {
    RetryAction::PushItem(ItemPayload {
        id: None,
        title: title.to_string(),
        summary: None,
        original_url: None,
        cover_image_url: None,
        audio_url: None,
        publish_time: None,
        duration_sec: None,
        sources: None,
        category: None,
    })
}

#[test]
fn fail_once_then_succeed_leaves_nothing_and_frees_the_file() {
    let mut q = RetryManager::new();
    q.enqueue(upload("a.mp3", "/tmp/cache/a.mp3"));
    assert_eq!(q.len(), 1);
    // First sweep: the replay fails, the entry stays, nothing is freed.
    let freed = q.apply_sweep_results(&vec![false]);
    assert_eq!(q.len(), 1);
    assert_eq!(freed.len(), 0);
    // Second sweep: the replay succeeds, the queue empties, the cached
    // audio file is named for deletion.
    let freed = q.apply_sweep_results(&vec![true]);
    assert_eq!(q.len(), 0);
    assert_eq!(freed, vec!["/tmp/cache/a.mp3".to_string()]);
}

#[test]
fn sweep_removes_exactly_the_delivered_entries_in_order() {
    let mut q = RetryManager::new();
    q.enqueue_with_id("k1".to_string(), upload("a.mp3", "/tmp/a"));
    q.enqueue_with_id("k2".to_string(), push_item("story"));
    q.enqueue_with_id("k3".to_string(), RetryAction::MarkUrl {
        url: "http://u".to_string(),
        category: "Tech".to_string(),
    });
    let freed = q.apply_sweep_results(&vec![true, false, true]);
    // Only the successful upload frees a file; the failed push stays.
    assert_eq!(freed, vec!["/tmp/a".to_string()]);
    assert_eq!(q.len(), 1);
    assert_eq!(q.entry_at(0).0, "k2");
}

#[test]
fn failed_entries_keep_their_order() {
    let mut q = RetryManager::new();
    q.enqueue_with_id("k1".to_string(), push_item("one"));
    q.enqueue_with_id("k2".to_string(), push_item("two"));
    q.enqueue_with_id("k3".to_string(), push_item("three"));
    let freed = q.apply_sweep_results(&vec![false, true, false]);
    assert_eq!(freed.len(), 0);
    assert_eq!(q.len(), 2);
    assert_eq!(q.entry_at(0).0, "k1");
    assert_eq!(q.entry_at(1).0, "k3");
}
