use cortex::config::{find_host, Host, TtsClient, TtsConfig};
use cortex::payload::{ItemPayload, SourceInfo};

#[test]
fn tts_client_keeps_its_settings() {
    let client = TtsClient::new(TtsConfig { model_path: "./voice.onnx".to_string() });
    assert_eq!(client.config.model_path, "./voice.onnx");
}

#[test]
fn the_first_matching_host_wins() {
    let hosts = vec![
        Host {
            name: "An".to_string(),
            voice: "v1".to_string(),
            categories: vec!["Econ".to_string()],
        },
        Host {
            name: "Bo".to_string(),
            voice: "v2".to_string(),
            categories: vec!["Tech".to_string(), "Gaming".to_string()],
        },
        Host {
            name: "Cy".to_string(),
            voice: "v3".to_string(),
            categories: vec!["Tech".to_string()],
        },
    ];
    assert_eq!(find_host(&hosts, "Tech").unwrap().name, "Bo");
    assert_eq!(find_host(&hosts, "Econ").unwrap().name, "An");
    assert!(find_host(&hosts, "Sports").is_none());
}

#[test]
fn payload_clone_preserves_every_field() {
    let p = ItemPayload {
        id: Some("i1".to_string()),
        title: "T".to_string(),
        summary: Some("S".to_string()),
        original_url: Some("http://o".to_string()),
        cover_image_url: None,
        audio_url: Some("http://a".to_string()),
        publish_time: Some(1234),
        duration_sec: Some(60),
        sources: Some(vec![SourceInfo {
            url: "http://s".to_string(),
            title: "st".to_string(),
            summary: "ss".to_string(),
        }]),
        category: Some("Tech".to_string()),
    };
    let q = p.clone();
    assert_eq!(q.id.as_deref(), Some("i1"));
    assert_eq!(q.title, "T");
    assert_eq!(q.summary.as_deref(), Some("S"));
    assert_eq!(q.publish_time, Some(1234));
    assert_eq!(q.duration_sec, Some(60));
    assert_eq!(q.sources.as_ref().unwrap().len(), 1);
    assert_eq!(q.sources.as_ref().unwrap()[0].url, "http://s");
    assert_eq!(q.category.as_deref(), Some("Tech"));
}
