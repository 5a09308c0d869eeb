//! The cached status document.

use std::sync::Arc;

use rukkit::protocol::Component;
use rukkit::server::status::{
    base64_encode, favicon_data_uri, sample_id, StatusCache, SAMPLE_LIMIT,
};

fn cache() -> StatusCache {
    StatusCache::new(Component::text("A Rukkit server"), 20)
}

#[test]
fn reports_the_targeted_version_and_counts() {
    let mut cache = cache();
    let json = cache.json(3, &[]);
    assert!(json.contains(r#""protocol":776"#), "{json}");
    assert!(json.contains(r#""name":"26.2""#), "{json}");
    assert!(json.contains(r#""online":3"#), "{json}");
    assert!(json.contains(r#""max":20"#), "{json}");
}

#[test]
fn repeated_pings_reuse_one_serialization() {
    let mut cache = cache();
    for _ in 0..100 {
        let _ = cache.json(0, &[]);
    }
    assert_eq!(cache.rebuild_count(), 1, "cache should have held");
}

#[test]
fn a_changed_player_count_rebuilds() {
    let mut cache = cache();
    let _ = cache.json(0, &[]);
    let _ = cache.json(1, &[]);
    let _ = cache.json(1, &[]);
    assert_eq!(cache.rebuild_count(), 2);
}

#[test]
fn a_changed_sample_rebuilds() {
    let mut cache = cache();
    let _ = cache.json(1, &["alice".to_owned()]);
    let _ = cache.json(1, &["bob".to_owned()]);
    assert_eq!(cache.rebuild_count(), 2);
}

#[test]
fn cached_documents_are_shared_not_copied() {
    let mut cache = cache();
    let a = cache.json(0, &[]);
    let b = cache.json(0, &[]);
    assert!(Arc::ptr_eq(&a, &b), "should hand out the same allocation");
}

#[test]
fn the_sample_is_capped() {
    let mut cache = cache();
    let names: Vec<String> = (0..50).map(|i| format!("player{i}")).collect();
    let json = cache.json(50, &names);
    let parsed: serde_json::Value = serde_json::from_str(&json).unwrap();
    assert_eq!(parsed["players"]["sample"].as_array().unwrap().len(), SAMPLE_LIMIT);
    assert_eq!(parsed["players"]["online"], 50);
}

#[test]
fn an_absent_favicon_is_omitted_entirely() {
    let json = cache().json(0, &[]);
    assert!(!json.contains("favicon"), "{json}");
}

#[test]
fn a_favicon_is_embedded_as_a_data_uri() {
    let png = [0x89, b'P', b'N', b'G', 0x0D, 0x0A, 0x1A, 0x0A, 1, 2, 3];
    let uri = favicon_data_uri(&png).expect("valid PNG header");
    let mut cache = cache().with_favicon(Some(uri.clone()));
    let json = cache.json(0, &[]);
    assert!(json.contains("data:image/png;base64,"), "{json}");
    assert!(
        uri.starts_with("data:image/png;base64,iVBORw0KGgo"),
        "{uri}"
    );
}

#[test]
fn a_non_png_favicon_is_refused() {
    assert!(favicon_data_uri(b"not a png").is_none());
    assert!(favicon_data_uri(&[]).is_none());
}

#[test]
fn base64_matches_known_vectors() {
    assert_eq!(base64_encode(b""), "");
    assert_eq!(base64_encode(b"f"), "Zg==");
    assert_eq!(base64_encode(b"fo"), "Zm8=");
    assert_eq!(base64_encode(b"foo"), "Zm9v");
    assert_eq!(base64_encode(b"foob"), "Zm9vYg==");
    assert_eq!(base64_encode(b"fooba"), "Zm9vYmE=");
    assert_eq!(base64_encode(b"foobar"), "Zm9vYmFy");
}

#[test]
fn sample_ids_are_stable() {
    assert_eq!(sample_id("alice"), sample_id("alice"));
}

#[test]
fn the_document_parses_back_as_valid_json() {
    let mut cache = cache();
    let json = cache.json(7, &["alice".to_owned()]);
    let parsed: serde_json::Value = serde_json::from_str(&json).expect("valid JSON");
    assert_eq!(parsed["players"]["online"], 7);
    assert_eq!(parsed["players"]["sample"][0]["name"], "alice");
}

#[test]
fn a_document_is_built_once_for_each_count() {
    let mut cache = StatusCache::new(Component::text("A Rukkit server"), 20);
    let a = cache.json(0, &[]);
    let b = cache.json(1, &[]);
    let c = cache.json(0, &[]);
    assert_eq!(cache.rebuild_count(), 2);
    assert_eq!(*a, *c);
    assert_ne!(*a, *b);
    assert!(Arc::ptr_eq(&a, &c));

    // Another sample of the same count is another document, and replaces the
    // one before it.
    let names = vec!["alice".to_owned()];
    cache.json(1, &names);
    assert_eq!(cache.rebuild_count(), 3);
    cache.json(1, &names);
    cache.json(0, &[]);
    assert_eq!(cache.rebuild_count(), 3);
    cache.json(1, &[]);
    assert_eq!(cache.rebuild_count(), 4);
}
