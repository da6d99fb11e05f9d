use otterwatch_mqtt::cluster::retained::{topic_matches, RetainedMessage, RetainedStore};

#[test]
fn test_topic_matches() {
    // Exact match
    assert!(topic_matches("foo/bar", "foo/bar"));
    assert!(!topic_matches("foo/bar", "foo/baz"));

    // Single-level wildcard
    assert!(topic_matches("foo/+/baz", "foo/bar/baz"));
    assert!(!topic_matches("foo/+/baz", "foo/bar/qux"));

    // Multi-level wildcard
    assert!(topic_matches("foo/#", "foo/bar"));
    assert!(topic_matches("foo/#", "foo/bar/baz"));
    assert!(topic_matches("#", "anything/goes"));
}

#[test]
fn topic_matches_edge_cases() {
    // Level counts must agree without '#'.
    assert!(!topic_matches("foo/+", "foo/bar/baz"));
    assert!(!topic_matches("foo/bar/baz", "foo/bar"));
    // '+' matches an empty level.
    assert!(topic_matches("foo/+", "foo/"));
    // '#' needs a level of its own.
    assert!(!topic_matches("foo/#", "foo"));
    // Empty pattern and topic.
    assert!(topic_matches("", ""));
    assert!(!topic_matches("", "a"));
    // Every topic matches itself.
    assert!(topic_matches("a/b/c", "a/b/c"));
}

#[test]
fn test_store_and_get() {
    let mut store = RetainedStore::new("test-node".to_string());

    store.store("test/topic".to_string(), b"hello".to_vec());

    let msg = store.get("test/topic").unwrap();
    assert_eq!(msg.topic, "test/topic");
    assert_eq!(msg.payload, b"hello");
    assert_eq!(msg.source_node, "test-node");
}

fn synced(topic: &str, payload: &[u8], timestamp: u64, source: &str) -> RetainedMessage {
    RetainedMessage {
        topic: topic.to_string(),
        payload: payload.to_vec(),
        timestamp,
        source_node: source.to_string(),
    }
}

#[test]
fn store_with_timestamp_overwrites() {
    let mut store = RetainedStore::new("n".to_string());
    store.store_with_timestamp("a".to_string(), b"1".to_vec(), 10);
    store.store_with_timestamp("a".to_string(), b"2".to_vec(), 5);
    let m = store.get("a").unwrap();
    assert_eq!(m.payload, b"2");
    assert_eq!(m.timestamp, 5);
    assert_eq!(store.count(), 1);
}

#[test]
fn synced_message_kept_only_when_newer() {
    let mut store = RetainedStore::new("local".to_string());
    store.store_synced(synced("t", b"old", 100, "peer"));
    assert_eq!(store.get("t").unwrap().payload, b"old");

    // Older: ignored.
    store.store_synced(synced("t", b"older", 50, "peer"));
    assert_eq!(store.get("t").unwrap().payload, b"old");

    // Same timestamp: ignored.
    store.store_synced(synced("t", b"same", 100, "peer"));
    assert_eq!(store.get("t").unwrap().payload, b"old");

    // Newer: replaces.
    store.store_synced(synced("t", b"new", 101, "other"));
    let m = store.get("t").unwrap();
    assert_eq!(m.payload, b"new");
    assert_eq!(m.source_node, "other");
}

#[test]
fn sync_twice_same_as_once() {
    let mut store = RetainedStore::new("local".to_string());
    store.store_synced(synced("x", b"v", 7, "p"));
    store.store_synced(synced("x", b"v", 7, "p"));
    assert_eq!(store.count(), 1);
    assert_eq!(store.get("x").unwrap().timestamp, 7);
}

#[test]
fn get_all_and_matching() {
    let mut store = RetainedStore::new("n".to_string());
    store.store_with_timestamp("sensors/a/temp".to_string(), vec![1], 1);
    store.store_with_timestamp("sensors/b/temp".to_string(), vec![2], 2);
    store.store_with_timestamp("other/x".to_string(), vec![3], 3);

    let all = store.get_all();
    assert_eq!(all.len(), 3);

    let mut matching: Vec<String> = store
        .get_matching("sensors/+/temp")
        .into_iter()
        .map(|m| m.topic)
        .collect();
    matching.sort();
    assert_eq!(matching, vec!["sensors/a/temp".to_string(), "sensors/b/temp".to_string()]);

    assert_eq!(store.get_matching("#").len(), 3);
    assert_eq!(store.get_matching("none/#").len(), 0);
}

#[test]
fn remove_and_clear() {
    let mut store = RetainedStore::new("n".to_string());
    store.store_with_timestamp("a".to_string(), vec![], 1);
    store.store_with_timestamp("b".to_string(), vec![], 1);
    store.remove("a");
    assert!(store.get("a").is_none());
    assert!(store.get("b").is_some());
    store.remove("missing");
    assert_eq!(store.count(), 1);
    store.clear();
    assert_eq!(store.count(), 0);
    assert!(store.get("b").is_none());
}

#[test]
fn duplicate_keeps_fields() {
    let m = synced("a/b", b"xyz", 9, "src");
    let d = m.duplicate();
    assert_eq!(d.topic, "a/b");
    assert_eq!(d.payload, b"xyz");
    assert_eq!(d.timestamp, 9);
    assert_eq!(d.source_node, "src");
}

#[test]
fn every_topic_matches_itself_and_hash_matches_all() {
    for t in ["", "a", "a/b", "a//b", "/", "x/+/y", "#", "a/#"] {
        assert!(topic_matches(t, t), "{} should match itself", t);
        assert!(topic_matches("#", t), "# should match {}", t);
    }
}

#[test]
fn plain_pattern_matches_only_equal_topic() {
    assert!(topic_matches("a/b", "a/b"));
    assert!(!topic_matches("a/b", "a/bc"));
    assert!(!topic_matches("a/b", "a/b/"));
    assert!(!topic_matches("a", "a/b"));
    assert!(!topic_matches("a/b", "a"));
}
