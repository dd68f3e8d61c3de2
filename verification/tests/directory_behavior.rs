use pubsub_hub::directory::Directory;

#[test]
fn records_a_subscription_marker() {
    let mut d = Directory::new();
    assert!(!d.subscribed("alice", "news"));
    d.record("alice", "news");
    assert!(d.subscribed("alice", "news"));
    assert!(!d.subscribed("alice", "sports"));
    assert!(!d.subscribed("bob", "news"));
}

#[test]
fn recording_twice_changes_nothing() {
    let mut d = Directory::new();
    d.record("alice", "news");
    d.record("alice", "news");
    assert!(d.subscribed("alice", "news"));
    d.record("alice", "sports");
    assert!(d.subscribed("alice", "news"));
    assert!(d.subscribed("alice", "sports"));
}

#[test]
fn distinct_clients_are_isolated() {
    let mut d = Directory::new();
    d.record("alice", "news");
    d.record("bob", "sports");
    assert!(d.subscribed("alice", "news"));
    assert!(d.subscribed("bob", "sports"));
    assert!(!d.subscribed("alice", "sports"));
    assert!(!d.subscribed("bob", "news"));
}

#[test]
fn empty_identifiers_are_valid_keys() {
    let mut d = Directory::new();
    d.record("", "");
    assert!(d.subscribed("", ""));
    assert!(!d.subscribed("", "t"));
    assert!(!d.subscribed("c", ""));
}
