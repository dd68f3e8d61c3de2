use pubsub_hub::broadcaster::{Broadcaster, CAPACITY};
use pubsub_hub::event::{frame_of, Event, PublishOutcome};
use pubsub_hub::hub::Hub;

#[test]
fn fresh_topic_yields_nothing_until_publish() {
    let mut hub = Hub::new();
    let (idx, mut sub) = hub.subscribe_topic("a");
    assert_eq!(hub.next_event_at(idx, &mut sub), None);
    assert_eq!(hub.next_event_at(idx, &mut sub), None);
    hub.publish_message("a", "hi".to_string());
    assert_eq!(
        hub.next_event_at(idx, &mut sub),
        Some(Event::Message("hi".to_string()))
    );
}

#[test]
fn publish_without_subscribers_is_dropped() {
    let mut hub = Hub::new();
    let out = hub.publish_message("a", "hi".to_string());
    assert_eq!(out, PublishOutcome::Dropped);
    // a subscriber arriving a moment later still sees nothing
    let (idx, mut sub) = hub.subscribe_topic("a");
    assert_eq!(hub.next_event_at(idx, &mut sub), None);
}

#[test]
fn subscriber_receives_frame_with_payload() {
    let mut hub = Hub::new();
    let (idx, mut sub) = hub.subscribe_topic("a");
    let out = hub.publish_message("a", "hi".to_string());
    assert_eq!(out, PublishOutcome::Delivered(1));
    let ev = hub.next_event_at(idx, &mut sub).expect("one event pending");
    assert_eq!(frame_of(ev), Some("hi".to_string()));
}

#[test]
fn topic_isolation_between_streams() {
    let mut hub = Hub::new();
    let (ia, mut sa) = hub.subscribe_topic("a");
    let (ib, mut sb) = hub.subscribe_topic("b");
    hub.publish_message("a", "hi".to_string());
    assert_eq!(
        hub.next_event_at(ia, &mut sa),
        Some(Event::Message("hi".to_string()))
    );
    assert_eq!(hub.next_event_at(ib, &mut sb), None);
}

#[test]
fn every_attached_subscription_receives_each_message() {
    let mut hub = Hub::new();
    let (idx, mut s1) = hub.subscribe_topic("t");
    let (idx2, mut s2) = hub.subscribe_topic("t");
    assert_eq!(idx, idx2);
    let out = hub.publish_message("t", "m".to_string());
    assert_eq!(out, PublishOutcome::Delivered(2));
    assert_eq!(
        hub.next_event_at(idx, &mut s1),
        Some(Event::Message("m".to_string()))
    );
    assert_eq!(
        hub.next_event_at(idx, &mut s2),
        Some(Event::Message("m".to_string()))
    );
}

#[test]
fn delivery_order_matches_publish_order() {
    let mut hub = Hub::new();
    let (idx, mut sub) = hub.subscribe_topic("t");
    hub.publish_message("t", "first".to_string());
    hub.publish_message("t", "second".to_string());
    assert_eq!(
        hub.next_event_at(idx, &mut sub),
        Some(Event::Message("first".to_string()))
    );
    assert_eq!(
        hub.next_event_at(idx, &mut sub),
        Some(Event::Message("second".to_string()))
    );
    assert_eq!(hub.next_event_at(idx, &mut sub), None);
}

#[test]
fn late_subscriber_never_replays() {
    let mut hub = Hub::new();
    hub.publish_message("t", "early".to_string());
    let (idx, mut sub) = hub.subscribe_topic("t");
    assert_eq!(hub.next_event_at(idx, &mut sub), None);
    hub.publish_message("t", "later".to_string());
    assert_eq!(
        hub.next_event_at(idx, &mut sub),
        Some(Event::Message("later".to_string()))
    );
    assert_eq!(hub.next_event_at(idx, &mut sub), None);
}

#[test]
fn overflow_yields_lag_sentinel_not_backlog() {
    let mut hub = Hub::new();
    let (idx, mut sub) = hub.subscribe_topic("t");
    for i in 0..=CAPACITY {
        hub.publish_message("t", format!("m{}", i));
    }
    // one more than the buffer holds: the oldest message is gone
    let ev = hub.next_event_at(idx, &mut sub).expect("lag pending");
    assert_eq!(ev, Event::Lag(1));
    assert_eq!(frame_of(ev), Some("<error>".to_string()));
    // what follows is the retained window, not the whole backlog
    let mut delivered = Vec::new();
    while let Some(ev) = hub.next_event_at(idx, &mut sub) {
        match ev {
            Event::Message(p) => delivered.push(p),
            other => panic!("unexpected event {:?}", other),
        }
    }
    assert_eq!(delivered.len(), CAPACITY as usize);
    assert_eq!(delivered.first().map(String::as_str), Some("m1"));
    assert_eq!(
        delivered.last().map(String::as_str),
        Some(format!("m{}", CAPACITY).as_str())
    );
}

#[test]
fn lag_reports_number_missed() {
    let mut hub = Hub::new();
    let (idx, mut sub) = hub.subscribe_topic("t");
    for i in 0..CAPACITY + 50 {
        hub.publish_message("t", format!("m{}", i));
    }
    assert_eq!(hub.next_event_at(idx, &mut sub), Some(Event::Lag(50)));
}

#[test]
fn racing_first_references_share_one_broadcaster() {
    let mut hub = Hub::new();
    let first = hub.get_or_create("t");
    let second = hub.get_or_create("t");
    assert_eq!(first, second);
    assert_eq!(hub.topic_total(), 1);
    // a publish and a subscribe racing on a fresh topic land on one entry too
    let mut hub2 = Hub::new();
    hub2.publish_message("u", "x".to_string());
    let (idx, _sub) = hub2.subscribe_topic("u");
    assert_eq!(idx, 0);
    assert_eq!(hub2.topic_total(), 1);
}

#[test]
fn empty_topic_identifier_is_valid() {
    let mut hub = Hub::new();
    let (idx, mut sub) = hub.subscribe_topic("");
    let out = hub.publish_message("", "x".to_string());
    assert_eq!(out, PublishOutcome::Delivered(1));
    assert_eq!(
        hub.next_event_at(idx, &mut sub),
        Some(Event::Message("x".to_string()))
    );
    assert_eq!(hub.topic_total(), 1);
}

#[test]
fn detach_decrements_attached_count() {
    let mut b = Broadcaster::new();
    let _s1 = b.subscribe();
    let _s2 = b.subscribe();
    assert_eq!(b.attached_total(), 2);
    b.detach();
    assert_eq!(b.attached_total(), 1);
    b.detach();
    assert_eq!(b.attached_total(), 0);
    b.detach();
    assert_eq!(b.attached_total(), 0);
}

#[test]
fn closed_broadcaster_drains_then_ends() {
    let mut b = Broadcaster::new();
    let mut sub = b.subscribe();
    b.publish("x".to_string());
    b.close();
    assert!(b.is_shut());
    assert_eq!(b.next_event(&mut sub), Some(Event::Message("x".to_string())));
    assert_eq!(b.next_event(&mut sub), Some(Event::Closed));
}

#[test]
fn publish_outcome_counts_attached_subscriptions() {
    let mut b = Broadcaster::new();
    assert_eq!(b.publish("a".to_string()), PublishOutcome::Dropped);
    let _s = b.subscribe();
    assert_eq!(b.publish("b".to_string()), PublishOutcome::Delivered(1));
    assert_eq!(b.history_total(), 2);
}

#[test]
fn guards_accept_ordinary_states() {
    let mut hub = Hub::new();
    assert!(hub.accepts_publish("t"));
    assert!(hub.accepts_subscriber("t"));
    hub.publish_message("t", "x".to_string());
    assert!(hub.accepts_publish("t"));
    assert!(hub.accepts_subscriber("t"));
}
