use pubsub_hub::event::{frame_of, Event};

#[test]
fn message_frame_carries_payload_verbatim() {
    let r = frame_of(Event::Message("hello world".to_string()));
    assert_eq!(r, Some("hello world".to_string()));
}

#[test]
fn lag_frame_is_the_error_sentinel() {
    assert_eq!(frame_of(Event::Lag(7)), Some("<error>".to_string()));
    assert_eq!(frame_of(Event::Lag(1)), Some("<error>".to_string()));
}

#[test]
fn closed_frame_terminates_the_stream() {
    assert_eq!(frame_of(Event::Closed), None);
}
