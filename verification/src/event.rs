use vstd::prelude::*;

verus! {

/// One delivery observed by a subscription.
#[derive(Debug, PartialEq, Eq)]
pub enum Event {
    /// A published payload, delivered in publish order.
    Message(String),
    /// The subscription fell behind and this many messages were overwritten
    /// before it read them.
    Lag(u64),
    /// The broadcaster was closed; no further messages will arrive.
    Closed,
}

/// Spec-level image of a delivery event: the payload as a character sequence.
pub enum EventView {
    Message(Seq<char>),
    Lag(int),
    Closed,
}

impl View for Event {
    type V = EventView;

    open spec fn view(&self) -> EventView {
        match self {
            Event::Message(p) => EventView::Message(p@),
            Event::Lag(n) => EventView::Lag(*n as int),
            Event::Closed => EventView::Closed,
        }
    }
}

/// The view of an optional event; `None` means the subscription has nothing
/// pending and must wait for the next publish.
pub open spec fn opt_event_view(r: Option<Event>) -> Option<EventView> {
    match r {
        Option::None => Option::None,
        Option::Some(e) => Option::Some(e@),
    }
}

/// The outcome of one publish, tagged per delivery attempt.
#[derive(Debug, PartialEq, Eq)]
pub enum PublishOutcome {
    /// The message was enqueued with this many subscriptions attached.
    Delivered(u64),
    /// No subscription was attached; nobody will ever see the message.
    Dropped,
}

/// The body of the sentinel frame a lagging subscriber receives in place of
/// the messages it missed.
pub open spec fn lag_sentinel() -> Seq<char> {
    "<error>"@
}

/// Stream adapter: maps a delivery event to the body of one outbound frame.
///
/// A message's payload is carried verbatim; lag collapses to the opaque
/// sentinel body regardless of how many messages were missed; closure maps
/// to `None`, which ends the outbound stream.
pub fn frame_of(e: Event) -> (r: Option<String>)
    ensures
        match e@ {
            EventView::Message(p) => r matches Some(f) && f@ == p,
            EventView::Lag(_) => r matches Some(f) && f@ == lag_sentinel(),
            EventView::Closed => r is None,
        },
{
    match e {
        Event::Message(p) => Some(p),
        Event::Lag(_) => Some("<error>".to_owned()),
        Event::Closed => None,
    }
}

} // verus!
