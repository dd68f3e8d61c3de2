use vstd::prelude::*;
use crate::event::{opt_event_view, Event, EventView, PublishOutcome};

verus! {

/// Number of payloads a broadcaster retains: a subscription that falls
/// further behind than this loses the overwritten messages and is told so.
pub const CAPACITY: u64 = 100;

/// `CAPACITY` as a mathematical integer, for use in specifications.
pub open spec fn cap() -> int {
    CAPACITY as int
}

/// A per-connection cursor into a broadcaster's stream of future messages.
///
/// `cursor` is the index into the broadcaster's publish history of the next
/// message to deliver; it starts at the history length current when the
/// subscription is created, so a subscription only ever sees messages
/// published after it attached.
pub struct Subscription {
    pub cursor: u64,
}

/// Per-topic fan-out: a bounded buffer of the most recent payloads, the
/// total number of messages ever published, and the count of attached
/// subscriptions.
///
/// The buffer holds exactly the last `min(CAPACITY, total)` payloads in
/// publish order; older payloads are discarded, which is what forces the
/// lag policy on slow subscriptions.
pub struct Broadcaster {
    buf: Vec<String>,
    head: u64,
    subs: u64,
    closed: bool,
    hist: Ghost<Seq<Seq<char>>>,
}

/// Index of the oldest payload still retained in a history of length `len`.
pub open spec fn window_start(len: int) -> int {
    if len > cap() {
        len - cap()
    } else {
        0
    }
}

/// What a subscription at `cursor` is handed next, if anything:
/// - nothing is pending when the cursor has reached the head (and the
///   stream ends there if the broadcaster is closed);
/// - a lag report when more than `CAPACITY` messages arrived unread;
/// - otherwise the payload at the cursor.
pub open spec fn next_view(hist: Seq<Seq<char>>, closed: bool, cursor: int) -> Option<
    EventView,
> {
    if cursor >= hist.len() {
        if closed {
            Some(EventView::Closed)
        } else {
            None
        }
    } else if hist.len() - cursor > cap() {
        Some(EventView::Lag(hist.len() - cursor - cap()))
    } else {
        Some(EventView::Message(hist[cursor]))
    }
}

/// Where the cursor stands after one delivery step.
pub open spec fn next_cursor(hist: Seq<Seq<char>>, cursor: int) -> int {
    if cursor >= hist.len() {
        cursor
    } else if hist.len() - cursor > cap() {
        hist.len() - cap()
    } else {
        cursor + 1
    }
}

impl Broadcaster {
    /// Every payload ever published to this broadcaster, oldest first.
    pub closed spec fn history(self) -> Seq<Seq<char>> {
        self.hist@
    }

    /// How many subscriptions are currently attached.
    pub closed spec fn sub_count(self) -> u64 {
        self.subs
    }

    /// Whether the broadcaster was shut down.
    pub closed spec fn is_closed(self) -> bool {
        self.closed
    }

    /// The buffer holds exactly the retained window of the history.
    pub closed spec fn wf(self) -> bool {
        &&& self.hist@.len() == self.head as int
        &&& self.buf@.len() == self.head as int - window_start(self.head as int)
        &&& forall|i: int|
            window_start(self.head as int) <= i < self.head as int ==> #[trigger] self.hist@[i]
                == self.buf@[i - window_start(self.head as int)]@
    }

    /// A fresh broadcaster: empty history, no subscriptions, open.
    pub fn new() -> (b: Broadcaster)
        ensures
            b.wf(),
            b.history() == Seq::<Seq<char>>::empty(),
            b.sub_count() == 0,
            !b.is_closed(),
    {
        Broadcaster {
            buf: Vec::new(),
            head: 0,
            subs: 0,
            closed: false,
            hist: Ghost(Seq::empty()),
        }
    }

    /// Appends the payload to the history, discarding the oldest retained
    /// payload once `CAPACITY` are held. The outcome reports whether any
    /// subscription was attached to see it: with none attached the message
    /// is gone for good, since later subscriptions never replay history.
    pub fn publish(&mut self, payload: String) -> (out: PublishOutcome)
        requires
            old(self).wf(),
            !old(self).is_closed(),
            old(self).history().len() < u64::MAX,
        ensures
            final(self).wf(),
            final(self).history() == old(self).history().push(payload@),
            final(self).sub_count() == old(self).sub_count(),
            !final(self).is_closed(),
            out == (if old(self).sub_count() == 0 {
                PublishOutcome::Dropped
            } else {
                PublishOutcome::Delivered(old(self).sub_count())
            }),
    {
        let ghost p: Seq<char> = payload@;
        let out = if self.subs == 0 {
            PublishOutcome::Dropped
        } else {
            PublishOutcome::Delivered(self.subs)
        };
        if self.buf.len() >= CAPACITY as usize {
            self.buf.remove(0);
        }
        self.buf.push(payload);
        self.head = self.head + 1;
        proof {
            self.hist@ = self.hist@.push(p);
        }
        out
    }

    /// Creates a subscription whose cursor starts at the current head:
    /// it sees only messages published after this call.
    pub fn subscribe(&mut self) -> (s: Subscription)
        requires
            old(self).wf(),
            old(self).sub_count() < u64::MAX,
        ensures
            final(self).wf(),
            final(self).history() == old(self).history(),
            final(self).is_closed() == old(self).is_closed(),
            final(self).sub_count() == old(self).sub_count() + 1,
            s.cursor as int == old(self).history().len(),
    {
        self.subs = self.subs + 1;
        Subscription { cursor: self.head }
    }

    /// Detaches one subscription; called on every exit path of a consumer.
    pub fn detach(&mut self)
        requires
            old(self).wf(),
        ensures
            final(self).wf(),
            final(self).history() == old(self).history(),
            final(self).is_closed() == old(self).is_closed(),
            final(self).sub_count() == (if old(self).sub_count() > 0 {
                (old(self).sub_count() - 1) as u64
            } else {
                0u64
            }),
    {
        if self.subs > 0 {
            self.subs = self.subs - 1;
        }
    }

    /// Shuts the broadcaster down: attached subscriptions drain what is
    /// buffered and then see `Closed`.
    pub fn close(&mut self)
        requires
            old(self).wf(),
        ensures
            final(self).wf(),
            final(self).history() == old(self).history(),
            final(self).sub_count() == old(self).sub_count(),
            final(self).is_closed(),
    {
        self.closed = true;
    }

    /// How many messages were ever published to this broadcaster.
    pub fn history_total(&self) -> (n: u64)
        requires
            self.wf(),
        ensures
            n as int == self.history().len(),
    {
        self.head
    }

    /// How many subscriptions are currently attached.
    pub fn attached_total(&self) -> (n: u64)
        ensures
            n == self.sub_count(),
    {
        self.subs
    }

    /// Whether the broadcaster was shut down.
    pub fn is_shut(&self) -> (c: bool)
        ensures
            c == self.is_closed(),
    {
        self.closed
    }

    /// One delivery step for `sub`: returns exactly what `next_view` says
    /// the subscription is owed, advancing the cursor as `next_cursor` says.
    /// `None` means nothing is pending and the consumer should wait for the
    /// next publish.
    pub fn next_event(&self, sub: &mut Subscription) -> (r: Option<Event>)
        requires
            self.wf(),
            old(sub).cursor as int <= self.history().len(),
        ensures
            final(sub).cursor as int == next_cursor(self.history(), old(sub).cursor as int),
            opt_event_view(r) == next_view(self.history(), self.is_closed(), old(sub).cursor as int),
            old(sub).cursor <= final(sub).cursor,
            final(sub).cursor as int <= self.history().len(),
    {
        if sub.cursor == self.head {
            if self.closed {
                Some(Event::Closed)
            } else {
                None
            }
        } else if self.head - sub.cursor > CAPACITY {
            let skipped = self.head - sub.cursor - CAPACITY;
            sub.cursor = self.head - CAPACITY;
            Some(Event::Lag(skipped))
        } else {
            let start = if self.head > CAPACITY {
                self.head - CAPACITY
            } else {
                0
            };
            let idx = (sub.cursor - start) as usize;
            let payload = self.buf[idx].clone();
            sub.cursor = sub.cursor + 1;
            Some(Event::Message(payload))
        }
    }
}

/// Everything a subscription at `cursor` delivers if it drains until nothing
/// is pending and no further publish happens: payloads in delivery order,
/// with the lag jump applied when the cursor is too far behind.
pub open spec fn drained(hist: Seq<Seq<char>>, cursor: int) -> Seq<Seq<char>>
    decreases hist.len() - cursor,
{
    if cursor < 0 || cursor >= hist.len() {
        Seq::empty()
    } else if hist.len() - cursor > cap() {
        drained(hist, hist.len() - cap())
    } else {
        seq![hist[cursor]] + drained(hist, cursor + 1)
    }
}

/// Index of the first message a drain from `cursor` actually delivers:
/// the cursor itself, unless it fell behind the retained window.
pub open spec fn first_delivered(hist: Seq<Seq<char>>, cursor: int) -> int {
    if hist.len() - cursor > cap() {
        hist.len() - cap()
    } else {
        cursor
    }
}

/// A drain delivers exactly the suffix of the publish history that starts
/// at `first_delivered`: nothing before the cursor, nothing outside the
/// retained window, everything else, in publish order.
pub proof fn lemma_drained_is_recent_suffix(hist: Seq<Seq<char>>, cursor: int)
    requires
        0 <= cursor <= hist.len(),
    ensures
        drained(hist, cursor) == hist.subrange(first_delivered(hist, cursor), hist.len() as int),
    decreases hist.len() - cursor,
{
    if cursor == hist.len() {
        assert(drained(hist, cursor) =~= hist.subrange(cursor, hist.len() as int));
    } else if hist.len() - cursor > cap() {
        lemma_drained_is_recent_suffix(hist, hist.len() - cap());
    } else {
        lemma_drained_is_recent_suffix(hist, cursor + 1);
        assert(drained(hist, cursor) =~= hist.subrange(cursor, hist.len() as int));
    }
}

/// Each delivery step agrees with the drain: what `next_view` hands a
/// subscription at `cursor` is exactly how `drained` continues from
/// `next_cursor`, so a consumer that repeatedly takes `next_event` until
/// nothing is pending delivers precisely `drained(hist, cursor)`.
pub proof fn lemma_drain_step(hist: Seq<Seq<char>>, cursor: int)
    requires
        0 <= cursor <= hist.len(),
    ensures
        drained(hist, cursor) == (match next_view(hist, false, cursor) {
            None => Seq::<Seq<char>>::empty(),
            Some(EventView::Message(p)) => seq![p] + drained(hist, next_cursor(hist, cursor)),
            Some(EventView::Lag(_)) => drained(hist, next_cursor(hist, cursor)),
            Some(EventView::Closed) => Seq::<Seq<char>>::empty(),
        }),
{
    if cursor == hist.len() {
        assert(drained(hist, cursor) =~= Seq::<Seq<char>>::empty());
    }
}

/// No spurious delivery: a subscription whose topic has seen no publish
/// since it attached has nothing pending and drains nothing.
pub proof fn lemma_no_spurious_delivery(hist: Seq<Seq<char>>, cursor: int)
    requires
        cursor == hist.len(),
    ensures
        next_view(hist, false, cursor) is None,
        drained(hist, cursor) == Seq::<Seq<char>>::empty(),
{
    assert(drained(hist, cursor) =~= Seq::<Seq<char>>::empty());
}

/// Every subscription attached when a message is published (its cursor at
/// most the history length at that moment) delivers that message when it
/// drains: the drained sequence ends with the new payload.
pub proof fn lemma_publish_reaches_attached(hist: Seq<Seq<char>>, m: Seq<char>, cursor: int)
    requires
        0 <= cursor <= hist.len(),
    ensures
        drained(hist.push(m), cursor).len() > 0,
        drained(hist.push(m), cursor).last() == m,
{
    lemma_drained_is_recent_suffix(hist.push(m), cursor);
}

/// Order preservation: positions of the drained sequence come from history
/// indices in the same order, so a subscription that delivers two messages
/// delivers them in the order they were published.
pub proof fn lemma_order_preserved(hist: Seq<Seq<char>>, cursor: int, i: int, j: int)
    requires
        0 <= cursor <= hist.len(),
        0 <= i < j < drained(hist, cursor).len(),
    ensures
        drained(hist, cursor)[i] == hist[first_delivered(hist, cursor) + i],
        drained(hist, cursor)[j] == hist[first_delivered(hist, cursor) + j],
        first_delivered(hist, cursor) + i < first_delivered(hist, cursor) + j,
{
    lemma_drained_is_recent_suffix(hist, cursor);
}

/// Late-subscribe: every position a drain delivers comes from a history
/// index no earlier than the attach point, so a message published before a
/// subscription attached is never replayed to it.
pub proof fn lemma_no_replay(hist: Seq<Seq<char>>, attach: int, cursor: int, k: int)
    requires
        0 <= attach <= cursor <= hist.len(),
        0 <= k < drained(hist, cursor).len(),
    ensures
        drained(hist, cursor)[k] == hist[first_delivered(hist, cursor) + k],
        first_delivered(hist, cursor) + k >= attach,
{
    lemma_drained_is_recent_suffix(hist, cursor);
}

/// Lag on overflow: once more than `CAPACITY` messages are published past a
/// subscription's cursor, its next event is a lag report carrying exactly
/// the number of messages lost, and the drain that follows replays only the
/// most recent `CAPACITY` messages, not the whole backlog.
pub proof fn lemma_lag_on_overflow(hist: Seq<Seq<char>>, closed: bool, cursor: int)
    requires
        0 <= cursor <= hist.len(),
        hist.len() - cursor > cap(),
    ensures
        next_view(hist, closed, cursor) == Some(EventView::Lag(hist.len() - cursor - cap())),
        drained(hist, cursor).len() == cap(),
        forall|k: int|
            0 <= k < cap() ==> #[trigger] drained(hist, cursor)[k] == hist[hist.len() - cap() + k],
{
    lemma_drained_is_recent_suffix(hist, cursor);
}

} // verus!
