use vstd::prelude::*;
use crate::broadcaster::{Broadcaster, Subscription};
use crate::event::{opt_event_view, Event, PublishOutcome};
use crate::broadcaster::{next_cursor, next_view};

verus! {

/// One registry entry: a topic identifier and the broadcaster it owns.
struct TopicEntry {
    name: String,
    b: Broadcaster,
}

/// The topic registry: topic identifiers map to broadcasters; a broadcaster
/// is created lazily on the first reference to its topic (publish or
/// subscribe) and never removed. Callers serialize access, so lookup and
/// creation happen under one exclusive borrow and a race of two first
/// references cannot create two broadcasters for one topic.
pub struct Hub {
    entries: Vec<TopicEntry>,
}

impl Hub {
    /// The registered topic identifiers, in creation order.
    pub closed spec fn topics(self) -> Seq<Seq<char>> {
        self.entries@.map(|i: int, e: TopicEntry| e.name@)
    }

    /// The broadcaster owned by the topic at position `i`.
    pub closed spec fn broadcaster_at(self, i: int) -> Broadcaster {
        self.entries@[i].b
    }

    /// Whether `t` is a registered topic.
    pub open spec fn has_topic(self, t: Seq<char>) -> bool {
        exists|i: int| 0 <= i < self.topics().len() && self.topics()[i] == t
    }

    /// The position of registered topic `t` (meaningful when `has_topic`).
    pub open spec fn topic_index(self, t: Seq<char>) -> int {
        choose|i: int| 0 <= i < self.topics().len() && self.topics()[i] == t
    }

    /// Topic identifiers are distinct — one broadcaster per topic — and
    /// every broadcaster is well formed.
    pub open spec fn wf(self) -> bool {
        &&& forall|i: int, j: int|
            0 <= i < j < self.topics().len() ==> self.topics()[i] != self.topics()[j]
        &&& forall|i: int|
            0 <= i < self.topics().len() ==> (#[trigger] self.broadcaster_at(i)).wf()
    }

    /// An empty registry.
    pub fn new() -> (h: Hub)
        ensures
            h.wf(),
            h.topics().len() == 0,
    {
        let h = Hub { entries: Vec::new() };
        proof {
            assert(h.topics() =~= Seq::<Seq<char>>::empty());
        }
        h
    }

    /// In a well-formed hub two positions holding the same topic identifier
    /// are the same position: however many callers race to reference a new
    /// topic, exactly one broadcaster exists for it.
    pub proof fn lemma_one_broadcaster_per_topic(self, i: int, j: int)
        requires
            self.wf(),
            0 <= i < self.topics().len(),
            0 <= j < self.topics().len(),
            self.topics()[i] == self.topics()[j],
        ensures
            i == j,
    {
        if i < j {
            assert(self.topics()[i] != self.topics()[j]);
        } else if j < i {
            assert(self.topics()[j] != self.topics()[i]);
        }
    }

    /// `topic_index` really is the one position of a registered topic.
    pub proof fn lemma_topic_index(self, t: Seq<char>)
        requires
            self.wf(),
            self.has_topic(t),
        ensures
            0 <= self.topic_index(t) < self.topics().len(),
            self.topics()[self.topic_index(t)] == t,
            forall|i: int|
                0 <= i < self.topics().len() && self.topics()[i] == t ==> i == self.topic_index(t),
    {
        assert forall|i: int|
            0 <= i < self.topics().len() && self.topics()[i] == t implies i == self.topic_index(t) by {
            self.lemma_one_broadcaster_per_topic(i, self.topic_index(t));
        }
    }

    /// Looks the topic up, creating a broadcaster with a fresh buffer on
    /// first reference; the registry only ever grows. Returns the topic's
    /// position. Any string, the empty one included, is a valid topic.
    pub fn get_or_create(&mut self, topic: &str) -> (idx: usize)
        requires
            old(self).wf(),
        ensures
            final(self).wf(),
            idx < final(self).topics().len(),
            final(self).topics()[idx as int] == topic@,
            final(self).has_topic(topic@),
            old(self).has_topic(topic@) ==> *final(self) == *old(self),
            !old(self).has_topic(topic@) ==> {
                &&& idx as int == old(self).topics().len()
                &&& final(self).topics() == old(self).topics().push(topic@)
                &&& forall|j: int|
                    0 <= j < old(self).topics().len() ==> final(self).broadcaster_at(j) == old(self).broadcaster_at(j)
                &&& final(self).broadcaster_at(idx as int).history() == Seq::<Seq<char>>::empty()
                &&& final(self).broadcaster_at(idx as int).sub_count() == 0
                &&& !final(self).broadcaster_at(idx as int).is_closed()
            },
    {
        let key: String = topic.to_owned();
        let n = self.entries.len();
        let mut i: usize = 0;
        while i < n
            invariant
                *self == *old(self),
                n == self.entries.len(),
                self.wf(),
                i <= n,
                forall|j: int| 0 <= j < i ==> self.topics()[j] != topic@,
                key@ == topic@,
            decreases n - i,
        {
            if self.entries[i].name == key {
                proof {
                    assert(self.topics()[i as int] == topic@);
                }
                return i;
            }
            proof {
                assert(self.topics()[i as int] == self.entries@[i as int].name@);
            }
            i = i + 1;
        }
        let b = Broadcaster::new();
        let ghost gb = b;
        self.entries.push(TopicEntry { name: key, b });
        proof {
            assert(self.topics() =~= old(self).topics().push(topic@));
            assert(!old(self).has_topic(topic@));
            assert(self.topics()[n as int] == topic@);
            assert forall|p: int, q: int|
                0 <= p < q < self.topics().len() implies self.topics()[p] != self.topics()[q] by {
                if q < n as int {
                    assert(old(self).topics()[p] != old(self).topics()[q]);
                }
            }
            assert(self.broadcaster_at(n as int) == gb);
            assert forall|jj: int|
                0 <= jj < self.topics().len() implies (#[trigger] self.broadcaster_at(jj)).wf() by {
                if jj < n as int {
                    assert(self.broadcaster_at(jj) == old(self).broadcaster_at(jj));
                    assert(old(self).broadcaster_at(jj).wf());
                }
            }
        }
        n
    }

    /// Publishes at a known position: appends to that broadcaster's history
    /// and touches no other topic (isolation).
    pub fn publish_at(&mut self, idx: usize, payload: String) -> (out: PublishOutcome)
        requires
            old(self).wf(),
            idx < old(self).topics().len(),
            old(self).broadcaster_at(idx as int).history().len() < u64::MAX,
            !old(self).broadcaster_at(idx as int).is_closed(),
        ensures
            final(self).wf(),
            final(self).topics() == old(self).topics(),
            final(self).broadcaster_at(idx as int).history() == old(self).broadcaster_at(
                idx as int,
            ).history().push(payload@),
            final(self).broadcaster_at(idx as int).sub_count() == old(self).broadcaster_at(
                idx as int,
            ).sub_count(),
            !final(self).broadcaster_at(idx as int).is_closed(),
            forall|j: int|
                0 <= j < old(self).topics().len() && j != idx as int ==> final(self).broadcaster_at(j) == old(self).broadcaster_at(j),
            out == (if old(self).broadcaster_at(idx as int).sub_count() == 0 {
                PublishOutcome::Dropped
            } else {
                PublishOutcome::Delivered(old(self).broadcaster_at(idx as int).sub_count())
            }),
    {
        proof {
            assert(old(self).broadcaster_at(idx as int).wf());
        }
        let e = &mut self.entries[idx];
        let out = e.b.publish(payload);
        proof {
            assert(self.topics() =~= old(self).topics());
            assert forall|jj: int|
                0 <= jj < self.topics().len() implies (#[trigger] self.broadcaster_at(jj)).wf() by {
                if jj != idx as int {
                    assert(self.broadcaster_at(jj) == old(self).broadcaster_at(jj));
                    assert(old(self).broadcaster_at(jj).wf());
                }
            }
        }
        out
    }

    /// Creates a subscription at a known position; its cursor starts at the
    /// current history length, so it sees only future messages.
    pub fn subscribe_at(&mut self, idx: usize) -> (s: Subscription)
        requires
            old(self).wf(),
            idx < old(self).topics().len(),
            old(self).broadcaster_at(idx as int).sub_count() < u64::MAX,
        ensures
            final(self).wf(),
            final(self).topics() == old(self).topics(),
            final(self).broadcaster_at(idx as int).history() == old(self).broadcaster_at(
                idx as int,
            ).history(),
            final(self).broadcaster_at(idx as int).sub_count() == old(self).broadcaster_at(
                idx as int,
            ).sub_count() + 1,
            final(self).broadcaster_at(idx as int).is_closed() == old(self).broadcaster_at(
                idx as int,
            ).is_closed(),
            forall|j: int|
                0 <= j < old(self).topics().len() && j != idx as int ==> final(self).broadcaster_at(j) == old(self).broadcaster_at(j),
            s.cursor as int == old(self).broadcaster_at(idx as int).history().len(),
    {
        proof {
            assert(old(self).broadcaster_at(idx as int).wf());
        }
        let e = &mut self.entries[idx];
        let s = e.b.subscribe();
        proof {
            assert(self.topics() =~= old(self).topics());
            assert forall|jj: int|
                0 <= jj < self.topics().len() implies (#[trigger] self.broadcaster_at(jj)).wf() by {
                if jj != idx as int {
                    assert(self.broadcaster_at(jj) == old(self).broadcaster_at(jj));
                    assert(old(self).broadcaster_at(jj).wf());
                }
            }
        }
        s
    }

    /// One delivery step for a subscription at a known position.
    pub fn next_event_at(&self, idx: usize, sub: &mut Subscription) -> (r: Option<Event>)
        requires
            self.wf(),
            idx < self.topics().len(),
            old(sub).cursor as int <= self.broadcaster_at(idx as int).history().len(),
        ensures
            final(sub).cursor as int == next_cursor(
                self.broadcaster_at(idx as int).history(),
                old(sub).cursor as int,
            ),
            opt_event_view(r) == next_view(
                self.broadcaster_at(idx as int).history(),
                self.broadcaster_at(idx as int).is_closed(),
                old(sub).cursor as int,
            ),
            old(sub).cursor <= final(sub).cursor,
            final(sub).cursor as int <= self.broadcaster_at(idx as int).history().len(),
    {
        proof {
            assert(self.broadcaster_at(idx as int).wf());
        }
        let e = &self.entries[idx];
        e.b.next_event(sub)
    }

    /// Detaches one subscription from the topic at a known position; run on
    /// every exit path of a consumer, however its connection ended.
    pub fn detach_at(&mut self, idx: usize)
        requires
            old(self).wf(),
            idx < old(self).topics().len(),
        ensures
            final(self).wf(),
            final(self).topics() == old(self).topics(),
            final(self).broadcaster_at(idx as int).history() == old(self).broadcaster_at(
                idx as int,
            ).history(),
            final(self).broadcaster_at(idx as int).is_closed() == old(self).broadcaster_at(
                idx as int,
            ).is_closed(),
            final(self).broadcaster_at(idx as int).sub_count() == (if old(self).broadcaster_at(
                idx as int,
            ).sub_count() > 0 {
                (old(self).broadcaster_at(idx as int).sub_count() - 1) as u64
            } else {
                0u64
            }),
            forall|j: int|
                0 <= j < old(self).topics().len() && j != idx as int ==> final(self).broadcaster_at(j) == old(self).broadcaster_at(j),
    {
        proof {
            assert(old(self).broadcaster_at(idx as int).wf());
        }
        let e = &mut self.entries[idx];
        e.b.detach();
        proof {
            assert(self.topics() =~= old(self).topics());
            assert forall|jj: int|
                0 <= jj < self.topics().len() implies (#[trigger] self.broadcaster_at(jj)).wf() by {
                if jj != idx as int {
                    assert(self.broadcaster_at(jj) == old(self).broadcaster_at(jj));
                    assert(old(self).broadcaster_at(jj).wf());
                }
            }
        }
    }

    /// Publishes a payload to a topic by name: lookup-or-create and enqueue
    /// under the same exclusive borrow. Mirrors one publish request; the
    /// outcome reports whether any subscription was attached to see it.
    pub fn publish_message(&mut self, topic: &str, payload: String) -> (out: PublishOutcome)
        requires
            old(self).wf(),
            old(self).has_topic(topic@) ==> {
                &&& old(self).broadcaster_at(old(self).topic_index(topic@)).history().len()
                    < u64::MAX
                &&& !old(self).broadcaster_at(old(self).topic_index(topic@)).is_closed()
            },
        ensures
            final(self).wf(),
            final(self).has_topic(topic@),
            old(self).has_topic(topic@) ==> final(self).topics() == old(self).topics() && final(self).topic_index(topic@) == old(self).topic_index(topic@),
            !old(self).has_topic(topic@) ==> final(self).topics() == old(self).topics().push(
                topic@,
            ),
            final(self).broadcaster_at(final(self).topic_index(topic@)).history() == (if old(self).has_topic(topic@) {
                old(self).broadcaster_at(old(self).topic_index(topic@)).history()
            } else {
                Seq::<Seq<char>>::empty()
            }).push(payload@),
            final(self).broadcaster_at(final(self).topic_index(topic@)).sub_count() == (if old(self).has_topic(topic@) {
                old(self).broadcaster_at(old(self).topic_index(topic@)).sub_count()
            } else {
                0
            }),
            out == (if old(self).has_topic(topic@) && old(self).broadcaster_at(
                old(self).topic_index(topic@),
            ).sub_count() != 0 {
                PublishOutcome::Delivered(
                    old(self).broadcaster_at(old(self).topic_index(topic@)).sub_count(),
                )
            } else {
                PublishOutcome::Dropped
            }),
            forall|j: int|
                0 <= j < old(self).topics().len() && old(self).topics()[j] != topic@ ==> final(self).broadcaster_at(j) == old(self).broadcaster_at(j) && final(self).topics()[j]
                    == old(self).topics()[j],
    {
        proof {
            if old(self).has_topic(topic@) {
                old(self).lemma_topic_index(topic@);
            }
        }
        let idx = self.get_or_create(topic);
        proof {
            self.lemma_topic_index(topic@);
            assert(self.topic_index(topic@) == idx as int);
        }
        let out = self.publish_at(idx, payload);
        proof {
            assert(self.has_topic(topic@)) by {
                assert(self.topics()[idx as int] == topic@);
            }
            self.lemma_topic_index(topic@);
            assert(self.topic_index(topic@) == idx as int);
        }
        out
    }

    /// Opens a subscription to a topic by name: lookup-or-create and attach
    /// under the same exclusive borrow. Returns the topic's position and
    /// the new subscription, whose cursor starts at the end of the topic's
    /// history: it sees only messages published after this call.
    pub fn subscribe_topic(&mut self, topic: &str) -> (r: (usize, Subscription))
        requires
            old(self).wf(),
            old(self).has_topic(topic@) ==> old(self).broadcaster_at(
                old(self).topic_index(topic@),
            ).sub_count() < u64::MAX,
        ensures
            final(self).wf(),
            final(self).has_topic(topic@),
            r.0 < final(self).topics().len(),
            final(self).topics()[r.0 as int] == topic@,
            final(self).topic_index(topic@) == r.0 as int,
            old(self).has_topic(topic@) ==> final(self).topics() == old(self).topics() && r.0 as int
                == old(self).topic_index(topic@),
            !old(self).has_topic(topic@) ==> final(self).topics() == old(self).topics().push(
                topic@,
            ) && r.0 as int == old(self).topics().len(),
            final(self).broadcaster_at(r.0 as int).history() == (if old(self).has_topic(topic@) {
                old(self).broadcaster_at(old(self).topic_index(topic@)).history()
            } else {
                Seq::<Seq<char>>::empty()
            }),
            final(self).broadcaster_at(r.0 as int).sub_count() == (if old(self).has_topic(
                topic@,
            ) {
                old(self).broadcaster_at(old(self).topic_index(topic@)).sub_count() + 1
            } else {
                1
            }),
            !old(self).has_topic(topic@) ==> !final(self).broadcaster_at(r.0 as int).is_closed(),
            r.1.cursor as int == final(self).broadcaster_at(r.0 as int).history().len(),
            forall|j: int|
                0 <= j < old(self).topics().len() && old(self).topics()[j] != topic@ ==> final(self).broadcaster_at(j) == old(self).broadcaster_at(j) && final(self).topics()[j]
                    == old(self).topics()[j],
    {
        proof {
            if old(self).has_topic(topic@) {
                old(self).lemma_topic_index(topic@);
            }
        }
        let idx = self.get_or_create(topic);
        proof {
            self.lemma_topic_index(topic@);
            assert(self.topic_index(topic@) == idx as int);
        }
        let s = self.subscribe_at(idx);
        proof {
            assert(self.has_topic(topic@)) by {
                assert(self.topics()[idx as int] == topic@);
            }
            self.lemma_topic_index(topic@);
            assert(self.topic_index(topic@) == idx as int);
        }
        (idx, s)
    }

    /// How many topics are registered.
    pub fn topic_total(&self) -> (n: usize)
        ensures
            n as int == self.topics().len(),
    {
        self.entries.len()
    }

    /// The position of `key`'s topic, if it is registered.
    fn find_index(&self, key: &String) -> (r: Option<usize>)
        requires
            self.wf(),
        ensures
            match r {
                Some(i) => i < self.topics().len() && self.topics()[i as int] == key@
                    && self.has_topic(key@) && self.topic_index(key@) == i as int,
                None => !self.has_topic(key@),
            },
    {
        let n = self.entries.len();
        let mut i: usize = 0;
        while i < n
            invariant
                self.wf(),
                n == self.entries.len(),
                i <= n,
                forall|j: int| 0 <= j < i ==> self.topics()[j] != key@,
            decreases n - i,
        {
            if self.entries[i].name == *key {
                proof {
                    assert(self.topics()[i as int] == key@);
                    self.lemma_topic_index(key@);
                }
                return Some(i);
            }
            proof {
                assert(self.topics()[i as int] == self.entries@[i as int].name@);
            }
            i = i + 1;
        }
        None
    }

    /// Whether a publish to this topic is within the machine limits the
    /// contracts ask for: the topic is either unregistered or open with
    /// room left in its publish counter.
    pub fn accepts_publish(&self, topic: &str) -> (r: bool)
        requires
            self.wf(),
        ensures
            r == (self.has_topic(topic@) ==> (self.broadcaster_at(
                self.topic_index(topic@),
            ).history().len() < u64::MAX && !self.broadcaster_at(
                self.topic_index(topic@),
            ).is_closed())),
    {
        let key: String = topic.to_owned();
        match self.find_index(&key) {
            None => true,
            Some(i) => {
                proof {
                    assert(self.broadcaster_at(i as int).wf());
                }
                let h = self.entries[i].b.history_total();
                let shut = self.entries[i].b.is_shut();
                h < u64::MAX && !shut
            },
        }
    }

    /// Whether another subscription to this topic is within the machine
    /// limits the contracts ask for.
    pub fn accepts_subscriber(&self, topic: &str) -> (r: bool)
        requires
            self.wf(),
        ensures
            r == (self.has_topic(topic@) ==> self.broadcaster_at(
                self.topic_index(topic@),
            ).sub_count() < u64::MAX),
    {
        let key: String = topic.to_owned();
        match self.find_index(&key) {
            None => true,
            Some(i) => self.entries[i].b.attached_total() < u64::MAX,
        }
    }
}

} // verus!
