use vstd::prelude::*;

verus! {

/// The topics one client asked to be marked as subscribed to.
struct ClientRecord {
    id: String,
    topics: Vec<String>,
}

/// A best-effort record of which client asked to subscribe to which topic.
/// It gates nothing — streams are opened independently of it — it only
/// remembers the (client, topic) pairs that subscribe requests named.
pub struct Directory {
    records: Vec<ClientRecord>,
}

impl Directory {
    /// The client identifiers that hold a record, in first-seen order.
    pub closed spec fn clients(self) -> Seq<Seq<char>> {
        self.records@.map(|i: int, r: ClientRecord| r.id@)
    }

    /// The topics marked for the client at position `i`.
    pub closed spec fn topics_of_at(self, i: int) -> Seq<Seq<char>> {
        self.records@[i].topics@.map(|j: int, t: String| t@)
    }

    /// Whether the pair (client, topic) has been recorded.
    pub open spec fn is_subscribed(self, c: Seq<char>, t: Seq<char>) -> bool {
        exists|i: int|
            0 <= i < self.clients().len() && self.clients()[i] == c && self.topics_of_at(i).contains(t)
    }

    /// Client identifiers are distinct, and so are the topics within one
    /// client's record: the directory behaves as a map of sets.
    pub open spec fn wf(self) -> bool {
        &&& forall|i: int, j: int|
            0 <= i < j < self.clients().len() ==> self.clients()[i] != self.clients()[j]
        &&& forall|i: int, p: int, q: int|
            0 <= i < self.clients().len() && 0 <= p < q < self.topics_of_at(i).len()
                ==> self.topics_of_at(i)[p] != self.topics_of_at(i)[q]
    }

    /// An empty directory.
    pub fn new() -> (d: Directory)
        ensures
            d.wf(),
            forall|c: Seq<char>, t: Seq<char>| !d.is_subscribed(c, t),
    {
        let d = Directory { records: Vec::new() };
        proof {
            assert(d.clients() =~= Seq::<Seq<char>>::empty());
        }
        d
    }

    /// Adds `tkey` to the record at position `i`, if it is not yet there.
    fn record_topic_at(&mut self, i: usize, tkey: String)
        requires
            old(self).wf(),
            i < old(self).clients().len(),
        ensures
            final(self).wf(),
            final(self).clients() == old(self).clients(),
            final(self).topics_of_at(i as int).contains(tkey@),
            forall|k: int|
                0 <= k < old(self).clients().len() && k != i as int ==> final(self).topics_of_at(k)
                    == old(self).topics_of_at(k),
            forall|t: Seq<char>|
                t != tkey@ ==> final(self).topics_of_at(i as int).contains(t) == old(self).topics_of_at(i as int).contains(t),
    {
        let m = self.records[i].topics.len();
        let mut j: usize = 0;
        while j < m
            invariant
                *self == *old(self),
                self.wf(),
                i < self.clients().len(),
                m == self.records@[i as int].topics.len(),
                j <= m,
                forall|k: int| 0 <= k < j ==> self.topics_of_at(i as int)[k] != tkey@,
            decreases m - j,
        {
            if self.records[i].topics[j] == tkey {
                proof {
                    assert(self.topics_of_at(i as int)[j as int] == tkey@);
                    assert(self.topics_of_at(i as int).contains(tkey@));
                }
                return ;
            }
            proof {
                assert(self.topics_of_at(i as int)[j as int] == self.records@[i as int].topics@[j as int]@);
            }
            j = j + 1;
        }
        let ghost tv: Seq<char> = tkey@;
        let r = &mut self.records[i];
        r.topics.push(tkey);
        proof {
            let s_old = old(self).topics_of_at(i as int);
            let s_new = self.topics_of_at(i as int);
            assert(self.clients() =~= old(self).clients());
            assert(s_new =~= s_old.push(tv));
            assert(s_new[s_old.len() as int] == tv);
            assert(s_new.contains(tv));
            assert forall|k: int|
                0 <= k < old(self).clients().len() && k != i as int implies self.topics_of_at(k)
                    == old(self).topics_of_at(k) by {
                assert(self.records@[k] == old(self).records@[k]);
            }
            assert forall|t: Seq<char>| t != tv implies s_new.contains(t) == s_old.contains(
                t,
            ) by {
                if s_new.contains(t) {
                    let p = choose|p: int| 0 <= p < s_new.len() && s_new[p] == t;
                    assert(p < s_old.len());
                    assert(s_old[p] == t);
                    assert(s_old.contains(t));
                }
                if s_old.contains(t) {
                    let p = choose|p: int| 0 <= p < s_old.len() && s_old[p] == t;
                    assert(s_new[p] == t);
                    assert(s_new.contains(t));
                }
            }
            assert forall|ii: int, p: int, q: int|
                0 <= ii < self.clients().len() && 0 <= p < q < self.topics_of_at(ii).len() implies
                self.topics_of_at(ii)[p] != self.topics_of_at(ii)[q] by {
                if ii == i as int {
                    if q == s_old.len() as int {
                        assert(self.topics_of_at(ii)[p] == s_old[p]);
                        assert(s_old[p] != tv);
                    } else {
                        assert(old(self).topics_of_at(ii)[p] != old(self).topics_of_at(ii)[q]);
                    }
                } else {
                    assert(old(self).topics_of_at(ii)[p] != old(self).topics_of_at(ii)[q]);
                }
            }
        }
    }

    /// Marks the pair (client, topic) as subscribed. Exactly that pair
    /// becomes recorded; every other pair keeps its previous standing, and
    /// recording an already-recorded pair changes nothing.
    pub fn record(&mut self, client_id: &str, topic: &str)
        requires
            old(self).wf(),
        ensures
            final(self).wf(),
            final(self).is_subscribed(client_id@, topic@),
            forall|c: Seq<char>, t: Seq<char>|
                !(c == client_id@ && t == topic@) ==> final(self).is_subscribed(c, t) == old(self).is_subscribed(c, t),
    {
        let ckey: String = client_id.to_owned();
        let tkey: String = topic.to_owned();
        let n = self.records.len();
        let mut i: usize = 0;
        while i < n
            invariant
                *self == *old(self),
                self.wf(),
                n == self.records.len(),
                i <= n,
                forall|k: int| 0 <= k < i ==> self.clients()[k] != client_id@,
                ckey@ == client_id@,
                tkey@ == topic@,
            decreases n - i,
        {
            if self.records[i].id == ckey {
                proof {
                    assert(self.clients()[i as int] == client_id@);
                }
                self.record_topic_at(i, tkey);
                proof {
                    assert(self.is_subscribed(client_id@, topic@)) by {
                        assert(self.clients()[i as int] == client_id@);
                        assert(self.topics_of_at(i as int).contains(topic@));
                    }
                    assert forall|c: Seq<char>, t: Seq<char>|
                        !(c == client_id@ && t == topic@) implies self.is_subscribed(c, t) == old(self).is_subscribed(c, t) by {
                        if self.is_subscribed(c, t) {
                            let k = choose|k: int|
                                0 <= k < self.clients().len() && self.clients()[k] == c
                                    && self.topics_of_at(k).contains(t);
                            if k == i as int {
                                assert(t != topic@);
                                assert(old(self).topics_of_at(k).contains(t));
                            }
                            assert(0 <= k < old(self).clients().len() && old(self).clients()[k]
                                == c && old(self).topics_of_at(k).contains(t));
                        }
                        if old(self).is_subscribed(c, t) {
                            let k = choose|k: int|
                                0 <= k < old(self).clients().len() && old(self).clients()[k] == c
                                    && old(self).topics_of_at(k).contains(t);
                            if k == i as int {
                                assert(t != topic@);
                                assert(self.topics_of_at(k).contains(t));
                            }
                            assert(0 <= k < self.clients().len() && self.clients()[k] == c
                                && self.topics_of_at(k).contains(t));
                        }
                    }
                }
                return ;
            }
            proof {
                assert(self.clients()[i as int] == self.records@[i as int].id@);
            }
            i = i + 1;
        }
        let mut ts: Vec<String> = Vec::new();
        ts.push(tkey);
        self.records.push(ClientRecord { id: ckey, topics: ts });
        proof {
            assert(self.clients() =~= old(self).clients().push(client_id@));
            assert(self.topics_of_at(n as int) =~= seq![topic@]);
            assert(self.topics_of_at(n as int)[0] == topic@);
            assert(self.topics_of_at(n as int).contains(topic@));
            assert forall|k: int|
                0 <= k < n as int implies self.topics_of_at(k) == old(self).topics_of_at(k) by {
                assert(self.records@[k] == old(self).records@[k]);
            }
            assert(self.is_subscribed(client_id@, topic@)) by {
                assert(self.clients()[n as int] == client_id@);
            }
            assert forall|c: Seq<char>, t: Seq<char>|
                !(c == client_id@ && t == topic@) implies self.is_subscribed(c, t) == old(self).is_subscribed(c, t) by {
                if self.is_subscribed(c, t) {
                    let k = choose|k: int|
                        0 <= k < self.clients().len() && self.clients()[k] == c
                            && self.topics_of_at(k).contains(t);
                    if k == n as int {
                        assert(c == client_id@);
                        assert(self.topics_of_at(k) =~= seq![topic@]);
                        assert(t == topic@);
                        assert(false);
                    }
                    assert(0 <= k < old(self).clients().len() && old(self).clients()[k] == c && old(self).topics_of_at(k).contains(t));
                }
                if old(self).is_subscribed(c, t) {
                    let k = choose|k: int|
                        0 <= k < old(self).clients().len() && old(self).clients()[k] == c && old(self).topics_of_at(k).contains(t);
                    assert(0 <= k < self.clients().len() && self.clients()[k] == c
                        && self.topics_of_at(k).contains(t));
                }
            }
            assert forall|ii: int, p: int, q: int|
                0 <= ii < self.clients().len() && 0 <= p < q < self.topics_of_at(ii).len() implies
                self.topics_of_at(ii)[p] != self.topics_of_at(ii)[q] by {
                if ii < n as int {
                    assert(old(self).topics_of_at(ii)[p] != old(self).topics_of_at(ii)[q]);
                }
            }
        }
    }

    /// Whether the pair (client, topic) stands recorded.
    pub fn subscribed(&self, client_id: &str, topic: &str) -> (r: bool)
        requires
            self.wf(),
        ensures
            r == self.is_subscribed(client_id@, topic@),
    {
        let ckey: String = client_id.to_owned();
        let tkey: String = topic.to_owned();
        let n = self.records.len();
        let mut i: usize = 0;
        while i < n
            invariant
                self.wf(),
                n == self.records.len(),
                i <= n,
                forall|k: int|
                    0 <= k < i ==> !(self.clients()[k] == client_id@ && self.topics_of_at(k).contains(topic@)),
                ckey@ == client_id@,
                tkey@ == topic@,
            decreases n - i,
        {
            if self.records[i].id == ckey {
                proof {
                    assert(self.clients()[i as int] == client_id@);
                }
                let m = self.records[i].topics.len();
                let mut j: usize = 0;
                while j < m
                    invariant
                        self.wf(),
                        i < n == self.records.len(),
                        m == self.records@[i as int].topics.len(),
                        j <= m,
                        self.clients()[i as int] == client_id@,
                        forall|k: int| 0 <= k < j ==> self.topics_of_at(i as int)[k] != topic@,
                        tkey@ == topic@,
                    decreases m - j,
                {
                    if self.records[i].topics[j] == tkey {
                        proof {
                            assert(self.topics_of_at(i as int)[j as int] == topic@);
                            assert(self.topics_of_at(i as int).contains(topic@));
                        }
                        return true;
                    }
                    proof {
                        assert(self.topics_of_at(i as int)[j as int] == self.records@[i as int].topics@[j as int]@);
                    }
                    j = j + 1;
                }
                proof {
                    assert(!self.topics_of_at(i as int).contains(topic@)) by {
                        if self.topics_of_at(i as int).contains(topic@) {
                            let p = choose|p: int|
                                0 <= p < self.topics_of_at(i as int).len() && self.topics_of_at(i as int)[p] == topic@;
                            assert(self.topics_of_at(i as int)[p] != topic@);
                        }
                    }
                    assert(!self.is_subscribed(client_id@, topic@)) by {
                        if self.is_subscribed(client_id@, topic@) {
                            let k = choose|k: int|
                                0 <= k < self.clients().len() && self.clients()[k] == client_id@
                                    && self.topics_of_at(k).contains(topic@);
                            if k != i as int {
                                if k < i as int {
                                    assert(self.clients()[k] != self.clients()[i as int]);
                                } else {
                                    assert(self.clients()[i as int] != self.clients()[k]);
                                }
                            }
                        }
                    }
                }
                return false;
            }
            proof {
                assert(self.clients()[i as int] == self.records@[i as int].id@);
            }
            i = i + 1;
        }
        proof {
            assert(!self.is_subscribed(client_id@, topic@)) by {
                if self.is_subscribed(client_id@, topic@) {
                    let k = choose|k: int|
                        0 <= k < self.clients().len() && self.clients()[k] == client_id@
                            && self.topics_of_at(k).contains(topic@);
                    assert(!(self.clients()[k] == client_id@ && self.topics_of_at(k).contains(
                        topic@,
                    )));
                }
            }
        }
        false
    }
}

} // verus!
