//! Lifecycle events and the one-to-many fan-out that carries them to every
//! current subscriber (primarily admin dashboards).

use vstd::prelude::*;

verus! {

/// One immutable lifecycle event.
#[derive(Debug, PartialEq, Eq)]
pub enum LiveEvent {
    /// A scout joined the waiting group.
    ScoutQueued(String),
    /// A scout left the waiting group.
    ScoutDequeued(String),
    /// A scout was handed one team of one match.
    AssignmentMade { scout: String, team: String, match_key: String },
}

/// Mathematical model of a lifecycle event.
pub ghost enum EventModel {
    Queued(Seq<char>),
    Dequeued(Seq<char>),
    Assigned { scout: Seq<char>, team: Seq<char>, match_key: Seq<char> },
}

impl View for LiveEvent {
    type V = EventModel;

    open spec fn view(&self) -> EventModel {
        match self {
            LiveEvent::ScoutQueued(n) => EventModel::Queued(n@),
            LiveEvent::ScoutDequeued(n) => EventModel::Dequeued(n@),
            LiveEvent::AssignmentMade { scout, team, match_key } => EventModel::Assigned {
                scout: scout@,
                team: team@,
                match_key: match_key@,
            },
        }
    }
}

impl DeepView for LiveEvent {
    type V = EventModel;

    open spec fn deep_view(&self) -> EventModel {
        self@
    }
}

impl Clone for LiveEvent {
    fn clone(&self) -> (r: Self)
        ensures
            r@ == self@,
    {
        match self {
            LiveEvent::ScoutQueued(n) => LiveEvent::ScoutQueued(n.clone()),
            LiveEvent::ScoutDequeued(n) => LiveEvent::ScoutDequeued(n.clone()),
            LiveEvent::AssignmentMade { scout, team, match_key } => LiveEvent::AssignmentMade {
                scout: scout.clone(),
                team: team.clone(),
                match_key: match_key.clone(),
            },
        }
    }
}

/// Mathematical model of the fan-out: one undelivered mailbox per live
/// subscriber, and the next fresh subscriber handle.
pub ghost struct BroadcasterModel {
    pub subs: Seq<(u64, Seq<EventModel>)>,
    pub next: int,
}

/// The fan-out's invariant: subscriber handles are unique, and every
/// live handle is below the next fresh one.
pub open spec fn broadcaster_wf(m: BroadcasterModel) -> bool {
    &&& forall|i: int, j: int|
        #![trigger m.subs[i], m.subs[j]]
        0 <= i < j < m.subs.len() ==> m.subs[i].0 != m.subs[j].0
    &&& forall|i: int| 0 <= i < m.subs.len() ==> #[trigger] m.subs[i].0 < m.next
}

/// Multi-producer, multi-consumer fan-out.  `publish` never blocks on a
/// slow or absent subscriber: it only appends to mailboxes, which readers
/// drain at their own pace.  New subscribers see only events published
/// after they subscribe; publishing with zero subscribers is not an error.
pub struct EventBroadcaster {
    next_id: u64,
    subs: Vec<(u64, Vec<LiveEvent>)>,
}

impl View for EventBroadcaster {
    type V = BroadcasterModel;

    closed spec fn view(&self) -> BroadcasterModel {
        BroadcasterModel { subs: self.subs.deep_view(), next: self.next_id as int }
    }
}

impl EventBroadcaster {
    /// Subscriber handles are unique, and every live handle is below the
    /// next fresh one.
    pub open spec fn wf(&self) -> bool {
        broadcaster_wf(self@)
    }

    /// A fan-out with no subscribers yet.
    pub fn new() -> (b: EventBroadcaster)
        ensures
            b@.subs.len() == 0,
            b@.next == 0,
            b.wf(),
    {
        EventBroadcaster { next_id: 0, subs: Vec::new() }
    }

    /// Registers a new subscriber and returns its handle.  The new mailbox
    /// starts empty: a subscriber never sees an event published before it
    /// joined.
    pub fn subscribe(&mut self) -> (id: u64)
        requires
            old(self).wf(),
            old(self)@.next < u64::MAX,
        ensures
            final(self).wf(),
            final(self)@.subs == old(self)@.subs.push((id, Seq::<EventModel>::empty())),
            final(self)@.next == old(self)@.next + 1,
            forall|j: int| 0 <= j < old(self)@.subs.len() ==> old(self)@.subs[j].0 != id,
    {
        let id = self.next_id;
        self.next_id = self.next_id + 1;
        self.subs.push((id, Vec::new()));
        proof {
            assert(self@.subs =~~= old(self)@.subs.push((id, Seq::<EventModel>::empty())));
        }
        id
    }

    /// Delivers one event to every subscriber active now: each live mailbox
    /// is extended by exactly this event, and no mailbox is created or
    /// dropped.  Never an error, even with zero subscribers.
    pub fn publish(&mut self, event: &LiveEvent)
        requires
            old(self).wf(),
        ensures
            final(self).wf(),
            final(self)@.next == old(self)@.next,
            final(self)@.subs.len() == old(self)@.subs.len(),
            forall|i: int|
                #![trigger final(self)@.subs[i]]
                0 <= i < old(self)@.subs.len() ==> final(self)@.subs[i].0 == old(self)@.subs[i].0
                    && final(self)@.subs[i].1 == old(self)@.subs[i].1.push(event@),
    {
        let mut i: usize = 0;
        while i < self.subs.len()
            invariant
                i <= self.subs.len(),
                self.next_id == old(self).next_id,
                self@.subs.len() == old(self)@.subs.len(),
                forall|j: int|
                    #![trigger self@.subs[j]]
                    0 <= j < i ==> self@.subs[j].0 == old(self)@.subs[j].0 && self@.subs[j].1
                        == old(self)@.subs[j].1.push(event@),
                forall|j: int|
                    #![trigger self@.subs[j]]
                    i <= j < self@.subs.len() ==> self@.subs[j] == old(self)@.subs[j],
            decreases self.subs.len() - i,
        {
            let ghost before = self@.subs;
            let ghost beforev = self.subs@;
            self.subs[i].1.push(event.clone());
            proof {
                assert(before[i as int] == old(self)@.subs[i as int]);
                assert(self@.subs[i as int].1 =~= before[i as int].1.push(event@));
                assert(self@.subs[i as int].0 == before[i as int].0);
                assert forall|j: int|
                    0 <= j < i + 1 implies self@.subs[j].0 == old(self)@.subs[j].0
                    && self@.subs[j].1 == old(self)@.subs[j].1.push(event@) by {
                    if j < i {
                        assert(self.subs@[j] == beforev[j]);
                        assert(self@.subs[j] == before[j]);
                        assert(before[j].0 == old(self)@.subs[j].0);
                        assert(before[j].1 == old(self)@.subs[j].1.push(event@));
                    }
                }
                assert forall|j: int|
                    i + 1 <= j < self@.subs.len() implies self@.subs[j] == old(self)@.subs[j] by {
                    assert(self.subs@[j] == beforev[j]);
                    assert(self@.subs[j] == before[j]);
                    assert(before[j] == old(self)@.subs[j]);
                }
            }
            i += 1;
        }
        proof {
            assert forall|i: int| 0 <= i < self@.subs.len() implies self@.subs[i].0 < self@.next
                by {
                assert(self@.subs[i].0 == old(self)@.subs[i].0);
            }
        }
    }

    /// Takes and returns everything waiting in one subscriber's mailbox,
    /// leaving that mailbox empty.  An unknown handle yields nothing.
    pub fn drain(&mut self, id: u64) -> (r: Vec<LiveEvent>)
        requires
            old(self).wf(),
        ensures
            final(self).wf(),
            final(self)@.next == old(self)@.next,
            ({
                let subs = old(self)@.subs;
                if exists|i: int| 0 <= i < subs.len() && subs[i].0 == id {
                    let i = choose|i: int| 0 <= i < subs.len() && subs[i].0 == id;
                    r.deep_view() == subs[i].1 && final(self)@.subs == subs.update(
                        i,
                        (id, Seq::<EventModel>::empty()),
                    )
                } else {
                    r.deep_view() == Seq::<EventModel>::empty() && *final(self) == *old(self)
                }
            }),
    {
        let mut k: usize = 0;
        while k < self.subs.len()
            invariant
                k <= self.subs.len(),
                *self == *old(self),
                old(self).wf(),
                forall|j: int| 0 <= j < k ==> self@.subs[j].0 != id,
            decreases self.subs.len() - k,
        {
            if self.subs[k].0 == id {
                proof {
                    assert(self@.subs[k as int].0 == id);
                    let i = choose|i: int|
                        0 <= i < self@.subs.len() && self@.subs[i].0 == id;
                    assert(i == k) by {
                        if i < k {
                            assert(self@.subs[i].0 != self@.subs[k as int].0);
                        }
                        if k < i {
                            assert(self@.subs[k as int].0 != self@.subs[i].0);
                        }
                    };
                }
                let entry = self.subs.remove(k);
                self.subs.insert(k, (id, Vec::new()));
                proof {
                    assert(self@.subs =~~= old(self)@.subs.update(
                        k as int,
                        (id, Seq::<EventModel>::empty()),
                    ));
                    assert forall|a: int, b: int|
                        0 <= a < b < self@.subs.len() implies self@.subs[a].0 != self@.subs[b].0
                        by {
                        assert(old(self)@.subs[a].0 != old(self)@.subs[b].0);
                    };
                    assert forall|a: int| 0 <= a < self@.subs.len() implies self@.subs[a].0
                        < self@.next by {
                        assert(old(self)@.subs[a].0 < old(self)@.next);
                    };
                }
                return entry.1;
            }
            k += 1;
        }
        Vec::new()
    }

    /// Removes one subscriber and its mailbox; other subscribers are not
    /// affected.  An unknown handle changes nothing.
    pub fn unsubscribe(&mut self, id: u64)
        requires
            old(self).wf(),
        ensures
            final(self).wf(),
            final(self)@.next == old(self)@.next,
            ({
                let subs = old(self)@.subs;
                if exists|i: int| 0 <= i < subs.len() && subs[i].0 == id {
                    let i = choose|i: int| 0 <= i < subs.len() && subs[i].0 == id;
                    final(self)@.subs == subs.remove(i)
                } else {
                    *final(self) == *old(self)
                }
            }),
    {
        let mut k: usize = 0;
        while k < self.subs.len()
            invariant
                k <= self.subs.len(),
                *self == *old(self),
                old(self).wf(),
                forall|j: int| 0 <= j < k ==> self@.subs[j].0 != id,
            decreases self.subs.len() - k,
        {
            if self.subs[k].0 == id {
                proof {
                    assert(self@.subs[k as int].0 == id);
                    let i = choose|i: int|
                        0 <= i < self@.subs.len() && self@.subs[i].0 == id;
                    assert(i == k) by {
                        if i < k {
                            assert(self@.subs[i].0 != self@.subs[k as int].0);
                        }
                        if k < i {
                            assert(self@.subs[k as int].0 != self@.subs[i].0);
                        }
                    };
                }
                self.subs.remove(k);
                proof {
                    assert(self@.subs =~= old(self)@.subs.remove(k as int));
                    assert forall|a: int, b: int|
                        0 <= a < b < self@.subs.len() implies self@.subs[a].0 != self@.subs[b].0
                        by {
                        let oa = if a < k { a } else { a + 1 };
                        let ob = if b < k { b } else { b + 1 };
                        assert(self@.subs[a] == old(self)@.subs[oa]);
                        assert(self@.subs[b] == old(self)@.subs[ob]);
                        assert(old(self)@.subs[oa].0 != old(self)@.subs[ob].0);
                    };
                    assert forall|a: int| 0 <= a < self@.subs.len() implies self@.subs[a].0
                        < self@.next by {
                        let oa = if a < k { a } else { a + 1 };
                        assert(self@.subs[a] == old(self)@.subs[oa]);
                        assert(old(self)@.subs[oa].0 < old(self)@.next);
                    };
                }
                return ;
            }
            k += 1;
        }
    }

    /// Whether another subscriber handle can still be issued.
    pub fn has_capacity(&self) -> (b: bool)
        ensures
            b == (self@.next < u64::MAX),
    {
        self.next_id < u64::MAX
    }

    /// How many subscribers are live right now.
    pub fn subscriber_count(&self) -> (n: usize)
        ensures
            n == self@.subs.len(),
    {
        self.subs.len()
    }
}

} // verus!
