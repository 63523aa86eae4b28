//! The per-connection handler layer: one service owning the coordinator,
//! the connection registry and the event fan-out.  Each inbound request
//! runs the coordinator under one critical section, fans the resulting
//! events out to every subscriber, and routes each direct assignment
//! message to the scout's live connection.

use vstd::prelude::*;

use crate::coordinator::{
    assignment_events, current_key, delivered_pins, pin_assignments, pin_names,
    remaining_waiting, retained_pins, take_rest, take_result, zip_pairs, Assignment,
    AssignmentModel, CoordinatorModel, QueueCoordinator, QueueOutcome,
};
use crate::events::{EventBroadcaster, EventModel, LiveEvent};
use crate::pool::{items_of, manual_conflict, pins_of, Alliance, QueueError};
use crate::registry::ConnectionRegistry;

verus! {

/// One outward step that the transport layer still has to make.
#[derive(Debug, PartialEq, Eq)]
pub enum Outbound {
    /// A direct `assign_team` message to one live connection.
    Deliver { connection: u64, assignment: Assignment },
    /// The scout has no live connection: reported as `UnknownScout` and
    /// logged, while the broadcast already went out, so the admin view
    /// stays consistent.
    Undeliverable { assignment: Assignment },
}

/// Mathematical model of an outward step.
pub ghost enum OutboundModel {
    Deliver { connection: u64, assignment: AssignmentModel },
    Undeliverable { assignment: AssignmentModel },
}

impl View for Outbound {
    type V = OutboundModel;

    open spec fn view(&self) -> OutboundModel {
        match self {
            Outbound::Deliver { connection, assignment } => OutboundModel::Deliver {
                connection: *connection,
                assignment: assignment@,
            },
            Outbound::Undeliverable { assignment } => OutboundModel::Undeliverable {
                assignment: assignment@,
            },
        }
    }
}

impl DeepView for Outbound {
    type V = OutboundModel;

    open spec fn deep_view(&self) -> OutboundModel {
        self@
    }
}

/// Every mailbox of `pre` is extended by exactly `evs`, and no mailbox
/// appears or disappears.
pub open spec fn fanned_out(
    pre: Seq<(u64, Seq<EventModel>)>,
    evs: Seq<EventModel>,
    post: Seq<(u64, Seq<EventModel>)>,
) -> bool {
    &&& post.len() == pre.len()
    &&& forall|i: int|
        #![trigger post[i]]
        0 <= i < pre.len() ==> post[i].0 == pre[i].0 && post[i].1 == pre[i].1 + evs
}

/// Each assignment goes to the connection its scout registered, or is
/// reported undeliverable when the name resolves to nothing.
pub open spec fn routed(
    reg: Map<Seq<char>, u64>,
    asgs: Seq<AssignmentModel>,
    outs: Seq<OutboundModel>,
) -> bool {
    &&& outs.len() == asgs.len()
    &&& forall|i: int|
        #![trigger outs[i]]
        0 <= i < asgs.len() ==> outs[i] == (if reg.dom().contains(asgs[i].scout) {
            OutboundModel::Deliver { connection: reg[asgs[i].scout], assignment: asgs[i] }
        } else {
            OutboundModel::Undeliverable { assignment: asgs[i] }
        })
}

/// How a `queue` request steps the coordinator.
pub open spec fn queue_step(
    pre: CoordinatorModel,
    scout: Seq<char>,
    post: CoordinatorModel,
    outcome: QueueOutcome,
    events: Seq<EventModel>,
) -> bool {
    &&& pre.assigned.contains(scout) ==> outcome is AlreadyAssigned && post == pre
        && events.len() == 0
    &&& !pre.assigned.contains(scout) && pre.waiting.contains(scout) ==> outcome
        is AlreadyWaiting && post == pre && events.len() == 0
    &&& take_result(pre.pool, scout) matches Some(item) ==> !pre.assigned.contains(scout)
        && !pre.waiting.contains(scout) ==> {
        &&& outcome matches QueueOutcome::Assigned(a) && a@ == (AssignmentModel {
            scout: scout,
            team: item.team,
            alliance: item.alliance,
            match_key: current_key(pre.pool),
        })
        &&& post.pool == take_rest(pre.pool, scout)
        &&& post.waiting == pre.waiting
        &&& post.assigned == pre.assigned.push(scout)
        &&& events == seq![
            EventModel::Dequeued(scout),
            EventModel::Assigned {
                scout: scout,
                team: item.team,
                match_key: current_key(pre.pool),
            },
        ]
    }
    &&& !pre.assigned.contains(scout) && !pre.waiting.contains(scout) && take_result(
        pre.pool,
        scout,
    ) is None ==> {
        &&& outcome is Waiting
        &&& post.pool == pre.pool
        &&& post.waiting == pre.waiting.push(scout)
        &&& post.assigned == pre.assigned
        &&& events == seq![EventModel::Queued(scout)]
    }
}

/// How a `dequeue` request steps the coordinator.
pub open spec fn dequeue_step(
    pre: CoordinatorModel,
    scout: Seq<char>,
    post: CoordinatorModel,
    outcome: Result<(), QueueError>,
    events: Seq<EventModel>,
) -> bool {
    &&& !pre.waiting.contains(scout) ==> (outcome matches Err(e) && e == QueueError::NotWaiting)
        && post == pre && events.len() == 0
    &&& pre.waiting.contains(scout) ==> {
        &&& outcome is Ok
        &&& post.waiting == pre.waiting.remove(pre.waiting.index_of(scout))
        &&& post.assigned == pre.assigned
        &&& post.pool == pre.pool
        &&& events == seq![EventModel::Dequeued(scout)]
    }
}

/// How settling a submitted result steps the coordinator.
pub open spec fn submit_step(
    pre: CoordinatorModel,
    scout: Seq<char>,
    persisted: bool,
    post: CoordinatorModel,
    outcome: Result<(), QueueError>,
) -> bool {
    &&& !post.assigned.contains(scout)
    &&& post.waiting == pre.waiting
    &&& post.pool == pre.pool
    &&& pre.assigned.contains(scout) ==> post.assigned == pre.assigned.remove(
        pre.assigned.index_of(scout),
    )
    &&& !pre.assigned.contains(scout) ==> post == pre
    &&& persisted ==> outcome is Ok
    &&& !persisted ==> (outcome matches Err(e) && e == QueueError::PersistenceFailure)
}

/// The coordinator, the connection registry and the event fan-out, as
/// one service.  Each public method is one inbound operation.
pub struct QueueService {
    coordinator: QueueCoordinator,
    registry: ConnectionRegistry,
    broadcaster: EventBroadcaster,
}

/// Mathematical model of the service.
pub ghost struct ServiceModel {
    pub coordinator: CoordinatorModel,
    pub registry: Map<Seq<char>, u64>,
    pub subs: Seq<(u64, Seq<EventModel>)>,
    pub next_sub: int,
}

impl View for QueueService {
    type V = ServiceModel;

    closed spec fn view(&self) -> ServiceModel {
        ServiceModel {
            coordinator: self.coordinator@,
            registry: self.registry@,
            subs: self.broadcaster@.subs,
            next_sub: self.broadcaster@.next,
        }
    }
}

impl QueueService {
    /// The well-formedness of the parts.
    pub open spec fn wf(&self) -> bool {
        &&& crate::coordinator::coordinator_wf(self@.coordinator)
        &&& crate::events::broadcaster_wf(
            crate::events::BroadcasterModel { subs: self@.subs, next: self@.next_sub },
        )
    }

    /// A fresh service: empty pool, nobody connected, no subscribers.
    pub fn new() -> (s: QueueService)
        ensures
            s.wf(),
            s@.coordinator.pool.pending_red.len() == 0,
            s@.coordinator.pool.pending_blue.len() == 0,
            s@.coordinator.pool.overrides.len() == 0,
            s@.coordinator.pool.match_keys.len() == 0,
            s@.coordinator.waiting.len() == 0,
            s@.coordinator.assigned.len() == 0,
            s@.registry == Map::<Seq<char>, u64>::empty(),
            s@.subs.len() == 0,
    {
        QueueService {
            coordinator: QueueCoordinator::new(),
            registry: ConnectionRegistry::new(),
            broadcaster: EventBroadcaster::new(),
        }
    }

    /// Read access to the coordinator, for callers that only inspect it.
    pub fn coordinator(&self) -> (c: &QueueCoordinator)
        ensures
            c@ == self@.coordinator,
    {
        &self.coordinator
    }

    /// A scout connected and sent its display name: bind it to the live
    /// connection handle, last writer winning.
    pub fn connect(&mut self, name: String, connection: u64)
        requires
            old(self).wf(),
        ensures
            final(self).wf(),
            final(self)@.coordinator == old(self)@.coordinator,
            final(self)@.subs == old(self)@.subs,
            final(self)@.registry == Map::new(
                |k: Seq<char>|
                    k == name@ || (old(self)@.registry.dom().contains(k) && k != name@ && old(
                        self,
                    )@.registry[k] != connection),
                |k: Seq<char>| if k == name@ { connection } else { old(self)@.registry[k] },
            ),
    {
        self.registry.register(name, connection);
    }

    /// A connection closed: unbind whatever name it carried, and take a
    /// waiting scout of that name out of the waiting group at once, so it
    /// is never later handed a work item.  An assigned scout's work item
    /// is not reclaimed.
    pub fn disconnect(&mut self, connection: u64) -> (r: Option<String>)
        requires
            old(self).wf(),
        ensures
            final(self).wf(),
            final(self)@.subs == old(self)@.subs,
            r matches Some(n) ==> old(self)@.registry.dom().contains(n@) && old(self)@.registry[n@]
                == connection && final(self)@.registry == old(self)@.registry.remove(n@)
                && !final(self)@.coordinator.waiting.contains(n@)
                && !final(self)@.coordinator.assigned.contains(n@)
                && final(self)@.coordinator.pool == old(self)@.coordinator.pool,
            r is None ==> final(self)@ == old(self)@ && (forall|k: Seq<char>|
                old(self)@.registry.dom().contains(k) ==> old(self)@.registry[k] != connection),
    {
        let name = self.registry.unregister(connection);
        match name {
            Some(n) => {
                self.coordinator.disconnect(&n);
                Some(n)
            },
            None => None,
        }
    }

    /// The live connection that a direct message for this scout should
    /// go to; `UnknownScout` when the name resolves to nothing.
    pub fn resolve_connection(&self, name: &String) -> (r: Result<u64, QueueError>)
        ensures
            self@.registry.dom().contains(name@) ==> (r matches Ok(c) && c
                == self@.registry[name@]),
            !self@.registry.dom().contains(name@) ==> (r matches Err(e) && e
                == QueueError::UnknownScout),
    {
        match self.registry.resolve(name) {
            Some(c) => Ok(c),
            None => Err(QueueError::UnknownScout),
        }
    }

    /// Whether another subscriber handle can still be issued.
    pub fn can_subscribe(&self) -> (b: bool)
        ensures
            b == (self@.next_sub < u64::MAX),
    {
        self.broadcaster.has_capacity()
    }

    /// An admin dashboard subscribed to the event stream.
    pub fn subscribe(&mut self) -> (id: u64)
        requires
            old(self).wf(),
            old(self)@.next_sub < u64::MAX,
        ensures
            final(self).wf(),
            final(self)@.coordinator == old(self)@.coordinator,
            final(self)@.registry == old(self)@.registry,
            final(self)@.subs == old(self)@.subs.push((id, Seq::<EventModel>::empty())),
            forall|j: int| 0 <= j < old(self)@.subs.len() ==> old(self)@.subs[j].0 != id,
    {
        self.broadcaster.subscribe()
    }

    /// One subscriber takes everything waiting in its mailbox.
    pub fn drain(&mut self, id: u64) -> (r: Vec<LiveEvent>)
        requires
            old(self).wf(),
        ensures
            final(self).wf(),
            final(self)@.coordinator == old(self)@.coordinator,
            final(self)@.registry == old(self)@.registry,
            ({
                let subs = old(self)@.subs;
                if exists|i: int| 0 <= i < subs.len() && subs[i].0 == id {
                    let i = choose|i: int| 0 <= i < subs.len() && subs[i].0 == id;
                    r.deep_view() == subs[i].1 && final(self)@.subs == subs.update(
                        i,
                        (id, Seq::<EventModel>::empty()),
                    )
                } else {
                    r.deep_view() == Seq::<EventModel>::empty() && final(self)@.subs == subs
                }
            }),
    {
        self.broadcaster.drain(id)
    }

    /// A subscriber went away; the others are untouched.
    pub fn unsubscribe(&mut self, id: u64)
        requires
            old(self).wf(),
        ensures
            final(self).wf(),
            final(self)@.coordinator == old(self)@.coordinator,
            final(self)@.registry == old(self)@.registry,
            ({
                let subs = old(self)@.subs;
                if exists|i: int| 0 <= i < subs.len() && subs[i].0 == id {
                    let i = choose|i: int| 0 <= i < subs.len() && subs[i].0 == id;
                    final(self)@.subs == subs.remove(i)
                } else {
                    final(self)@.subs == subs
                }
            }),
    {
        self.broadcaster.unsubscribe(id)
    }

    /// Handles `queue(scout_name)`: steps the coordinator, fans every
    /// event out to the subscribers live right now, and routes the
    /// direct message if an assignment was made.
    pub fn queue(&mut self, scout: String) -> (r: (QueueOutcome, Vec<Outbound>, Vec<LiveEvent>))
        requires
            old(self).wf(),
        ensures
            final(self).wf(),
            queue_step(
                old(self)@.coordinator,
                scout@,
                final(self)@.coordinator,
                r.0,
                r.2.deep_view(),
            ),
            fanned_out(old(self)@.subs, r.2.deep_view(), final(self)@.subs),
            final(self)@.next_sub == old(self)@.next_sub,
            final(self)@.registry == old(self)@.registry,
            r.0 matches QueueOutcome::Assigned(a) ==> routed(
                old(self)@.registry,
                seq![a@],
                r.1.deep_view(),
            ),
            !(r.0 is Assigned) ==> r.1@.len() == 0,
    {
        let (outcome, events) = self.coordinator.request_queue(scout);
        publish_all(&mut self.broadcaster, &events);
        let outbound = match &outcome {
            QueueOutcome::Assigned(a) => route_one(&self.registry, a),
            _ => Vec::new(),
        };
        (outcome, outbound, events)
    }

    /// Handles `dequeue(scout_name)`: steps the coordinator and fans the
    /// departure event out; a scout that was not waiting is refused and
    /// nothing is broadcast.
    pub fn dequeue(&mut self, scout: &String) -> (r: (Result<(), QueueError>, Vec<LiveEvent>))
        requires
            old(self).wf(),
        ensures
            final(self).wf(),
            dequeue_step(
                old(self)@.coordinator,
                scout@,
                final(self)@.coordinator,
                r.0,
                r.1.deep_view(),
            ),
            fanned_out(old(self)@.subs, r.1.deep_view(), final(self)@.subs),
            final(self)@.next_sub == old(self)@.next_sub,
            final(self)@.registry == old(self)@.registry,
    {
        let (outcome, events) = self.coordinator.request_dequeue(scout);
        publish_all(&mut self.broadcaster, &events);
        (outcome, events)
    }

    /// Handles `submit_result(scout_name, ...)`: the payload was already
    /// forwarded to the persistence collaborator by the caller, whose
    /// verdict arrives in `persisted`; the scout leaves `Assigned`
    /// whatever the verdict was.
    pub fn submit_result(&mut self, scout: &String, persisted: bool) -> (r: Result<
        (),
        QueueError,
    >)
        requires
            old(self).wf(),
        ensures
            final(self).wf(),
            submit_step(old(self)@.coordinator, scout@, persisted, final(self)@.coordinator, r),
            final(self)@.subs == old(self)@.subs,
            final(self)@.registry == old(self)@.registry,
    {
        self.coordinator.submit_result(scout, persisted)
    }

    /// Handles `create_match_auto`: steps the coordinator under one
    /// critical section, fans all events out, and routes one direct
    /// message per assignment made.
    pub fn create_match_auto(
        &mut self,
        match_key: String,
        red_teams: &Vec<String>,
        blue_teams: &Vec<String>,
    ) -> (r: (Vec<Assignment>, Vec<Outbound>, Vec<LiveEvent>))
        requires
            old(self).wf(),
        ensures
            final(self).wf(),
            ({
                let key = match_key@;
                let pre = old(self)@.coordinator;
                let post = final(self)@.coordinator;
                let pr = pre.pool.pending_red + items_of(red_teams.deep_view(), Alliance::Red);
                let pb = pre.pool.pending_blue + items_of(blue_teams.deep_view(), Alliance::Blue);
                let ra = crate::coordinator::lifo_pairing(pre.waiting, pr, key);
                let ba = crate::coordinator::lifo_pairing(
                    pre.waiting.skip(ra.len() as int),
                    pb,
                    key,
                );
                &&& r.0.deep_view() == ra + ba
                &&& r.2.deep_view() == assignment_events(ra + ba)
                &&& post.pool.pending_red == pr.take(pr.len() - ra.len())
                &&& post.pool.pending_blue == pb.take(pb.len() - ba.len())
                &&& post.pool.overrides == pre.pool.overrides
                &&& post.pool.match_keys == pre.pool.match_keys.push(key)
                &&& post.waiting == Seq::<Seq<char>>::empty()
                &&& post.assigned == pre.assigned + pre.waiting.take(ra.len() + ba.len() as int)
            }),
            fanned_out(old(self)@.subs, r.2.deep_view(), final(self)@.subs),
            final(self)@.next_sub == old(self)@.next_sub,
            final(self)@.registry == old(self)@.registry,
            routed(old(self)@.registry, r.0.deep_view(), r.1.deep_view()),
    {
        let (assignments, events) = self.coordinator.create_match_auto(
            match_key,
            red_teams,
            blue_teams,
        );
        publish_all(&mut self.broadcaster, &events);
        let outbound = route_all(&self.registry, &assignments);
        (assignments, outbound, events)
    }

    /// Handles `create_match_manual`: the whole batch is refused
    /// atomically on a duplicate pin, with nothing broadcast; otherwise
    /// the coordinator steps, events fan out, and each assignment made
    /// to a waiting pinned scout is routed.
    pub fn create_match_manual(
        &mut self,
        match_key: String,
        red_teams: &Vec<String>,
        blue_teams: &Vec<String>,
        red_scouts: &Vec<String>,
        blue_scouts: &Vec<String>,
    ) -> (r: (Result<Vec<Assignment>, QueueError>, Vec<Outbound>, Vec<LiveEvent>))
        requires
            old(self).wf(),
        ensures
            final(self).wf(),
            ({
                let key = match_key@;
                let pre = old(self)@.coordinator;
                let post = final(self)@.coordinator;
                let rp = zip_pairs(red_teams.deep_view(), red_scouts.deep_view());
                let bp = zip_pairs(blue_teams.deep_view(), blue_scouts.deep_view());
                let pins = pins_of(rp, Alliance::Red) + pins_of(bp, Alliance::Blue);
                let delivered = delivered_pins(pins, pre.waiting);
                &&& (r.0 is Err <==> manual_conflict(pre.pool.overrides, pins))
                &&& r.0 matches Err(e) ==> e == QueueError::DuplicateAssignment && post == pre
                    && r.1@.len() == 0 && r.2@.len() == 0 && final(self)@.subs == old(self)@.subs
                &&& r.0 matches Ok(asgs) ==> {
                    &&& asgs.deep_view() == pin_assignments(delivered, key)
                    &&& r.2.deep_view() == assignment_events(pin_assignments(delivered, key))
                    &&& post.pool.overrides == pre.pool.overrides + retained_pins(
                        pins,
                        pre.waiting,
                    )
                    &&& post.pool.match_keys == pre.pool.match_keys.push(key)
                    &&& post.pool.pending_red == pre.pool.pending_red + items_of(
                        red_teams.deep_view().skip(rp.len() as int),
                        Alliance::Red,
                    )
                    &&& post.pool.pending_blue == pre.pool.pending_blue + items_of(
                        blue_teams.deep_view().skip(bp.len() as int),
                        Alliance::Blue,
                    )
                    &&& post.waiting == remaining_waiting(pre.waiting, pin_names(pins))
                    &&& post.assigned == pre.assigned + pin_names(delivered)
                    &&& fanned_out(old(self)@.subs, r.2.deep_view(), final(self)@.subs)
                    &&& routed(old(self)@.registry, asgs.deep_view(), r.1.deep_view())
                }
            }),
            final(self)@.next_sub == old(self)@.next_sub,
            final(self)@.registry == old(self)@.registry,
    {
        let (outcome, events) = self.coordinator.create_match_manual(
            match_key,
            red_teams,
            blue_teams,
            red_scouts,
            blue_scouts,
        );
        match outcome {
            Ok(assignments) => {
                publish_all(&mut self.broadcaster, &events);
                let outbound = route_all(&self.registry, &assignments);
                (Ok(assignments), outbound, events)
            },
            Err(e) => (Err(e), Vec::new(), events),
        }
    }
}

/// Fans every event of `events`, in order, out to every subscriber.
fn publish_all(b: &mut EventBroadcaster, events: &Vec<LiveEvent>)
    requires
        old(b).wf(),
    ensures
        final(b).wf(),
        final(b)@.next == old(b)@.next,
        fanned_out(old(b)@.subs, events.deep_view(), final(b)@.subs),
{
    let ghost pre = b@.subs;
    let mut j: usize = 0;
    while j < events.len()
        invariant
            j <= events.len(),
            b.wf(),
            b@.next == old(b)@.next,
            pre == old(b)@.subs,
            fanned_out(pre, events.deep_view().take(j as int), b@.subs),
        decreases events.len() - j,
    {
        let ghost mid = b@.subs;
        b.publish(&events[j]);
        proof {
            assert(events.deep_view().take(j + 1) =~= events.deep_view().take(j as int).push(
                events.deep_view()[j as int],
            ));
            assert forall|i: int| 0 <= i < pre.len() implies b@.subs[i].0 == pre[i].0
                && b@.subs[i].1 == pre[i].1 + events.deep_view().take(j + 1) by {
                assert(b@.subs[i].1 == mid[i].1.push(events.deep_view()[j as int]));
                assert(pre[i].1 + events.deep_view().take(j + 1) =~= (pre[i].1
                    + events.deep_view().take(j as int)).push(events.deep_view()[j as int]));
            }
        }
        j += 1;
    }
    proof {
        assert(events.deep_view().take(events.deep_view().len() as int) =~= events.deep_view());
    }
}

/// Routes one direct assignment through the registry.
fn route_one(reg: &ConnectionRegistry, a: &Assignment) -> (outs: Vec<Outbound>)
    ensures
        routed(reg@, seq![a@], outs.deep_view()),
{
    let mut outs: Vec<Outbound> = Vec::new();
    match reg.resolve(&a.scout) {
        Some(connection) => {
            outs.push(Outbound::Deliver { connection: connection, assignment: a.clone() });
        },
        None => {
            outs.push(Outbound::Undeliverable { assignment: a.clone() });
        },
    }
    proof {
        assert(outs.deep_view().len() == 1);
    }
    outs
}

/// Routes every direct assignment of a bulk step through the registry.
fn route_all(reg: &ConnectionRegistry, asgs: &Vec<Assignment>) -> (outs: Vec<Outbound>)
    ensures
        routed(reg@, asgs.deep_view(), outs.deep_view()),
{
    let mut outs: Vec<Outbound> = Vec::new();
    let mut k: usize = 0;
    while k < asgs.len()
        invariant
            k <= asgs.len(),
            outs.deep_view().len() == k,
            forall|i: int|
                #![trigger outs.deep_view()[i]]
                0 <= i < k ==> outs.deep_view()[i] == (if reg@.dom().contains(
                    asgs.deep_view()[i].scout,
                ) {
                    OutboundModel::Deliver {
                        connection: reg@[asgs.deep_view()[i].scout],
                        assignment: asgs.deep_view()[i],
                    }
                } else {
                    OutboundModel::Undeliverable { assignment: asgs.deep_view()[i] }
                }),
        decreases asgs.len() - k,
    {
        let ghost prev = outs.deep_view();
        let ghost prevv = outs@;
        let a = &asgs[k];
        let resolved = reg.resolve(&a.scout);
        match resolved {
            Some(connection) => {
                outs.push(Outbound::Deliver { connection: connection, assignment: a.clone() });
            },
            None => {
                outs.push(Outbound::Undeliverable { assignment: a.clone() });
            },
        }
        proof {
            assert(asgs.deep_view()[k as int] == a@);
            assert(outs.deep_view().len() == k + 1);
            assert(outs.deep_view()[k as int] == outs@[k as int]@);
            if reg@.dom().contains(a@.scout) {
                assert(resolved == Some(reg@[a@.scout]));
            } else {
                assert(resolved is None);
            }
            assert forall|i: int|
                0 <= i < k + 1 implies outs.deep_view()[i] == (if reg@.dom().contains(
                asgs.deep_view()[i].scout,
            ) {
                OutboundModel::Deliver {
                    connection: reg@[asgs.deep_view()[i].scout],
                    assignment: asgs.deep_view()[i],
                }
            } else {
                OutboundModel::Undeliverable { assignment: asgs.deep_view()[i] }
            }) by {
                if i < k {
                    assert(outs@[i] == prevv[i]);
                    assert(outs.deep_view()[i] == prev[i]);
                }
            }
        }
        k += 1;
    }
    outs
}

} // verus!
