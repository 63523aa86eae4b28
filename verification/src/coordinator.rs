//! The queue coordinator: one assignment pool behind a per-scout state
//! machine (`Idle -> Waiting -> Assigned -> Idle`), the waiting group in
//! arrival order, and the events each transition broadcasts.

use vstd::math::min;
use vstd::prelude::*;

use crate::events::{EventModel, LiveEvent};
use crate::pool::{
    items_of, manual_conflict, override_index, pins_of, spec_has_override, Alliance,
    AssignmentPool, ItemModel, PoolModel, QueueError, WorkItem,
};

verus! {

/// One direct assignment message: which scout observes which team of
/// which match, and on which alliance.
#[derive(Debug, PartialEq, Eq)]
pub struct Assignment {
    pub scout: String,
    pub team_key: String,
    pub alliance: Alliance,
    pub match_key: String,
}

/// Mathematical model of a direct assignment.
pub ghost struct AssignmentModel {
    pub scout: Seq<char>,
    pub team: Seq<char>,
    pub alliance: Alliance,
    pub match_key: Seq<char>,
}

impl View for Assignment {
    type V = AssignmentModel;

    open spec fn view(&self) -> AssignmentModel {
        AssignmentModel {
            scout: self.scout@,
            team: self.team_key@,
            alliance: self.alliance,
            match_key: self.match_key@,
        }
    }
}

impl DeepView for Assignment {
    type V = AssignmentModel;

    open spec fn deep_view(&self) -> AssignmentModel {
        self@
    }
}

impl Clone for Assignment {
    fn clone(&self) -> (r: Self)
        ensures
            r@ == self@,
    {
        Assignment {
            scout: self.scout.clone(),
            team_key: self.team_key.clone(),
            alliance: self.alliance,
            match_key: self.match_key.clone(),
        }
    }
}

/// What answering one scout's `queue` request did.
#[derive(Debug, PartialEq, Eq)]
pub enum QueueOutcome {
    /// Work was at hand: the scout went straight to `Assigned`.
    Assigned(Assignment),
    /// Nothing was at hand: the scout joined the waiting group.
    Waiting,
    /// The scout was already in the waiting group; nothing changed.
    AlreadyWaiting,
    /// The scout already holds an assignment; nothing changed.
    AlreadyAssigned,
}

/// Mathematical model of the coordinator.
pub ghost struct CoordinatorModel {
    pub pool: PoolModel,
    pub waiting: Seq<Seq<char>>,
    pub assigned: Seq<Seq<char>>,
}

/// No name occurs twice.
pub open spec fn names_unique(ns: Seq<Seq<char>>) -> bool {
    forall|i: int, j: int| #![trigger ns[i], ns[j]] 0 <= i < j < ns.len() ==> ns[i] != ns[j]
}

/// The coordinator's invariant: the waiting group never holds a name
/// twice, nor does the assigned group, a scout is never both, and no
/// scout is pinned twice.  Every operation requires it and establishes
/// it again, so along any interleaving of queue and dequeue requests the
/// waiting group never holds a given scout name more than once.
pub open spec fn coordinator_wf(m: CoordinatorModel) -> bool {
    &&& crate::pool::overrides_unique(m.pool.overrides)
    &&& names_unique(m.waiting)
    &&& names_unique(m.assigned)
    &&& forall|i: int|
        0 <= i < m.waiting.len() ==> !m.assigned.contains(#[trigger] m.waiting[i])
}

/// The match key that labels a fresh direct assignment: the latest
/// declared key, or empty while none was declared yet.
pub open spec fn current_key(m: PoolModel) -> Seq<char> {
    if m.match_keys.len() > 0 {
        m.match_keys.last()
    } else {
        Seq::empty()
    }
}

/// What the pool yields for this scout: the manual override first, else
/// the newest pending red item, else the newest pending blue item.
pub open spec fn take_result(m: PoolModel, scout: Seq<char>) -> Option<ItemModel> {
    if spec_has_override(m.overrides, scout) {
        Some(m.overrides[override_index(m.overrides, scout)].1)
    } else if m.pending_red.len() > 0 {
        Some(m.pending_red.last())
    } else if m.pending_blue.len() > 0 {
        Some(m.pending_blue.last())
    } else {
        None
    }
}

/// The pool that remains after the yield described by `take_result`.
pub open spec fn take_rest(m: PoolModel, scout: Seq<char>) -> PoolModel {
    if spec_has_override(m.overrides, scout) {
        PoolModel { overrides: m.overrides.remove(override_index(m.overrides, scout)), ..m }
    } else if m.pending_red.len() > 0 {
        PoolModel { pending_red: m.pending_red.drop_last(), ..m }
    } else if m.pending_blue.len() > 0 {
        PoolModel { pending_blue: m.pending_blue.drop_last(), ..m }
    } else {
        m
    }
}

/// Pairs waiting scouts, in arrival order, with the newest-first work
/// items of one pending stock.
pub open spec fn lifo_pairing(
    scouts: Seq<Seq<char>>,
    stock: Seq<ItemModel>,
    key: Seq<char>,
) -> Seq<AssignmentModel> {
    Seq::new(
        min(scouts.len() as int, stock.len() as int) as nat,
        |k: int|
            AssignmentModel {
                scout: scouts[k],
                team: stock[stock.len() - 1 - k].team,
                alliance: stock[stock.len() - 1 - k].alliance,
                match_key: key,
            },
    )
}

/// The events that a run of direct assignments broadcasts: for each one,
/// in order, the scout leaves the waiting group and the assignment is
/// announced.
pub open spec fn assignment_events(asgs: Seq<AssignmentModel>) -> Seq<EventModel> {
    Seq::new(
        2 * asgs.len(),
        |k: int|
            if k % 2 == 0 {
                EventModel::Dequeued(asgs[k / 2].scout)
            } else {
                EventModel::Assigned {
                    scout: asgs[k / 2].scout,
                    team: asgs[k / 2].team,
                    match_key: asgs[k / 2].match_key,
                }
            },
    )
}

/// Work-item conservation of one automatic dispatch against one pending
/// stock: the stock as it stood is exactly what is left afterwards plus
/// what was delivered, newest first — no work item is created or
/// destroyed, whatever the waiting group was.
pub proof fn lemma_lifo_pairing_conserves(
    scouts: Seq<Seq<char>>,
    stock: Seq<ItemModel>,
    key: Seq<char>,
)
    ensures
        ({
            let delivered = lifo_pairing(scouts, stock, key);
            stock == stock.take(stock.len() - delivered.len()) + delivered.map_values(
                |a: AssignmentModel| ItemModel { team: a.team, alliance: a.alliance },
            ).reverse()
        }),
{
    let delivered = lifo_pairing(scouts, stock, key);
    let items = delivered.map_values(
        |a: AssignmentModel| ItemModel { team: a.team, alliance: a.alliance },
    );
    assert(stock =~= stock.take(stock.len() - delivered.len()) + items.reverse());
}

/// Pairs each named team with the scout pinned at the same position; the
/// longer side's tail is left over.
pub open spec fn zip_pairs(teams: Seq<Seq<char>>, scouts: Seq<Seq<char>>) -> Seq<
    (Seq<char>, Seq<char>),
> {
    Seq::new(min(teams.len() as int, scouts.len() as int) as nat, |i: int| (teams[i], scouts[i]))
}

/// The scout names of a batch of pins, in batch order.
pub open spec fn pin_names(pins: Seq<(Seq<char>, ItemModel)>) -> Seq<Seq<char>> {
    pins.map_values(|p: (Seq<char>, ItemModel)| p.0)
}

/// The direct assignments that hand a batch of pins out, in batch order.
pub open spec fn pin_assignments(pins: Seq<(Seq<char>, ItemModel)>, key: Seq<char>) -> Seq<
    AssignmentModel,
> {
    pins.map_values(
        |p: (Seq<char>, ItemModel)|
            AssignmentModel {
                scout: p.0,
                team: p.1.team,
                alliance: p.1.alliance,
                match_key: key,
            },
    )
}

/// The pins of a batch whose scout was in the waiting group when the
/// batch arrived: these are handed out at once, in batch order.
pub open spec fn delivered_pins(
    pins: Seq<(Seq<char>, ItemModel)>,
    waiting: Seq<Seq<char>>,
) -> Seq<(Seq<char>, ItemModel)>
    decreases pins.len(),
{
    if pins.len() == 0 {
        Seq::empty()
    } else {
        let rest = delivered_pins(pins.drop_last(), waiting);
        if waiting.contains(pins.last().0) {
            rest.push(pins.last())
        } else {
            rest
        }
    }
}

/// The pins of a batch whose scout was not waiting: they stay pinned
/// until that scout queues.
pub open spec fn retained_pins(
    pins: Seq<(Seq<char>, ItemModel)>,
    waiting: Seq<Seq<char>>,
) -> Seq<(Seq<char>, ItemModel)>
    decreases pins.len(),
{
    if pins.len() == 0 {
        Seq::empty()
    } else {
        let rest = retained_pins(pins.drop_last(), waiting);
        if waiting.contains(pins.last().0) {
            rest
        } else {
            rest.push(pins.last())
        }
    }
}

/// The waiting scouts that no pin names, in their arrival order.
pub open spec fn remaining_waiting(
    waiting: Seq<Seq<char>>,
    names: Seq<Seq<char>>,
) -> Seq<Seq<char>>
    decreases waiting.len(),
{
    if waiting.len() == 0 {
        Seq::empty()
    } else {
        let rest = remaining_waiting(waiting.drop_last(), names);
        if names.contains(waiting.last()) {
            rest
        } else {
            rest.push(waiting.last())
        }
    }
}

/// Whoever survives `remaining_waiting` was waiting and is named by no
/// pin; arrival order is kept, so a duplicate-free waiting group stays
/// duplicate-free.
proof fn lemma_remaining_waiting(w: Seq<Seq<char>>, names: Seq<Seq<char>>)
    ensures
        forall|x: Seq<char>| #[trigger]
            remaining_waiting(w, names).contains(x) ==> w.contains(x) && !names.contains(x),
        names_unique(w) ==> names_unique(remaining_waiting(w, names)),
    decreases w.len(),
{
    if w.len() > 0 {
        lemma_remaining_waiting(w.drop_last(), names);
        let rest = remaining_waiting(w.drop_last(), names);
        let r = remaining_waiting(w, names);
        assert forall|x: Seq<char>| #[trigger] r.contains(x) implies w.contains(x)
            && !names.contains(x) by {
            let i = choose|i: int| 0 <= i < r.len() && r[i] == x;
            if i < rest.len() {
                assert(rest.contains(x));
                assert(w.drop_last().contains(x));
                let j = choose|j: int| 0 <= j < w.drop_last().len() && w.drop_last()[j] == x;
                assert(w[j] == x);
            } else {
                assert(x == w.last());
                assert(w[w.len() - 1] == x);
            }
        };
        if names_unique(w) {
            assert(names_unique(w.drop_last())) by {
                assert forall|i: int, j: int|
                    0 <= i < j < w.drop_last().len() implies w.drop_last()[i]
                    != w.drop_last()[j] by {
                    assert(w[i] != w[j]);
                };
            };
            if !names.contains(w.last()) {
                assert(r =~= rest.push(w.last()));
                assert forall|i: int, j: int| 0 <= i < j < r.len() implies r[i] != r[j] by {
                    if j < rest.len() {
                        assert(rest[i] != rest[j]);
                    } else {
                        assert(rest.contains(rest[i]));
                        assert(w.drop_last().contains(rest[i]));
                        let a = choose|a: int|
                            0 <= a < w.drop_last().len() && w.drop_last()[a] == rest[i];
                        assert(w[a] == rest[i]);
                        assert(w[a] != w[w.len() - 1]);
                    }
                };
            }
        }
    }
}

/// Each delivered pin is a pin whose scout was waiting; each retained pin
/// is a pin whose scout was not.  Batch order is kept, so a batch without
/// repeated scout names splits into two such batches.
proof fn lemma_split_pins(pins: Seq<(Seq<char>, ItemModel)>, w: Seq<Seq<char>>)
    ensures
        forall|x: (Seq<char>, ItemModel)| #[trigger]
            delivered_pins(pins, w).contains(x) ==> pins.contains(x) && w.contains(x.0),
        forall|x: (Seq<char>, ItemModel)| #[trigger]
            retained_pins(pins, w).contains(x) ==> pins.contains(x) && !w.contains(x.0),
        crate::pool::overrides_unique(pins) ==> crate::pool::overrides_unique(
            delivered_pins(pins, w),
        ),
    decreases pins.len(),
{
    if pins.len() > 0 {
        lemma_split_pins(pins.drop_last(), w);
        let drest = delivered_pins(pins.drop_last(), w);
        let rrest = retained_pins(pins.drop_last(), w);
        let dl = delivered_pins(pins, w);
        let rl = retained_pins(pins, w);
        assert forall|x: (Seq<char>, ItemModel)| #[trigger] dl.contains(x) implies pins.contains(
            x,
        ) && w.contains(x.0) by {
            let i = choose|i: int| 0 <= i < dl.len() && dl[i] == x;
            if i < drest.len() {
                assert(drest.contains(x));
                assert(pins.drop_last().contains(x));
                let j = choose|j: int|
                    0 <= j < pins.drop_last().len() && pins.drop_last()[j] == x;
                assert(pins[j] == x);
            } else {
                assert(x == pins.last());
                assert(pins[pins.len() - 1] == x);
            }
        };
        assert forall|x: (Seq<char>, ItemModel)| #[trigger] rl.contains(x) implies pins.contains(
            x,
        ) && !w.contains(x.0) by {
            let i = choose|i: int| 0 <= i < rl.len() && rl[i] == x;
            if i < rrest.len() {
                assert(rrest.contains(x));
                assert(pins.drop_last().contains(x));
                let j = choose|j: int|
                    0 <= j < pins.drop_last().len() && pins.drop_last()[j] == x;
                assert(pins[j] == x);
            } else {
                assert(x == pins.last());
                assert(pins[pins.len() - 1] == x);
            }
        };
        if crate::pool::overrides_unique(pins) {
            assert(crate::pool::overrides_unique(pins.drop_last())) by {
                assert forall|i: int, j: int|
                    0 <= i < j < pins.drop_last().len() implies pins.drop_last()[i].0
                    != pins.drop_last()[j].0 by {
                    assert(pins[i].0 != pins[j].0);
                };
            };
            if w.contains(pins.last().0) {
                assert(dl =~= drest.push(pins.last()));
                assert forall|i: int, j: int| 0 <= i < j < dl.len() implies dl[i].0
                    != dl[j].0 by {
                    if j < drest.len() {
                        assert(drest[i].0 != drest[j].0);
                    } else {
                        assert(drest.contains(drest[i]));
                        assert(pins.drop_last().contains(drest[i]));
                        let a = choose|a: int|
                            0 <= a < pins.drop_last().len() && pins.drop_last()[a] == drest[i];
                        assert(pins[a] == drest[i]);
                        assert(pins[a].0 != pins[pins.len() - 1].0);
                    }
                };
            }
        }
    }
}

/// Owns one assignment pool and the waiting group; every multi-step
/// mutation here stands for one critical section of the service.
pub struct QueueCoordinator {
    pool: AssignmentPool,
    waiting: Vec<String>,
    assigned: Vec<String>,
}

impl View for QueueCoordinator {
    type V = CoordinatorModel;

    closed spec fn view(&self) -> CoordinatorModel {
        CoordinatorModel {
            pool: self.pool@,
            waiting: self.waiting.deep_view(),
            assigned: self.assigned.deep_view(),
        }
    }
}

impl QueueCoordinator {
    /// The waiting group never holds a name twice, nor does the assigned
    /// group, a scout is never both, and no scout is pinned twice.
    pub open spec fn wf(&self) -> bool {
        coordinator_wf(self@)
    }

    /// A coordinator over an empty pool, with nobody waiting or assigned.
    pub fn new() -> (c: QueueCoordinator)
        ensures
            c.wf(),
            c@.pool.pending_red.len() == 0,
            c@.pool.pending_blue.len() == 0,
            c@.pool.overrides.len() == 0,
            c@.pool.match_keys.len() == 0,
            c@.waiting.len() == 0,
            c@.assigned.len() == 0,
    {
        QueueCoordinator { pool: AssignmentPool::new(), waiting: Vec::new(), assigned: Vec::new() }
    }

    /// Read access to the pool, for callers that only inspect it.
    pub fn pool(&self) -> (p: &AssignmentPool)
        ensures
            p@ == self@.pool,
    {
        &self.pool
    }

    /// Whether this scout is in the waiting group.
    pub fn is_waiting(&self, scout: &String) -> (b: bool)
        ensures
            b == self@.waiting.contains(scout@),
    {
        contains_string(&self.waiting, scout)
    }

    /// Whether this scout currently holds an assignment.
    pub fn is_assigned(&self, scout: &String) -> (b: bool)
        ensures
            b == self@.assigned.contains(scout@),
    {
        contains_string(&self.assigned, scout)
    }

    /// How many scouts are waiting.
    pub fn waiting_len(&self) -> (n: usize)
        ensures
            n == self@.waiting.len(),
    {
        self.waiting.len()
    }

    /// Answers one scout's `queue` request, under one critical section:
    /// a scout already waiting or assigned is left untouched; otherwise,
    /// if the pool has something for this scout it is delivered at once
    /// (never passing through `Waiting`), else the scout joins the back
    /// of the waiting group.  Returns the outcome and the events to
    /// broadcast.
    pub fn request_queue(&mut self, scout: String) -> (r: (QueueOutcome, Vec<LiveEvent>))
        requires
            old(self).wf(),
        ensures
            final(self).wf(),
            old(self)@.assigned.contains(scout@) ==> r.0 is AlreadyAssigned && *final(self)
                == *old(self) && r.1@.len() == 0,
            !old(self)@.assigned.contains(scout@) && old(self)@.waiting.contains(scout@) ==> r.0
                is AlreadyWaiting && *final(self) == *old(self) && r.1@.len() == 0,
            take_result(old(self)@.pool, scout@) matches Some(item) ==> !old(
                self,
            )@.assigned.contains(scout@) && !old(self)@.waiting.contains(scout@) ==> {
                &&& r.0 matches QueueOutcome::Assigned(a) && a@ == (AssignmentModel {
                    scout: scout@,
                    team: item.team,
                    alliance: item.alliance,
                    match_key: current_key(old(self)@.pool),
                })
                &&& final(self)@.pool == take_rest(old(self)@.pool, scout@)
                &&& final(self)@.waiting == old(self)@.waiting
                &&& final(self)@.assigned == old(self)@.assigned.push(scout@)
                &&& r.1.deep_view() == seq![
                    EventModel::Dequeued(scout@),
                    EventModel::Assigned {
                        scout: scout@,
                        team: item.team,
                        match_key: current_key(old(self)@.pool),
                    },
                ]
            },
            !old(self)@.assigned.contains(scout@) && !old(self)@.waiting.contains(scout@)
                && take_result(old(self)@.pool, scout@) is None ==> {
                &&& r.0 is Waiting
                &&& final(self)@.pool == old(self)@.pool
                &&& final(self)@.waiting == old(self)@.waiting.push(scout@)
                &&& final(self)@.assigned == old(self)@.assigned
                &&& r.1.deep_view() == seq![EventModel::Queued(scout@)]
            },
    {
        if contains_string(&self.assigned, &scout) {
            return (QueueOutcome::AlreadyAssigned, Vec::new());
        }
        if contains_string(&self.waiting, &scout) {
            return (QueueOutcome::AlreadyWaiting, Vec::new());
        }
        let match_key = match self.pool.current_match() {
            Some(k) => k.clone(),
            None => String::new(),
        };
        proof {
            assert(match_key@ == current_key(self@.pool));
        }
        match self.pool.take_for(&scout) {
            Some(item) => {
                proof {
                    assert(take_result(old(self)@.pool, scout@) == Some(item@));
                    assert(self@.pool == take_rest(old(self)@.pool, scout@));
                }
                let ghost assigned0 = self@.assigned;
                self.assigned.push(scout.clone());
                proof {
                    assert(self@.assigned =~= assigned0.push(scout@));
                    assert(self.wf()) by {
                        assert forall|i: int, j: int|
                            0 <= i < j < self@.assigned.len() implies self@.assigned[i]
                            != self@.assigned[j] by {
                            if j == self@.assigned.len() - 1 {
                                assert(old(self)@.assigned.contains(assigned0[i]));
                            }
                        };
                        assert forall|i: int|
                            0 <= i < self@.waiting.len() implies !self@.assigned.contains(
                            self@.waiting[i],
                        ) by {
                            assert(!old(self)@.assigned.contains(old(self)@.waiting[i]));
                            assert(self@.waiting[i] != scout@);
                            assert forall|j: int|
                                0 <= j < self@.assigned.len() implies self@.assigned[j]
                                != self@.waiting[i] by {
                                if j < assigned0.len() {
                                    assert(old(self)@.assigned[j] != old(self)@.waiting[i]);
                                }
                            };
                        };
                    };
                }
                let assignment = Assignment {
                    scout: scout.clone(),
                    team_key: item.team_key,
                    alliance: item.alliance,
                    match_key: match_key.clone(),
                };
                let mut events: Vec<LiveEvent> = Vec::new();
                events.push(LiveEvent::ScoutDequeued(scout.clone()));
                events.push(LiveEvent::AssignmentMade {
                    scout: scout,
                    team: assignment.team_key.clone(),
                    match_key: match_key,
                });
                proof {
                    assert(events.deep_view() =~= seq![
                        EventModel::Dequeued(scout@),
                        EventModel::Assigned {
                            scout: scout@,
                            team: assignment@.team,
                            match_key: current_key(old(self)@.pool),
                        },
                    ]);
                }
                (QueueOutcome::Assigned(assignment), events)
            },
            None => {
                proof {
                    assert(take_result(old(self)@.pool, scout@) is None);
                    assert(self@.pool == old(self)@.pool);
                }
                let ghost waiting0 = self@.waiting;
                self.waiting.push(scout.clone());
                proof {
                    assert(self@.waiting =~= waiting0.push(scout@));
                    assert(self.wf()) by {
                        assert forall|i: int, j: int|
                            0 <= i < j < self@.waiting.len() implies self@.waiting[i]
                            != self@.waiting[j] by {
                            if j == self@.waiting.len() - 1 {
                                assert(old(self)@.waiting.contains(waiting0[i]));
                            }
                        };
                        assert forall|i: int|
                            0 <= i < self@.waiting.len() implies !self@.assigned.contains(
                            self@.waiting[i],
                        ) by {
                            if i < waiting0.len() {
                                assert(!old(self)@.assigned.contains(old(self)@.waiting[i]));
                            } else {
                                assert(!old(self)@.assigned.contains(scout@));
                            }
                        };
                    };
                }
                let mut events: Vec<LiveEvent> = Vec::new();
                events.push(LiveEvent::ScoutQueued(scout));
                proof {
                    assert(events.deep_view() =~= seq![EventModel::Queued(scout@)]);
                }
                (QueueOutcome::Waiting, events)
            },
        }
    }

    /// Answers one scout's `dequeue` request: a scout that is not waiting
    /// is refused with `NotWaiting` and nothing changes; otherwise the
    /// scout leaves the waiting group (everyone else keeps their place)
    /// and one departure event is broadcast.
    pub fn request_dequeue(&mut self, scout: &String) -> (r: (
        Result<(), QueueError>,
        Vec<LiveEvent>,
    ))
        requires
            old(self).wf(),
        ensures
            final(self).wf(),
            !old(self)@.waiting.contains(scout@) ==> (r.0 matches Err(e) && e
                == QueueError::NotWaiting) && *final(self) == *old(self) && r.1@.len() == 0,
            old(self)@.waiting.contains(scout@) ==> {
                &&& r.0 is Ok
                &&& final(self)@.waiting == old(self)@.waiting.remove(
                    old(self)@.waiting.index_of(scout@),
                )
                &&& final(self)@.assigned == old(self)@.assigned
                &&& final(self)@.pool == old(self)@.pool
                &&& r.1.deep_view() == seq![EventModel::Dequeued(scout@)]
            },
    {
        let mut k: usize = 0;
        while k < self.waiting.len()
            invariant
                k <= self.waiting.len(),
                *self == *old(self),
                old(self).wf(),
                forall|j: int| 0 <= j < k ==> self@.waiting[j] != scout@,
            decreases self.waiting.len() - k,
        {
            if self.waiting[k] == *scout {
                proof {
                    assert(self@.waiting[k as int] == scout@);
                    assert(self@.waiting.contains(scout@));
                    let i = self@.waiting.index_of(scout@);
                    assert(0 <= i < self@.waiting.len() && self@.waiting[i] == scout@);
                    assert(i == k) by {
                        if i < k {
                            assert(self@.waiting[i] != self@.waiting[k as int]);
                        }
                        if k < i {
                            assert(self@.waiting[k as int] != self@.waiting[i]);
                        }
                    };
                }
                self.waiting.remove(k);
                proof {
                    assert(self@.waiting =~= old(self)@.waiting.remove(k as int));
                    assert(self.wf()) by {
                        assert forall|a: int, b: int|
                            0 <= a < b < self@.waiting.len() implies self@.waiting[a]
                            != self@.waiting[b] by {
                            let oa = if a < k { a } else { a + 1 };
                            let ob = if b < k { b } else { b + 1 };
                            assert(self@.waiting[a] == old(self)@.waiting[oa]);
                            assert(self@.waiting[b] == old(self)@.waiting[ob]);
                            assert(old(self)@.waiting[oa] != old(self)@.waiting[ob]);
                        };
                        assert forall|a: int|
                            0 <= a < self@.waiting.len() implies !self@.assigned.contains(
                            self@.waiting[a],
                        ) by {
                            let oa = if a < k { a } else { a + 1 };
                            assert(self@.waiting[a] == old(self)@.waiting[oa]);
                            assert(!old(self)@.assigned.contains(old(self)@.waiting[oa]));
                        };
                    };
                }
                let mut events: Vec<LiveEvent> = Vec::new();
                events.push(LiveEvent::ScoutDequeued(scout.clone()));
                proof {
                    assert(events.deep_view() =~= seq![EventModel::Dequeued(scout@)]);
                }
                return (Ok(()), events);
            }
            k += 1;
        }
        proof {
            assert(!self@.waiting.contains(scout@)) by {
                if self@.waiting.contains(scout@) {
                    let i = choose|i: int|
                        0 <= i < self@.waiting.len() && self@.waiting[i] == scout@;
                }
            };
        }
        (Err(QueueError::NotWaiting), Vec::new())
    }

    /// Settles one scout's submitted result: the payload was already
    /// handed to the persistence collaborator, whose verdict arrives in
    /// `persisted`.  The scout leaves `Assigned` whatever that verdict
    /// was — a transient storage failure must never wedge a scout — and
    /// the failure, if any, is reported back as `PersistenceFailure`.
    pub fn submit_result(&mut self, scout: &String, persisted: bool) -> (r: Result<
        (),
        QueueError,
    >)
        requires
            old(self).wf(),
        ensures
            final(self).wf(),
            !final(self)@.assigned.contains(scout@),
            final(self)@.waiting == old(self)@.waiting,
            final(self)@.pool == old(self)@.pool,
            old(self)@.assigned.contains(scout@) ==> final(self)@.assigned
                == old(self)@.assigned.remove(old(self)@.assigned.index_of(scout@)),
            !old(self)@.assigned.contains(scout@) ==> *final(self) == *old(self),
            persisted ==> r is Ok,
            !persisted ==> (r matches Err(e) && e == QueueError::PersistenceFailure),
    {
        let mut k: usize = 0;
        while k < self.assigned.len()
            invariant
                k <= self.assigned.len(),
                *self == *old(self),
                old(self).wf(),
                forall|j: int| 0 <= j < k ==> self@.assigned[j] != scout@,
            decreases self.assigned.len() - k,
        {
            if self.assigned[k] == *scout {
                proof {
                    assert(self@.assigned[k as int] == scout@);
                    assert(self@.assigned.contains(scout@));
                    let i = self@.assigned.index_of(scout@);
                    assert(0 <= i < self@.assigned.len() && self@.assigned[i] == scout@);
                    assert(i == k) by {
                        if i < k {
                            assert(self@.assigned[i] != self@.assigned[k as int]);
                        }
                        if k < i {
                            assert(self@.assigned[k as int] != self@.assigned[i]);
                        }
                    };
                }
                self.assigned.remove(k);
                proof {
                    assert(self@.assigned =~= old(self)@.assigned.remove(k as int));
                    assert(self.wf()) by {
                        assert forall|a: int, b: int|
                            0 <= a < b < self@.assigned.len() implies self@.assigned[a]
                            != self@.assigned[b] by {
                            let oa = if a < k { a } else { a + 1 };
                            let ob = if b < k { b } else { b + 1 };
                            assert(self@.assigned[a] == old(self)@.assigned[oa]);
                            assert(self@.assigned[b] == old(self)@.assigned[ob]);
                            assert(old(self)@.assigned[oa] != old(self)@.assigned[ob]);
                        };
                        assert forall|a: int|
                            0 <= a < self@.waiting.len() implies !self@.assigned.contains(
                            self@.waiting[a],
                        ) by {
                            assert(!old(self)@.assigned.contains(old(self)@.waiting[a]));
                            assert forall|b: int|
                                0 <= b < self@.assigned.len() implies self@.assigned[b]
                                != self@.waiting[a] by {
                                let ob = if b < k { b } else { b + 1 };
                                assert(self@.assigned[b] == old(self)@.assigned[ob]);
                                assert(old(self)@.assigned[ob] != old(self)@.waiting[a]);
                            };
                        };
                    };
                    assert(!self@.assigned.contains(scout@)) by {
                        if self@.assigned.contains(scout@) {
                            let a = choose|a: int|
                                0 <= a < self@.assigned.len() && self@.assigned[a] == scout@;
                            let oa = if a < k { a } else { a + 1 };
                            assert(self@.assigned[a] == old(self)@.assigned[oa]);
                            assert(old(self)@.assigned[oa] != old(self)@.assigned[k as int]);
                        }
                    };
                }
                if persisted {
                    return Ok(());
                } else {
                    return Err(QueueError::PersistenceFailure);
                }
            }
            k += 1;
        }
        proof {
            assert(!self@.assigned.contains(scout@)) by {
                if self@.assigned.contains(scout@) {
                    let i = choose|i: int|
                        0 <= i < self@.assigned.len() && self@.assigned[i] == scout@;
                }
            };
        }
        if persisted {
            Ok(())
        } else {
            Err(QueueError::PersistenceFailure)
        }
    }

    /// Declares a match in automatic mode, under one critical section:
    /// the key and every named team enter the pool, then the whole
    /// waiting group is consumed in arrival order — the red stock is
    /// served first, then the blue one, each scout popping the newest
    /// pending item — and waiting scouts left over return to `Idle`.
    /// Returns the direct assignments made and the events to broadcast.
    /// Work items are conserved: every declared or previously pending
    /// item is either delivered to a distinct waiting scout or still
    /// pending afterwards.
    pub fn create_match_auto(
        &mut self,
        match_key: String,
        red_teams: &Vec<String>,
        blue_teams: &Vec<String>,
    ) -> (r: (Vec<Assignment>, Vec<LiveEvent>))
        requires
            old(self).wf(),
        ensures
            final(self).wf(),
            ({
                let key = match_key@;
                let pr = old(self)@.pool.pending_red + items_of(
                    red_teams.deep_view(),
                    Alliance::Red,
                );
                let pb = old(self)@.pool.pending_blue + items_of(
                    blue_teams.deep_view(),
                    Alliance::Blue,
                );
                let ra = lifo_pairing(old(self)@.waiting, pr, key);
                let ba = lifo_pairing(old(self)@.waiting.skip(ra.len() as int), pb, key);
                &&& r.0.deep_view() == ra + ba
                &&& r.1.deep_view() == assignment_events(ra + ba)
                &&& final(self)@.pool.pending_red == pr.take(pr.len() - ra.len())
                &&& final(self)@.pool.pending_blue == pb.take(pb.len() - ba.len())
                &&& final(self)@.pool.overrides == old(self)@.pool.overrides
                &&& final(self)@.pool.match_keys == old(self)@.pool.match_keys.push(key)
                &&& final(self)@.waiting == Seq::<Seq<char>>::empty()
                &&& final(self)@.assigned == old(self)@.assigned + old(self)@.waiting.take(
                    ra.len() + ba.len() as int,
                )
            }),
            r.0@.len() + final(self)@.pool.pending_red.len()
                + final(self)@.pool.pending_blue.len() == old(self)@.pool.pending_red.len()
                + old(self)@.pool.pending_blue.len() + red_teams@.len() + blue_teams@.len(),
            forall|i: int, j: int|
                #![trigger r.0.deep_view()[i], r.0.deep_view()[j]]
                0 <= i < j < r.0.deep_view().len() ==> r.0.deep_view()[i].scout
                    != r.0.deep_view()[j].scout,
            forall|i: int|
                0 <= i < r.0.deep_view().len() ==> old(self)@.waiting.contains(
                    #[trigger] r.0.deep_view()[i].scout,
                ),
    {
        let ghost w0 = self@.waiting;
        let ghost a0 = self@.assigned;
        let ghost key = match_key@;
        self.pool.enqueue_match(match_key.clone(), red_teams, blue_teams);
        let ghost pr = self@.pool.pending_red;
        let ghost pb = self@.pool.pending_blue;
        let ghost ov1 = self@.pool.overrides;
        let ghost mk1 = self@.pool.match_keys;
        let ghost ra = lifo_pairing(w0, pr, key);
        let ghost ba = lifo_pairing(w0.skip(ra.len() as int), pb, key);
        let mut assignments: Vec<Assignment> = Vec::new();
        let mut events: Vec<LiveEvent> = Vec::new();
        let mut idx: usize = 0;
        while idx < self.waiting.len() && self.pool.pending_len(Alliance::Red) > 0
            invariant
                old(self).wf(),
                w0 == old(self)@.waiting,
                a0 == old(self)@.assigned,
                key == match_key@,
                idx <= self.waiting.len(),
                idx <= pr.len(),
                self.waiting.deep_view() == w0,
                ra == lifo_pairing(w0, pr, key),
                self@.pool.pending_red == pr.take(pr.len() - idx),
                self@.pool.pending_blue == pb,
                self.pool.wf(),
                self@.pool.overrides == ov1,
                self@.pool.match_keys == mk1,
                self@.assigned == a0 + w0.take(idx as int),
                assignments.deep_view() == ra.take(idx as int),
                events.deep_view() == assignment_events(ra.take(idx as int)),
            decreases self.waiting.len() - idx,
        {
            let popped = self.pool.pop_pending(Alliance::Red);
            proof {
                assert(pr.take(pr.len() - idx).len() > 0);
            }
            let item = popped.unwrap();
            proof {
                assert(item@ == pr.take(pr.len() - idx).last());
                assert(item@ == pr[pr.len() - 1 - idx]);
                assert(self@.pool.pending_red =~= pr.take(pr.len() - (idx + 1)));
            }
            let scout = self.waiting[idx].clone();
            proof {
                assert(scout@ == w0[idx as int]);
            }
            let ghost asg0 = self@.assigned;
            self.assigned.push(scout.clone());
            let ghost pre_assignments = assignments.deep_view();
            assignments.push(
                Assignment {
                    scout: scout.clone(),
                    team_key: item.team_key.clone(),
                    alliance: item.alliance,
                    match_key: match_key.clone(),
                },
            );
            let ghost pre_events = events.deep_view();
            events.push(LiveEvent::ScoutDequeued(scout.clone()));
            events.push(
                LiveEvent::AssignmentMade {
                    scout: scout,
                    team: item.team_key,
                    match_key: match_key.clone(),
                },
            );
            proof {
                assert(self@.assigned =~= asg0.push(w0[idx as int]));
                assert(self@.assigned =~= a0 + w0.take(idx + 1));
                assert(assignments.deep_view() =~= pre_assignments.push(ra[idx as int]));
                assert(assignments.deep_view() =~= ra.take(idx + 1));
                assert(events.deep_view() =~= pre_events.push(
                    EventModel::Dequeued(ra[idx as int].scout),
                ).push(
                    EventModel::Assigned {
                        scout: ra[idx as int].scout,
                        team: ra[idx as int].team,
                        match_key: ra[idx as int].match_key,
                    },
                ));
                assert(events.deep_view() =~= assignment_events(ra.take(idx + 1)));
            }
            idx += 1;
        }
        proof {
            assert(idx == ra.len());
        }
        let ghost nr = ra.len() as int;
        while idx < self.waiting.len() && self.pool.pending_len(Alliance::Blue) > 0
            invariant
                old(self).wf(),
                w0 == old(self)@.waiting,
                a0 == old(self)@.assigned,
                key == match_key@,
                nr == ra.len(),
                nr <= idx <= self.waiting.len(),
                idx - nr <= pb.len(),
                self.waiting.deep_view() == w0,
                ra == lifo_pairing(w0, pr, key),
                ba == lifo_pairing(w0.skip(nr), pb, key),
                self@.pool.pending_red == pr.take(pr.len() - nr),
                self@.pool.pending_blue == pb.take(pb.len() - (idx - nr)),
                self.pool.wf(),
                self@.pool.overrides == ov1,
                self@.pool.match_keys == mk1,
                self@.assigned == a0 + w0.take(idx as int),
                assignments.deep_view() == ra + ba.take(idx - nr),
                events.deep_view() == assignment_events(ra + ba.take(idx - nr)),
            decreases self.waiting.len() - idx,
        {
            let popped = self.pool.pop_pending(Alliance::Blue);
            proof {
                assert(pb.take(pb.len() - (idx - nr)).len() > 0);
            }
            let item = popped.unwrap();
            let ghost bi = idx - nr;
            proof {
                assert(item@ == pb.take(pb.len() - bi).last());
                assert(item@ == pb[pb.len() - 1 - bi]);
                assert(self@.pool.pending_blue =~= pb.take(pb.len() - (bi + 1)));
            }
            let scout = self.waiting[idx].clone();
            proof {
                assert(scout@ == w0[idx as int]);
                assert(w0.skip(nr)[bi] == w0[idx as int]);
                assert(ba[bi].scout == w0[idx as int]);
            }
            let ghost asg0 = self@.assigned;
            self.assigned.push(scout.clone());
            let ghost pre_assignments = assignments.deep_view();
            assignments.push(
                Assignment {
                    scout: scout.clone(),
                    team_key: item.team_key.clone(),
                    alliance: item.alliance,
                    match_key: match_key.clone(),
                },
            );
            let ghost pre_events = events.deep_view();
            events.push(LiveEvent::ScoutDequeued(scout.clone()));
            events.push(
                LiveEvent::AssignmentMade {
                    scout: scout,
                    team: item.team_key,
                    match_key: match_key.clone(),
                },
            );
            proof {
                assert(self@.assigned =~= asg0.push(w0[idx as int]));
                assert(self@.assigned =~= a0 + w0.take(idx + 1));
                assert(assignments.deep_view() =~= pre_assignments.push(ba[bi]));
                assert(assignments.deep_view() =~= ra + ba.take(bi + 1));
                assert(events.deep_view() =~= pre_events.push(
                    EventModel::Dequeued(ba[bi].scout),
                ).push(
                    EventModel::Assigned {
                        scout: ba[bi].scout,
                        team: ba[bi].team,
                        match_key: ba[bi].match_key,
                    },
                ));
                assert(events.deep_view() =~= assignment_events(ra + ba.take(bi + 1)));
            }
            idx += 1;
        }
        proof {
            assert(idx - nr == ba.len());
            assert(ba.take(ba.len() as int) =~= ba);
            assert(ra.take(ra.len() as int) =~= ra);
        }
        self.waiting.clear();
        proof {
            assert(self@.waiting =~= Seq::<Seq<char>>::empty());
            assert forall|i: int| 0 <= i < (ra + ba).len() implies #[trigger] (ra + ba)[i].scout
                == w0[i] by {
                if i >= nr {
                    assert(ba[i - nr].scout == w0.skip(nr)[i - nr]);
                }
            };
            assert forall|i: int, j: int| 0 <= i < j < (ra + ba).len() implies (ra + ba)[i].scout
                != (ra + ba)[j].scout by {
                assert((ra + ba)[i].scout == w0[i]);
                assert((ra + ba)[j].scout == w0[j]);
                assert(w0[i] != w0[j]);
            };
            assert forall|i: int| 0 <= i < (ra + ba).len() implies w0.contains(
                (ra + ba)[i].scout,
            ) by {
                assert((ra + ba)[i].scout == w0[i]);
            };
            assert(self.wf()) by {
                assert forall|i: int, j: int|
                    0 <= i < j < self@.assigned.len() implies self@.assigned[i]
                    != self@.assigned[j] by {
                    if i < a0.len() && j >= a0.len() {
                        assert(w0.contains(w0[j - a0.len()]));
                        assert(!a0.contains(w0[j - a0.len()]));
                        assert(a0[i] != w0[j - a0.len()]);
                    }
                };
            };
        }
        (assignments, events)
    }

    /// Declares a match in manual mode, under one critical section: each
    /// named team is pinned to the scout at the same position of its
    /// alliance's list, and the whole batch is refused atomically with
    /// `DuplicateAssignment` — the coordinator left untouched — when it
    /// names a scout twice or names one that already holds an override.
    /// On success the key enters the pool, teams beyond the scout lists
    /// go to the pending stocks, pinned scouts that are waiting receive
    /// their team at once (leaving the waiting group, with events), and
    /// pins for scouts not waiting stay in the pool until they queue.
    pub fn create_match_manual(
        &mut self,
        match_key: String,
        red_teams: &Vec<String>,
        blue_teams: &Vec<String>,
        red_scouts: &Vec<String>,
        blue_scouts: &Vec<String>,
    ) -> (r: (Result<Vec<Assignment>, QueueError>, Vec<LiveEvent>))
        requires
            old(self).wf(),
        ensures
            final(self).wf(),
            ({
                let key = match_key@;
                let rp = zip_pairs(red_teams.deep_view(), red_scouts.deep_view());
                let bp = zip_pairs(blue_teams.deep_view(), blue_scouts.deep_view());
                let pins = pins_of(rp, Alliance::Red) + pins_of(bp, Alliance::Blue);
                let delivered = delivered_pins(pins, old(self)@.waiting);
                &&& (r.0 is Err <==> manual_conflict(old(self)@.pool.overrides, pins))
                &&& r.0 matches Err(e) ==> e == QueueError::DuplicateAssignment && *final(self)
                    == *old(self) && r.1@.len() == 0
                &&& r.0 matches Ok(asgs) ==> {
                    &&& asgs.deep_view() == pin_assignments(delivered, key)
                    &&& r.1.deep_view() == assignment_events(pin_assignments(delivered, key))
                    &&& final(self)@.pool.overrides == old(self)@.pool.overrides + retained_pins(
                        pins,
                        old(self)@.waiting,
                    )
                    &&& final(self)@.pool.match_keys == old(self)@.pool.match_keys.push(key)
                    &&& final(self)@.pool.pending_red == old(self)@.pool.pending_red + items_of(
                        red_teams.deep_view().skip(rp.len() as int),
                        Alliance::Red,
                    )
                    &&& final(self)@.pool.pending_blue == old(self)@.pool.pending_blue + items_of(
                        blue_teams.deep_view().skip(bp.len() as int),
                        Alliance::Blue,
                    )
                    &&& final(self)@.waiting == remaining_waiting(
                        old(self)@.waiting,
                        pin_names(pins),
                    )
                    &&& final(self)@.assigned == old(self)@.assigned + pin_names(delivered)
                }
            }),
    {
        let ghost w0 = self@.waiting;
        let ghost a0 = self@.assigned;
        let ghost ov0 = self@.pool.overrides;
        let ghost key = match_key@;
        let red_pairs = zip_teams_scouts(red_teams, red_scouts);
        let mut blue_pairs = zip_teams_scouts(blue_teams, blue_scouts);
        let ghost rp = zip_pairs(red_teams.deep_view(), red_scouts.deep_view());
        let ghost bp = zip_pairs(blue_teams.deep_view(), blue_scouts.deep_view());
        let ghost pinsg = pins_of(rp, Alliance::Red) + pins_of(bp, Alliance::Blue);
        match self.pool.assign_manual(match_key.clone(), &red_pairs, &blue_pairs) {
            Err(e) => {
                return (Err(e), Vec::new());
            },
            Ok(()) => {},
        }
        proof {
            assert(self@.pool.overrides == ov0 + pinsg);
            assert(crate::pool::overrides_unique(pinsg)) by {
                assert forall|i: int, j: int| 0 <= i < j < pinsg.len() implies pinsg[i].0
                    != pinsg[j].0 by {
                    let n = ov0.len() as int;
                    assert((ov0 + pinsg)[n + i].0 != (ov0 + pinsg)[n + j].0);
                };
            };
        }
        let red_left = tail_items(red_teams, red_pairs.len(), Alliance::Red);
        self.pool.return_if_unmatched(Alliance::Red, red_left);
        let blue_left = tail_items(blue_teams, blue_pairs.len(), Alliance::Blue);
        self.pool.return_if_unmatched(Alliance::Blue, blue_left);
        let ghost prf = self@.pool.pending_red;
        let ghost pbf = self@.pool.pending_blue;
        let ghost mk1 = self@.pool.match_keys;
        let mut pairs = red_pairs;
        pairs.append(&mut blue_pairs);
        proof {
            assert(pairs.deep_view() =~= rp + bp);
            assert(pairs.deep_view().len() == pinsg.len());
            assert forall|i: int| 0 <= i < pinsg.len() implies #[trigger] pinsg[i].0
                == pairs.deep_view()[i].1 by {
                if i < rp.len() {
                    assert(pinsg[i] == pins_of(rp, Alliance::Red)[i]);
                } else {
                    assert(pinsg[i] == pins_of(bp, Alliance::Blue)[i - rp.len()]);
                }
            };
        }
        let mut assignments: Vec<Assignment> = Vec::new();
        let mut events: Vec<LiveEvent> = Vec::new();
        let mut k: usize = 0;
        while k < pairs.len()
            invariant
                old(self).wf(),
                w0 == old(self)@.waiting,
                a0 == old(self)@.assigned,
                ov0 == old(self)@.pool.overrides,
                key == match_key@,
                k <= pairs.len(),
                pairs.deep_view().len() == pinsg.len(),
                forall|i: int|
                    0 <= i < pinsg.len() ==> #[trigger] pinsg[i].0 == pairs.deep_view()[i].1,
                crate::pool::overrides_unique(pinsg),
                self.pool.wf(),
                self.waiting.deep_view() == w0,
                self@.pool.overrides == ov0 + retained_pins(pinsg.take(k as int), w0)
                    + pinsg.skip(k as int),
                self@.pool.pending_red == prf,
                self@.pool.pending_blue == pbf,
                self@.pool.match_keys == mk1,
                self@.assigned == a0 + pin_names(delivered_pins(pinsg.take(k as int), w0)),
                assignments.deep_view() == pin_assignments(
                    delivered_pins(pinsg.take(k as int), w0),
                    key,
                ),
                events.deep_view() == assignment_events(
                    pin_assignments(delivered_pins(pinsg.take(k as int), w0), key),
                ),
            decreases pairs.len() - k,
        {
            let scout = pairs[k].1.clone();
            let ghost tk = pinsg.take(k as int);
            let ghost del_k = delivered_pins(tk, w0);
            let ghost kept_k = retained_pins(tk, w0);
            proof {
                assert(scout@ == pinsg[k as int].0);
                assert(pinsg.take(k + 1) =~= tk.push(pinsg[k as int]));
                assert((tk.push(pinsg[k as int])).drop_last() =~= tk);
                assert(pinsg.skip(k as int) =~= seq![pinsg[k as int]] + pinsg.skip(k + 1));
            }
            if contains_string(&self.waiting, &scout) {
                proof {
                    assert(w0.contains(scout@));
                    assert(delivered_pins(pinsg.take(k + 1), w0) == del_k.push(
                        pinsg[k as int],
                    ));
                    assert(retained_pins(pinsg.take(k + 1), w0) == kept_k);
                }
                let ghost cur = self@.pool.overrides;
                let ghost pos = ov0.len() + kept_k.len();
                proof {
                    assert(cur[pos as int] == pinsg[k as int]);
                    assert(cur[pos as int].0 == scout@);
                    assert(spec_has_override(cur, scout@));
                }
                let popped = self.pool.take_for(&scout);
                proof {
                    let i = override_index(cur, scout@);
                    assert(0 <= i < cur.len() && cur[i].0 == scout@);
                    assert(i == pos) by {
                        if i < pos as int {
                            assert(cur[i].0 != cur[pos as int].0);
                        }
                        if (pos as int) < i {
                            assert(cur[pos as int].0 != cur[i].0);
                        }
                    };
                    assert(self@.pool.overrides =~= ov0 + kept_k + pinsg.skip(k + 1));
                }
                let item = popped.unwrap();
                proof {
                    assert(item@ == pinsg[k as int].1);
                }
                let ghost asg0 = self@.assigned;
                self.assigned.push(scout.clone());
                let ghost pre_assignments = assignments.deep_view();
                assignments.push(
                    Assignment {
                        scout: scout.clone(),
                        team_key: item.team_key.clone(),
                        alliance: item.alliance,
                        match_key: match_key.clone(),
                    },
                );
                let ghost pre_events = events.deep_view();
                events.push(LiveEvent::ScoutDequeued(scout.clone()));
                events.push(
                    LiveEvent::AssignmentMade {
                        scout: scout,
                        team: item.team_key,
                        match_key: match_key.clone(),
                    },
                );
                proof {
                    let d1 = delivered_pins(pinsg.take(k + 1), w0);
                    assert(pin_names(d1) =~= pin_names(del_k).push(pinsg[k as int].0));
                    assert(self@.assigned =~= asg0.push(pinsg[k as int].0));
                    assert(self@.assigned =~= a0 + pin_names(d1));
                    assert(pin_assignments(d1, key) =~= pin_assignments(del_k, key).push(
                        AssignmentModel {
                            scout: pinsg[k as int].0,
                            team: pinsg[k as int].1.team,
                            alliance: pinsg[k as int].1.alliance,
                            match_key: key,
                        },
                    ));
                    assert(assignments.deep_view() =~= pre_assignments.push(
                        AssignmentModel {
                            scout: pinsg[k as int].0,
                            team: pinsg[k as int].1.team,
                            alliance: pinsg[k as int].1.alliance,
                            match_key: key,
                        },
                    ));
                    assert(assignments.deep_view() == pin_assignments(d1, key));
                    assert(events.deep_view() =~= pre_events.push(
                        EventModel::Dequeued(pinsg[k as int].0),
                    ).push(
                        EventModel::Assigned {
                            scout: pinsg[k as int].0,
                            team: pinsg[k as int].1.team,
                            match_key: key,
                        },
                    ));
                    assert(events.deep_view() =~= assignment_events(pin_assignments(d1, key)));
                }
            } else {
                proof {
                    assert(!w0.contains(scout@));
                    assert(delivered_pins(pinsg.take(k + 1), w0) == del_k);
                    assert(retained_pins(pinsg.take(k + 1), w0) == kept_k.push(
                        pinsg[k as int],
                    ));
                    assert(self@.pool.overrides =~= ov0 + retained_pins(pinsg.take(k + 1), w0)
                        + pinsg.skip(k + 1));
                }
            }
            k += 1;
        }
        proof {
            assert(pinsg.take(pinsg.len() as int) =~= pinsg);
            assert(pinsg.skip(pinsg.len() as int) =~= Seq::<(Seq<char>, ItemModel)>::empty());
            assert(ov0 + retained_pins(pinsg, w0) + pinsg.skip(pinsg.len() as int) =~= ov0
                + retained_pins(pinsg, w0));
        }
        let ghost delg = delivered_pins(pinsg, w0);
        let mut new_waiting: Vec<String> = Vec::new();
        let mut i: usize = 0;
        while i < self.waiting.len()
            invariant
                i <= self.waiting.len(),
                self.waiting.deep_view() == w0,
                pairs.deep_view().len() == pinsg.len(),
                forall|j: int|
                    0 <= j < pinsg.len() ==> #[trigger] pinsg[j].0 == pairs.deep_view()[j].1,
                new_waiting.deep_view() == remaining_waiting(w0.take(i as int), pin_names(pinsg)),
            decreases self.waiting.len() - i,
        {
            let ghost prev = new_waiting.deep_view();
            let pinned = scout_name_in(&pairs, &self.waiting[i]);
            proof {
                assert(w0.take(i + 1) =~= w0.take(i as int).push(w0[i as int]));
                assert((w0.take(i as int).push(w0[i as int])).drop_last() =~= w0.take(i as int));
                assert(pinned == pin_names(pinsg).contains(w0[i as int])) by {
                    if pinned {
                        let j = choose|j: int|
                            0 <= j < pairs.deep_view().len() && pairs.deep_view()[j].1
                                == w0[i as int];
                        assert(pin_names(pinsg)[j] == w0[i as int]);
                    }
                    if pin_names(pinsg).contains(w0[i as int]) {
                        let j = choose|j: int|
                            0 <= j < pin_names(pinsg).len() && pin_names(pinsg)[j]
                                == w0[i as int];
                        assert(pairs.deep_view()[j].1 == w0[i as int]);
                    }
                };
            }
            if !pinned {
                new_waiting.push(self.waiting[i].clone());
                proof {
                    assert(new_waiting.deep_view() =~= prev.push(w0[i as int]));
                }
            }
            proof {
                assert(new_waiting.deep_view() == remaining_waiting(
                    w0.take(i + 1),
                    pin_names(pinsg),
                ));
            }
            i += 1;
        }
        proof {
            assert(w0.take(w0.len() as int) =~= w0);
        }
        self.waiting = new_waiting;
        proof {
            lemma_remaining_waiting(w0, pin_names(pinsg));
            lemma_split_pins(pinsg, w0);
            assert(self.wf()) by {
                assert forall|a: int, b: int|
                    0 <= a < b < self@.assigned.len() implies self@.assigned[a]
                    != self@.assigned[b] by {
                    let n = a0.len() as int;
                    if b >= n {
                        assert(self@.assigned[b] == pin_names(delg)[b - n]);
                        assert(delg.contains(delg[b - n]));
                        assert(w0.contains(delg[b - n].0));
                        if a < n {
                            assert(!a0.contains(delg[b - n].0));
                            assert(a0.contains(a0[a]));
                        } else {
                            assert(self@.assigned[a] == pin_names(delg)[a - n]);
                            assert(delg[a - n].0 != delg[b - n].0);
                        }
                    } else {
                        assert(a0[a] != a0[b]);
                    }
                };
                assert forall|a: int|
                    0 <= a < self@.waiting.len() implies !self@.assigned.contains(
                    self@.waiting[a],
                ) by {
                    let x = self@.waiting[a];
                    assert(self@.waiting.contains(x));
                    assert(w0.contains(x) && !pin_names(pinsg).contains(x));
                    assert forall|b: int|
                        0 <= b < self@.assigned.len() implies self@.assigned[b] != x by {
                        let n = a0.len() as int;
                        if b < n {
                            assert(!a0.contains(x));
                            assert(a0.contains(a0[b]));
                        } else {
                            assert(self@.assigned[b] == pin_names(delg)[b - n]);
                            assert(delg.contains(delg[b - n]));
                            assert(pinsg.contains(delg[b - n]));
                            let c = choose|c: int|
                                0 <= c < pinsg.len() && pinsg[c] == delg[b - n];
                            assert(pin_names(pinsg)[c] == delg[b - n].0);
                            assert(pin_names(pinsg).contains(delg[b - n].0));
                        }
                    };
                };
            };
        }
        (Ok(assignments), events)
    }

    /// Handles a scout's disconnect: a waiting scout leaves the waiting
    /// group at once, so it is never later handed a work item; an
    /// assigned scout's work item is not reclaimed.  The pool is never
    /// touched.
    pub fn disconnect(&mut self, scout: &String)
        requires
            old(self).wf(),
        ensures
            final(self).wf(),
            final(self)@.pool == old(self)@.pool,
            !final(self)@.waiting.contains(scout@),
            !final(self)@.assigned.contains(scout@),
            old(self)@.waiting.contains(scout@) ==> final(self)@.waiting
                == old(self)@.waiting.remove(old(self)@.waiting.index_of(scout@))
                && final(self)@.assigned == old(self)@.assigned,
            !old(self)@.waiting.contains(scout@) ==> final(self)@.waiting == old(self)@.waiting
                && (old(self)@.assigned.contains(scout@) ==> final(self)@.assigned
                == old(self)@.assigned.remove(old(self)@.assigned.index_of(scout@))),
            !old(self)@.waiting.contains(scout@) && !old(self)@.assigned.contains(scout@)
                ==> *final(self) == *old(self),
    {
        let was_waiting = {
            let r = self.request_dequeue(scout);
            r.0.is_ok()
        };
        if !was_waiting {
            let _ = self.submit_result(scout, true);
            proof {
                if !old(self)@.assigned.contains(scout@) {
                    assert(*final(self) == *old(self));
                }
            }
        } else {
            proof {
                assert(!self@.waiting.contains(scout@)) by {
                    let w0 = old(self)@.waiting;
                    let i = w0.index_of(scout@);
                    if self@.waiting.contains(scout@) {
                        let a = choose|a: int|
                            0 <= a < self@.waiting.len() && self@.waiting[a] == scout@;
                        let oa = if a < i { a } else { a + 1 };
                        assert(self@.waiting[a] == w0[oa]);
                        assert(w0[oa] != w0[i]);
                    }
                };
                assert(!self@.assigned.contains(scout@)) by {
                    assert(!old(self)@.assigned.contains(scout@)) by {
                        let i = old(self)@.waiting.index_of(scout@);
                        assert(old(self)@.waiting[i] == scout@);
                        assert(!old(self)@.assigned.contains(old(self)@.waiting[i]));
                    };
                };
            }
        }
    }
}

/// Builds the positional `(team, scout)` pairs of one alliance's manual
/// batch.
fn zip_teams_scouts(teams: &Vec<String>, scouts: &Vec<String>) -> (r: Vec<(String, String)>)
    ensures
        r.deep_view() == zip_pairs(teams.deep_view(), scouts.deep_view()),
{
    let n = if teams.len() <= scouts.len() {
        teams.len()
    } else {
        scouts.len()
    };
    let mut out: Vec<(String, String)> = Vec::new();
    let mut i: usize = 0;
    while i < n
        invariant
            i <= n,
            n == min(teams.deep_view().len() as int, scouts.deep_view().len() as int),
            out.deep_view() =~= zip_pairs(teams.deep_view(), scouts.deep_view()).take(i as int),
        decreases n - i,
    {
        let ghost prev = out.deep_view();
        out.push((teams[i].clone(), scouts[i].clone()));
        proof {
            let z = zip_pairs(teams.deep_view(), scouts.deep_view());
            assert(out.deep_view() =~= prev.push((teams.deep_view()[i as int], scouts.deep_view()[i as int])));
            assert(z.take(i + 1) =~= z.take(i as int).push(z[i as int]));
        }
        i += 1;
    }
    proof {
        let z = zip_pairs(teams.deep_view(), scouts.deep_view());
        assert(z.take(z.len() as int) =~= z);
    }
    out
}

/// Builds one work item per team from position `from` on, all on one
/// alliance: the teams of a manual batch that no scout was pinned to.
fn tail_items(teams: &Vec<String>, from: usize, alliance: Alliance) -> (r: Vec<WorkItem>)
    requires
        from <= teams.len(),
    ensures
        r.deep_view() == items_of(teams.deep_view().skip(from as int), alliance),
{
    let mut out: Vec<WorkItem> = Vec::new();
    let mut i: usize = from;
    while i < teams.len()
        invariant
            from <= i <= teams.len(),
            out.deep_view() =~= items_of(
                teams.deep_view().subrange(from as int, i as int),
                alliance,
            ),
        decreases teams.len() - i,
    {
        let ghost prev = out.deep_view();
        let t = teams[i].clone();
        out.push(WorkItem { team_key: t, alliance: alliance });
        proof {
            assert(out.deep_view() =~= prev.push(
                ItemModel { team: teams.deep_view()[i as int], alliance: alliance },
            ));
            assert(teams.deep_view().subrange(from as int, i + 1)
                =~= teams.deep_view().subrange(from as int, i as int).push(
                teams.deep_view()[i as int],
            ));
            assert(items_of(teams.deep_view().subrange(from as int, i + 1), alliance)
                =~= items_of(teams.deep_view().subrange(from as int, i as int), alliance).push(
                ItemModel { team: teams.deep_view()[i as int], alliance: alliance },
            ));
        }
        i += 1;
    }
    proof {
        assert(teams.deep_view().subrange(from as int, teams.deep_view().len() as int)
            =~= teams.deep_view().skip(from as int));
    }
    out
}

/// Whether any pair of the batch pins this scout name.
fn scout_name_in(pairs: &Vec<(String, String)>, name: &String) -> (b: bool)
    ensures
        b == (exists|i: int|
            0 <= i < pairs.deep_view().len() && pairs.deep_view()[i].1 == name@),
{
    let mut k: usize = 0;
    while k < pairs.len()
        invariant
            k <= pairs.len(),
            forall|j: int| 0 <= j < k ==> pairs.deep_view()[j].1 != name@,
        decreases pairs.len() - k,
    {
        if pairs[k].1 == *name {
            proof {
                assert(pairs.deep_view()[k as int].1 == name@);
            }
            return true;
        }
        k += 1;
    }
    false
}

/// Whether some entry of `v` spells this name.
fn contains_string(v: &Vec<String>, name: &String) -> (b: bool)
    ensures
        b == v.deep_view().contains(name@),
{
    let mut k: usize = 0;
    while k < v.len()
        invariant
            k <= v.len(),
            forall|j: int| 0 <= j < k ==> v.deep_view()[j] != name@,
        decreases v.len() - k,
    {
        if v[k] == *name {
            proof {
                assert(v.deep_view()[k as int] == name@);
            }
            return true;
        }
        k += 1;
    }
    proof {
        assert(!v.deep_view().contains(name@)) by {
            if v.deep_view().contains(name@) {
                let i = choose|i: int| 0 <= i < v.deep_view().len() && v.deep_view()[i] == name@;
            }
        };
    }
    false
}

} // verus!
