//! The assignment pool: unassigned work items, manual pins, and the
//! append-only list of declared match keys.

use vstd::prelude::*;

verus! {

/// Which side of a match a team plays on.
#[derive(Clone, Copy, Debug, PartialEq, Eq, Structural)]
pub enum Alliance {
    Red,
    Blue,
}

/// Why an operation on the queue core was refused.  Every failure is scoped
/// to one operation and reported to its caller; none is fatal.
#[derive(Clone, Copy, Debug, PartialEq, Eq, Structural)]
pub enum QueueError {
    /// A dequeue named a scout that is not currently waiting.
    NotWaiting,
    /// A manual batch named a scout that already holds an override,
    /// or named the same scout twice.
    DuplicateAssignment,
    /// A direct message could not be routed because the name is unknown.
    UnknownScout,
    /// The downstream result write failed.
    PersistenceFailure,
}

/// One team that still needs a scout for a declared match.
/// Created when a match is declared; consumed exactly once.
#[derive(Debug, PartialEq, Eq)]
pub struct WorkItem {
    pub team_key: String,
    pub alliance: Alliance,
}

/// Mathematical model of a work item.
pub ghost struct ItemModel {
    pub team: Seq<char>,
    pub alliance: Alliance,
}

impl View for WorkItem {
    type V = ItemModel;

    open spec fn view(&self) -> ItemModel {
        ItemModel { team: self.team_key@, alliance: self.alliance }
    }
}

impl DeepView for WorkItem {
    type V = ItemModel;

    open spec fn deep_view(&self) -> ItemModel {
        self@
    }
}

impl Clone for WorkItem {
    fn clone(&self) -> (r: Self)
        ensures
            r@ == self@,
    {
        WorkItem { team_key: self.team_key.clone(), alliance: self.alliance }
    }
}

/// The work items that one declared match contributes to a pending sequence.
pub open spec fn items_of(teams: Seq<Seq<char>>, alliance: Alliance) -> Seq<ItemModel> {
    teams.map_values(|t: Seq<char>| ItemModel { team: t, alliance: alliance })
}

/// The override entries that a batch of `(team, scout)` pairs pins.
pub open spec fn pins_of(pairs: Seq<(Seq<char>, Seq<char>)>, alliance: Alliance) -> Seq<
    (Seq<char>, ItemModel),
> {
    pairs.map_values(|p: (Seq<char>, Seq<char>)| (p.1, ItemModel { team: p.0, alliance: alliance }))
}

/// Whether `name` holds a manual override in `ovs`.
pub open spec fn spec_has_override(ovs: Seq<(Seq<char>, ItemModel)>, name: Seq<char>) -> bool {
    exists|i: int| 0 <= i < ovs.len() && ovs[i].0 == name
}

/// The position of `name`'s override; meaningful only under
/// `spec_has_override` and the uniqueness invariant of the pool.
pub open spec fn override_index(ovs: Seq<(Seq<char>, ItemModel)>, name: Seq<char>) -> int {
    choose|i: int| 0 <= i < ovs.len() && ovs[i].0 == name
}

/// A batch of pins collides when it names a scout twice, or names a scout
/// that already holds an override.
pub open spec fn manual_conflict(
    ovs: Seq<(Seq<char>, ItemModel)>,
    pins: Seq<(Seq<char>, ItemModel)>,
) -> bool {
    (exists|i: int, j: int| 0 <= i < j < pins.len() && pins[i].0 == pins[j].0) || (exists|i: int|
        0 <= i < pins.len() && spec_has_override(ovs, pins[i].0))
}

/// No scout name is pinned twice.
pub open spec fn overrides_unique(ovs: Seq<(Seq<char>, ItemModel)>) -> bool {
    forall|i: int, j: int| #![trigger ovs[i], ovs[j]] 0 <= i < j < ovs.len() ==> ovs[i].0 != ovs[j].0
}

/// Mathematical model of the pool.
pub ghost struct PoolModel {
    pub pending_red: Seq<ItemModel>,
    pub pending_blue: Seq<ItemModel>,
    pub overrides: Seq<(Seq<char>, ItemModel)>,
    pub match_keys: Seq<Seq<char>>,
}

/// In-memory structure holding unassigned work items and scout pins.
/// Pop order from the pending sequences is last-in-first-out.
pub struct AssignmentPool {
    pending_red: Vec<WorkItem>,
    pending_blue: Vec<WorkItem>,
    manual_overrides: Vec<(String, WorkItem)>,
    current_match_keys: Vec<String>,
}

impl View for AssignmentPool {
    type V = PoolModel;

    closed spec fn view(&self) -> PoolModel {
        PoolModel {
            pending_red: self.pending_red.deep_view(),
            pending_blue: self.pending_blue.deep_view(),
            overrides: self.manual_overrides.deep_view(),
            match_keys: self.current_match_keys.deep_view(),
        }
    }
}

impl AssignmentPool {
    /// No scout name is pinned twice.
    pub open spec fn wf(&self) -> bool {
        overrides_unique(self@.overrides)
    }

    /// An empty pool: nothing pending, nothing pinned, no match declared.
    pub fn new() -> (p: AssignmentPool)
        ensures
            p@.pending_red.len() == 0,
            p@.pending_blue.len() == 0,
            p@.overrides.len() == 0,
            p@.match_keys.len() == 0,
            p.wf(),
    {
        AssignmentPool {
            pending_red: Vec::new(),
            pending_blue: Vec::new(),
            manual_overrides: Vec::new(),
            current_match_keys: Vec::new(),
        }
    }

    /// Appends the match key, and appends each named team as a work item to
    /// its alliance's pending sequence.  Does not itself look at the waiting
    /// group.
    pub fn enqueue_match(
        &mut self,
        match_key: String,
        red_teams: &Vec<String>,
        blue_teams: &Vec<String>,
    )
        requires
            old(self).wf(),
        ensures
            final(self).wf(),
            final(self)@.pending_red == old(self)@.pending_red + items_of(
                red_teams.deep_view(),
                Alliance::Red,
            ),
            final(self)@.pending_blue == old(self)@.pending_blue + items_of(
                blue_teams.deep_view(),
                Alliance::Blue,
            ),
            final(self)@.overrides == old(self)@.overrides,
            final(self)@.match_keys == old(self)@.match_keys.push(match_key@),
    {
        self.current_match_keys.push(match_key);
        push_teams(&mut self.pending_red, red_teams, Alliance::Red);
        push_teams(&mut self.pending_blue, blue_teams, Alliance::Blue);
        proof {
            assert(self@.match_keys =~= old(self)@.match_keys.push(
                self.current_match_keys@.last()@,
            ));
            assert(self@.overrides =~= old(self)@.overrides);
            assert(self.wf());
        }
    }
    /// Removes and returns the manual override for `scout_name` if present;
    /// else pops pending red, then pending blue (fixed precedence); returns
    /// `None` when all three are empty for this scout.
    pub fn take_for(&mut self, scout_name: &String) -> (r: Option<WorkItem>)
        requires
            old(self).wf(),
        ensures
            final(self).wf(),
            final(self)@.match_keys == old(self)@.match_keys,
            spec_has_override(old(self)@.overrides, scout_name@) ==> {
                let i = override_index(old(self)@.overrides, scout_name@);
                &&& r matches Some(w) && w@ == old(self)@.overrides[i].1
                &&& final(self)@.overrides == old(self)@.overrides.remove(i)
                &&& final(self)@.pending_red == old(self)@.pending_red
                &&& final(self)@.pending_blue == old(self)@.pending_blue
            },
            (!spec_has_override(old(self)@.overrides, scout_name@) && old(
                self,
            )@.pending_red.len() > 0) ==> {
                &&& r matches Some(w) && w@ == old(self)@.pending_red.last()
                &&& final(self)@.pending_red == old(self)@.pending_red.drop_last()
                &&& final(self)@.pending_blue == old(self)@.pending_blue
                &&& final(self)@.overrides == old(self)@.overrides
            },
            (!spec_has_override(old(self)@.overrides, scout_name@) && old(
                self,
            )@.pending_red.len() == 0 && old(self)@.pending_blue.len() > 0) ==> {
                &&& r matches Some(w) && w@ == old(self)@.pending_blue.last()
                &&& final(self)@.pending_blue == old(self)@.pending_blue.drop_last()
                &&& final(self)@.pending_red == old(self)@.pending_red
                &&& final(self)@.overrides == old(self)@.overrides
            },
            (!spec_has_override(old(self)@.overrides, scout_name@) && old(
                self,
            )@.pending_red.len() == 0 && old(self)@.pending_blue.len() == 0) ==> {
                &&& r is None
                &&& *final(self) == *old(self)
            },
    {
        let mut k: usize = 0;
        while k < self.manual_overrides.len()
            invariant
                k <= self.manual_overrides.len(),
                forall|j: int| 0 <= j < k ==> self@.overrides[j].0 != scout_name@,
                *self == *old(self),
                old(self).wf(),
            decreases self.manual_overrides.len() - k,
        {
            if self.manual_overrides[k].0 == *scout_name {
                proof {
                    assert(self@.overrides[k as int].0 == scout_name@);
                    assert(spec_has_override(self@.overrides, scout_name@));
                    let i = override_index(self@.overrides, scout_name@);
                    assert(0 <= i < self@.overrides.len() && self@.overrides[i].0 == scout_name@);
                    assert(i == k) by {
                        if i < k {
                            assert(self@.overrides[i].0 != self@.overrides[k as int].0);
                        }
                        if k < i {
                            assert(self@.overrides[k as int].0 != self@.overrides[i].0);
                        }
                    };
                }
                let pr = self.manual_overrides.remove(k);
                proof {
                    assert(self@.overrides =~= old(self)@.overrides.remove(k as int));
                    assert forall|a: int, b: int|
                        0 <= a < b < self@.overrides.len() implies self@.overrides[a].0
                        != self@.overrides[b].0 by {
                        let oa = if a < k { a } else { a + 1 };
                        let ob = if b < k { b } else { b + 1 };
                        assert(self@.overrides[a] == old(self)@.overrides[oa]);
                        assert(self@.overrides[b] == old(self)@.overrides[ob]);
                        assert(old(self)@.overrides[oa].0 != old(self)@.overrides[ob].0);
                    };
                }
                return Some(pr.1);
            }
            k += 1;
        }
        proof {
            assert(!spec_has_override(self@.overrides, scout_name@));
        }
        if self.pending_red.len() > 0 {
            let popped_red = self.pending_red.pop();
            proof {
                assert(self@.pending_red =~= old(self)@.pending_red.drop_last());
            }
            return popped_red;
        }
        if self.pending_blue.len() > 0 {
            let popped_blue = self.pending_blue.pop();
            proof {
                assert(self@.pending_blue =~= old(self)@.pending_blue.drop_last());
            }
            return popped_blue;
        }
        None
    }

    /// Pops the newest pending work item of one alliance, if any.
    pub(crate) fn pop_pending(&mut self, alliance: Alliance) -> (r: Option<WorkItem>)
        requires
            old(self).wf(),
        ensures
            final(self).wf(),
            final(self)@.overrides == old(self)@.overrides,
            final(self)@.match_keys == old(self)@.match_keys,
            alliance == Alliance::Red ==> final(self)@.pending_blue == old(self)@.pending_blue,
            alliance == Alliance::Blue ==> final(self)@.pending_red == old(self)@.pending_red,
            ({
                let stock = if alliance == Alliance::Red {
                    old(self)@.pending_red
                } else {
                    old(self)@.pending_blue
                };
                let left = if alliance == Alliance::Red {
                    final(self)@.pending_red
                } else {
                    final(self)@.pending_blue
                };
                if stock.len() > 0 {
                    (r matches Some(w) && w@ == stock.last()) && left == stock.drop_last()
                } else {
                    r is None && left == stock
                }
            }),
    {
        match alliance {
            Alliance::Red => {
                let r = self.pending_red.pop();
                proof {
                    if old(self)@.pending_red.len() > 0 {
                        assert(self@.pending_red =~= old(self)@.pending_red.drop_last());
                    } else {
                        assert(self@.pending_red =~= old(self)@.pending_red);
                    }
                    assert(self@.overrides =~= old(self)@.overrides);
                    assert(self.wf());
                }
                r
            },
            Alliance::Blue => {
                let r = self.pending_blue.pop();
                proof {
                    if old(self)@.pending_blue.len() > 0 {
                        assert(self@.pending_blue =~= old(self)@.pending_blue.drop_last());
                    } else {
                        assert(self@.pending_blue =~= old(self)@.pending_blue);
                    }
                    assert(self@.overrides =~= old(self)@.overrides);
                    assert(self.wf());
                }
                r
            },
        }
    }

    /// Pins a whole manual batch atomically: fails with `DuplicateAssignment`
    /// when the batch names a scout twice or names a scout that already holds
    /// an override, and then leaves the pool untouched; otherwise appends the
    /// match key and every pin.
    pub fn assign_manual(
        &mut self,
        match_key: String,
        red_pairs: &Vec<(String, String)>,
        blue_pairs: &Vec<(String, String)>,
    ) -> (r: Result<(), QueueError>)
        requires
            old(self).wf(),
        ensures
            final(self).wf(),
            ({
                let pins = pins_of(red_pairs.deep_view(), Alliance::Red) + pins_of(
                    blue_pairs.deep_view(),
                    Alliance::Blue,
                );
                &&& r is Err <==> manual_conflict(old(self)@.overrides, pins)
                &&& r matches Err(e) ==> e == QueueError::DuplicateAssignment && *final(self)
                    == *old(self)
                &&& r is Ok ==> {
                    &&& final(self)@.overrides == old(self)@.overrides + pins
                    &&& final(self)@.match_keys == old(self)@.match_keys.push(match_key@)
                    &&& final(self)@.pending_red == old(self)@.pending_red
                    &&& final(self)@.pending_blue == old(self)@.pending_blue
                }
            }),
    {
        let mut pins = build_pins(red_pairs, Alliance::Red);
        let mut blue_pins = build_pins(blue_pairs, Alliance::Blue);
        pins.append(&mut blue_pins);
        let ghost pinsg = pins_of(red_pairs.deep_view(), Alliance::Red) + pins_of(
            blue_pairs.deep_view(),
            Alliance::Blue,
        );
        proof {
            assert(pins.deep_view() =~= pinsg);
        }
        let mut k: usize = 0;
        while k < pins.len()
            invariant
                k <= pins.len(),
                pins.deep_view() == pinsg,
                pinsg == pins_of(red_pairs.deep_view(), Alliance::Red) + pins_of(
                    blue_pairs.deep_view(),
                    Alliance::Blue,
                ),
                *self == *old(self),
                old(self).wf(),
                forall|i: int, j: int|
                    #![trigger pinsg[i], pinsg[j]]
                    0 <= i < j < k ==> pinsg[i].0 != pinsg[j].0,
                forall|i: int| 0 <= i < k ==> !spec_has_override(self@.overrides, pinsg[i].0),
            decreases pins.len() - k,
        {
            let pinned = find_name(&self.manual_overrides, &pins[k].0, self.manual_overrides.len());
            if pinned.is_some() {
                proof {
                    assert(self@.overrides == old(self)@.overrides);
                    assert(spec_has_override(old(self)@.overrides, pinsg[k as int].0));
                    assert(manual_conflict(old(self)@.overrides, pinsg));
                }
                return Err(QueueError::DuplicateAssignment);
            }
            let in_batch = find_name(&pins, &pins[k].0, k);
            if in_batch.is_some() {
                proof {
                    let i = choose|i: int| 0 <= i < k && pins.deep_view()[i].0 == pinsg[k as int].0;
                    assert(0 <= i < k && pinsg[i].0 == pinsg[k as int].0);
                    assert(manual_conflict(old(self)@.overrides, pinsg));
                }
                return Err(QueueError::DuplicateAssignment);
            }
            k += 1;
        }
        proof {
            assert(!manual_conflict(self@.overrides, pinsg));
        }
        self.current_match_keys.push(match_key);
        self.manual_overrides.append(&mut pins);
        proof {
            assert(self@.overrides =~= old(self)@.overrides + pinsg);
            assert(self@.match_keys =~= old(self)@.match_keys.push(
                self.current_match_keys@.last()@,
            ));
            let n = old(self)@.overrides.len() as int;
            assert forall|a: int, b: int|
                0 <= a < b < self@.overrides.len() implies self@.overrides[a].0
                != self@.overrides[b].0 by {
                if b < n {
                    assert(old(self)@.overrides[a].0 != old(self)@.overrides[b].0);
                } else if a < n {
                    assert(self@.overrides[b] == pinsg[b - n]);
                    assert(!spec_has_override(old(self)@.overrides, pinsg[b - n].0));
                    assert(old(self)@.overrides[a].0 != pinsg[b - n].0);
                } else {
                    assert(pinsg[a - n].0 != pinsg[b - n].0);
                }
            };
        }
        Ok(())
    }

    /// Pushes unconsumed work items back onto their alliance's pending
    /// sequence, in order: no work item is ever silently dropped.
    pub fn return_if_unmatched(&mut self, alliance: Alliance, items: Vec<WorkItem>)
        requires
            old(self).wf(),
        ensures
            final(self).wf(),
            final(self)@.overrides == old(self)@.overrides,
            final(self)@.match_keys == old(self)@.match_keys,
            alliance == Alliance::Red ==> final(self)@.pending_red == old(self)@.pending_red
                + items.deep_view() && final(self)@.pending_blue == old(self)@.pending_blue,
            alliance == Alliance::Blue ==> final(self)@.pending_blue == old(self)@.pending_blue
                + items.deep_view() && final(self)@.pending_red == old(self)@.pending_red,
    {
        let mut items = items;
        let ghost given = items.deep_view();
        match alliance {
            Alliance::Red => {
                self.pending_red.append(&mut items);
                proof {
                    assert(self@.pending_red =~= old(self)@.pending_red + given);
                    assert(self@.overrides =~= old(self)@.overrides);
                    assert(self.wf());
                }
            },
            Alliance::Blue => {
                self.pending_blue.append(&mut items);
                proof {
                    assert(self@.pending_blue =~= old(self)@.pending_blue + given);
                    assert(self@.overrides =~= old(self)@.overrides);
                    assert(self.wf());
                }
            },
        }
    }

    /// Whether any work item is pending on either alliance.
    pub fn has_pending(&self) -> (b: bool)
        ensures
            b == (self@.pending_red.len() > 0 || self@.pending_blue.len() > 0),
    {
        !self.pending_red.is_empty() || !self.pending_blue.is_empty()
    }

    /// The most recently declared match key, if any match was declared.
    pub fn current_match(&self) -> (r: Option<&String>)
        ensures
            self@.match_keys.len() == 0 ==> r is None,
            self@.match_keys.len() > 0 ==> (r matches Some(k) && k@ == self@.match_keys.last()),
    {
        if self.current_match_keys.len() == 0 {
            None
        } else {
            Some(&self.current_match_keys[self.current_match_keys.len() - 1])
        }
    }

    /// Whether `scout_name` currently holds a manual override.
    pub fn has_override_for(&self, scout_name: &String) -> (b: bool)
        ensures
            b == spec_has_override(self@.overrides, scout_name@),
    {
        let r = find_name(&self.manual_overrides, scout_name, self.manual_overrides.len());
        r.is_some()
    }

    /// How many work items are pending for one alliance.
    pub fn pending_len(&self, alliance: Alliance) -> (n: usize)
        ensures
            alliance == Alliance::Red ==> n == self@.pending_red.len(),
            alliance == Alliance::Blue ==> n == self@.pending_blue.len(),
    {
        match alliance {
            Alliance::Red => self.pending_red.len(),
            Alliance::Blue => self.pending_blue.len(),
        }
    }

    /// How many match keys were declared so far.
    pub fn match_count(&self) -> (n: usize)
        ensures
            n == self@.match_keys.len(),
    {
        self.current_match_keys.len()
    }
}

/// Finds the first position below `upto` whose pinned scout name is `name`.
fn find_name(v: &Vec<(String, WorkItem)>, name: &String, upto: usize) -> (r: Option<usize>)
    requires
        upto <= v.len(),
    ensures
        r matches Some(i) ==> 0 <= i < upto && v.deep_view()[i as int].0 == name@,
        r is None ==> forall|i: int| 0 <= i < upto ==> v.deep_view()[i].0 != name@,
{
    let mut k: usize = 0;
    while k < upto
        invariant
            k <= upto <= v.len(),
            forall|i: int| 0 <= i < k ==> v.deep_view()[i].0 != name@,
        decreases upto - k,
    {
        if v[k].0 == *name {
            return Some(k);
        }
        k += 1;
    }
    None
}

/// Builds one override entry per `(team, scout)` pair, all on one alliance.
fn build_pins(pairs: &Vec<(String, String)>, alliance: Alliance) -> (r: Vec<(String, WorkItem)>)
    ensures
        r.deep_view() == pins_of(pairs.deep_view(), alliance),
{
    let mut out: Vec<(String, WorkItem)> = Vec::new();
    let mut i: usize = 0;
    while i < pairs.len()
        invariant
            i <= pairs.len(),
            out.deep_view() =~= pins_of(pairs.deep_view().take(i as int), alliance),
        decreases pairs.len() - i,
    {
        let team = pairs[i].0.clone();
        let scout = pairs[i].1.clone();
        let ghost prev = out.deep_view();
        let ghost entry = (
            pairs.deep_view()[i as int].1,
            ItemModel { team: pairs.deep_view()[i as int].0, alliance: alliance },
        );
        out.push((scout, WorkItem { team_key: team, alliance: alliance }));
        proof {
            let s_old = pairs.deep_view().take(i as int);
            let s_new = pairs.deep_view().take(i + 1);
            assert(out.deep_view() =~= prev.push(entry));
            assert(s_new =~= s_old.push(pairs.deep_view()[i as int]));
            assert(pins_of(s_new, alliance) =~= pins_of(s_old, alliance).push(entry));
        }
        i += 1;
    }
    proof {
        assert(pairs.deep_view().take(pairs@.len() as int) =~= pairs.deep_view());
    }
    out
}

/// Appends one work item per team, all on the given alliance.
fn push_teams(dst: &mut Vec<WorkItem>, teams: &Vec<String>, alliance: Alliance)
    ensures
        final(dst).deep_view() == old(dst).deep_view() + items_of(teams.deep_view(), alliance),
{
    let ghost dst0 = old(dst).deep_view();
    let mut i: usize = 0;
    while i < teams.len()
        invariant
            i <= teams.len(),
            dst.deep_view() =~= dst0 + items_of(teams.deep_view().take(i as int), alliance),
        decreases teams.len() - i,
    {
        let t = teams[i].clone();
        let ghost prev = dst.deep_view();
        let ghost item = (ItemModel { team: teams.deep_view()[i as int], alliance: alliance });
        dst.push(WorkItem { team_key: t, alliance: alliance });
        proof {
            let s_old = teams.deep_view().take(i as int);
            let s_new = teams.deep_view().take(i + 1);
            assert(dst.deep_view() =~= prev.push(item));
            assert(s_new =~= s_old.push(teams.deep_view()[i as int]));
            assert(items_of(s_new, alliance) =~= items_of(s_old, alliance).push(item));
            assert(dst.deep_view() =~= dst0 + items_of(s_new, alliance));
        }
        i += 1;
    }
    proof {
        assert(teams.deep_view().take(teams@.len() as int) =~= teams.deep_view());
    }
}

} // verus!
