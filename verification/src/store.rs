//! The record store: an in-memory table of tasks with unique ids, together
//! with the operations that keep task statuses consistent with their
//! dependencies.

use vstd::prelude::*;
use crate::derivation::cascade_post;
use crate::derivation::cascade_updates;
use crate::derivation::dep_satisfied;
use crate::derivation::dependents_prefix;
use crate::derivation::derived_status;
use crate::derivation::flips;
use crate::derivation::has_task;
use crate::derivation::idx_of;
use crate::derivation::lemma_cascade_noop;
use crate::derivation::lemma_cascade_stable;
use crate::derivation::lemma_derived_range;
use crate::derivation::lemma_idx_of;
use crate::derivation::lemma_push_stable;
use crate::derivation::lemma_remove_stable;
use crate::derivation::lemma_same_completed_derived;
use crate::derivation::resolved_prefix;
use crate::derivation::set_status;
use crate::derivation::stable;
use crate::derivation::unique_ids;
use crate::fresh::fresh_id;
use crate::fresh::now_timestamp;
use crate::models::apply_update;
use crate::models::event_matches_filter;
use crate::models::filtered_prefix;
use crate::models::tag_keys_unique;
use crate::models::CreateEventRequest;
use crate::models::EventFilter;
use crate::models::EventStatus;
use crate::models::StoreError;
use crate::models::TaskView;
use crate::models::TodoEvent;
use crate::models::UpdateEventRequest;
use crate::strutil::str_eq;
use vstd::pervasive::VecAdditionalExecFns;

verus! {

/// Whether `deps` contains the id `id`.
fn contains_id(deps: &Vec<String>, id: &str) -> (r: bool)
    ensures
        r == deps.deep_view().contains(id@),
{
    let mut i: usize = 0;
    while i < deps.len()
        invariant
            i <= deps.len(),
            forall|j: int| 0 <= j < i ==> deps.deep_view()[j] != id@,
        decreases deps.len() - i,
    {
        if str_eq(deps[i].as_str(), id) {
            assert(deps.deep_view()[i as int] == id@);
            return true;
        }
        i += 1;
    }
    assert(!deps.deep_view().contains(id@));
    false
}

/// The store: a flat table of tasks.
pub struct EventStore {
    events: Vec<TodoEvent>,
}

impl View for EventStore {
    type V = Seq<TaskView>;

    closed spec fn view(&self) -> Seq<TaskView> {
        self.events.deep_view()
    }
}

impl EventStore {
    /// Well-formedness: ids are unique, and every task's tag keys are
    /// unique. Every operation preserves this.
    pub open spec fn wf(&self) -> bool {
        &&& unique_ids(self@)
        &&& forall|i: int| 0 <= i < self@.len() ==> tag_keys_unique((#[trigger] self@[i]).tags)
    }

    /// Whether the store is stable: no task sits `Blocked` although its
    /// derived status is `Pending`.
    pub open spec fn stable(&self) -> bool {
        stable(self@)
    }

    /// An empty store.
    pub fn new() -> (r: EventStore)
        ensures
            r.wf(),
            r@ == Seq::<TaskView>::empty(),
    {
        let r = EventStore { events: Vec::new() };
        proof {
            assert(r@ =~= Seq::<TaskView>::empty());
        }
        r
    }

    /// The position of the task carrying `id`, if any.
    fn find_index(&self, id: &str) -> (r: Option<usize>)
        ensures
            match r {
                Some(j) => j < self@.len() && self@[j as int].id == id@,
                None => !has_task(self@, id@),
            },
    {
        let mut i: usize = 0;
        while i < self.events.len()
            invariant
                i <= self.events.len(),
                forall|j: int| 0 <= j < i ==> (#[trigger] self@[j]).id != id@,
            decreases self.events.len() - i,
        {
            if str_eq(self.events[i].id.as_str(), id) {
                return Some(i);
            }
            i += 1;
        }
        None
    }

    /// Read one task by id.
    pub fn get_event(&self, id: &str) -> (r: Option<TodoEvent>)
        requires
            self.wf(),
        ensures
            match r {
                Some(ev) => has_task(self@, id@) && ev@ == self@[idx_of(self@, id@)],
                None => !has_task(self@, id@),
            },
    {
        match self.find_index(id) {
            Some(j) => {
                proof {
                    assert(has_task(self@, id@));
                    lemma_idx_of(self@, id@);
                }
                Some(self.events[j].duplicate())
            },
            None => None,
        }
    }

    /// Read every task, in store order.
    pub fn get_all_events(&self) -> (r: Vec<TodoEvent>)
        ensures
            r.deep_view() == self@,
    {
        let mut r: Vec<TodoEvent> = Vec::new();
        let mut i: usize = 0;
        while i < self.events.len()
            invariant
                i <= self.events.len(),
                r.len() == i,
                forall|k: int| 0 <= k < i ==> r.deep_view()[k] == self@[k],
            decreases self.events.len() - i,
        {
            r.push(self.events[i].duplicate());
            i += 1;
        }
        proof {
            assert(r.deep_view() =~= self@);
        }
        r
    }

    /// The status `event` ought to have, given the current store: `Pending`
    /// when every dependency id resolves to a `Completed` task (in
    /// particular when there are none), `Blocked` otherwise. Read-only; the
    /// task itself need not be in the store.
    pub fn calculate_event_status(&self, event: &TodoEvent) -> (r: EventStatus)
        requires
            self.wf(),
        ensures
            r == derived_status(self@, event@.dependencies),
    {
        let deps_len = event.dependencies.len();
        let mut d: usize = 0;
        while d < deps_len
            invariant
                self.wf(),
                deps_len == event.dependencies.len(),
                d <= deps_len,
                forall|q: int|
                    0 <= q < d ==> dep_satisfied(self@, #[trigger] event@.dependencies[q]),
            decreases deps_len - d,
        {
            let ghost dv = event@.dependencies[d as int];
            proof {
                assert(dv == event.dependencies@[d as int]@);
            }
            match self.find_index(event.dependencies[d].as_str()) {
                None => {
                    proof {
                        assert(!dep_satisfied(self@, dv)) by {
                            if dep_satisfied(self@, dv) {
                                let w = choose|w: int|
                                    0 <= w < self@.len() && (#[trigger] self@[w]).id == dv
                                        && self@[w].status == EventStatus::Completed;
                                assert(has_task(self@, dv));
                            }
                        }
                    }
                    return EventStatus::Blocked;
                },
                Some(j) => {
                    if self.events[j].status != EventStatus::Completed {
                        proof {
                            assert(!dep_satisfied(self@, dv)) by {
                                if dep_satisfied(self@, dv) {
                                    let w = choose|w: int|
                                        0 <= w < self@.len() && (#[trigger] self@[w]).id == dv
                                            && self@[w].status == EventStatus::Completed;
                                    assert(w == j);
                                }
                            }
                        }
                        return EventStatus::Blocked;
                    }
                },
            }
            d += 1;
        }
        EventStatus::Pending
    }

    /// Insert a task record as it stands — status and timestamps included —
    /// such as one read back from durable storage. Fails exactly when the
    /// task's id is already taken.
    pub fn insert_event(&mut self, event: TodoEvent) -> (r: Result<(), StoreError>)
        requires
            old(self).wf(),
            tag_keys_unique(event@.tags),
        ensures
            final(self).wf(),
            match r {
                Ok(()) => !has_task(old(self)@, event@.id) && final(self)@ == old(self)@.push(
                    event@,
                ),
                Err(e) => e == StoreError::DuplicateId && has_task(old(self)@, event@.id)
                    && final(self)@ == old(self)@,
            },
    {
        if let Some(_) = self.find_index(event.id.as_str()) {
            proof {
                assert(has_task(self@, event@.id));
            }
            return Err(StoreError::DuplicateId);
        }
        let ghost cur = self@;
        let ghost ev = event@;
        self.events.push(event);
        proof {
            assert forall|j: int| 0 <= j < self@.len() implies #[trigger] self@[j] == (if j
                < cur.len() {
                cur[j]
            } else {
                ev
            }) by {
                assert(self@[j] == self.events@[j]@);
            }
            assert(self@ =~= cur.push(ev));
            assert forall|a: int, b: int| 0 <= a < b < self@.len() implies (
            #[trigger] self@[a]).id != (#[trigger] self@[b]).id by {
                if b == cur.len() {
                    assert(self@[b].id == ev.id);
                }
            }
        }
        Ok(())
    }

    /// Insert a new task built from `request` under the given fresh id and
    /// creation time. The initial status is derived from the request's
    /// dependencies against the current store; callers cannot set it. Fails
    /// exactly when the id is already taken.
    pub fn create_event_with(&mut self, request: CreateEventRequest, id: String, now: i64) -> (r:
        Result<TodoEvent, StoreError>)
        requires
            old(self).wf(),
            tag_keys_unique(request@.tags),
        ensures
            final(self).wf(),
            match r {
                Ok(ev) => {
                    &&& !has_task(old(self)@, id@)
                    &&& ev@.id == id@
                    &&& ev@.name == request@.name
                    &&& ev@.description == request@.description
                    &&& ev@.tags == request@.tags
                    &&& ev@.dependencies == request@.dependencies
                    &&& ev@.status == derived_status(old(self)@, request@.dependencies)
                    &&& ev@.created_at == now
                    &&& ev@.updated_at == now
                    &&& final(self)@ == old(self)@.push(ev@)
                },
                Err(e) => e == StoreError::DuplicateId && has_task(old(self)@, id@)
                    && final(self)@ == old(self)@,
            },
            // Creation never completes a task, so it cannot unblock one: a
            // stable store stays stable.
            old(self).stable() ==> final(self).stable(),
    {
        if let Some(_) = self.find_index(id.as_str()) {
            proof {
                assert(has_task(self@, id@));
            }
            return Err(StoreError::DuplicateId);
        }
        let mut event = TodoEvent::from_parts(
            id,
            request.name,
            request.description,
            request.tags,
            request.dependencies,
            now,
        );
        let st = self.calculate_event_status(&event);
        event.status = st;
        let result = event.duplicate();
        let ghost cur = self@;
        self.events.push(event);
        proof {
            assert forall|j: int| 0 <= j < self@.len() implies #[trigger] self@[j] == (if j
                < cur.len() {
                cur[j]
            } else {
                result@
            }) by {
                assert(self@[j] == self.events@[j]@);
            }
            assert(self@ =~= cur.push(result@));
            assert forall|a: int, b: int| 0 <= a < b < self@.len() implies (
            #[trigger] self@[a]).id != (#[trigger] self@[b]).id by {
                if b == cur.len() {
                    assert(self@[b].id == id@);
                }
            }
            if stable(cur) {
                lemma_derived_range(cur, result@.dependencies);
                lemma_push_stable(cur, result@);
            }
        }
        Ok(result)
    }

    /// Create a task from `request`: a freshly generated id, both timestamps
    /// set to the current time, and a status derived from the request's
    /// dependencies — callers cannot set the initial status. Fails only when
    /// the generated id collides with an existing task.
    pub fn create_event(&mut self, request: CreateEventRequest) -> (r: Result<
        TodoEvent,
        StoreError,
    >)
        requires
            old(self).wf(),
            tag_keys_unique(request@.tags),
        ensures
            final(self).wf(),
            match r {
                Ok(ev) => {
                    &&& ev@.name == request@.name
                    &&& ev@.description == request@.description
                    &&& ev@.tags == request@.tags
                    &&& ev@.dependencies == request@.dependencies
                    &&& ev@.status == derived_status(old(self)@, request@.dependencies)
                    &&& ev@.created_at == ev@.updated_at
                    &&& !has_task(old(self)@, ev@.id)
                    &&& final(self)@ == old(self)@.push(ev@)
                },
                // Failure means the drawn id collided with an existing task,
                // so on an empty store creation always succeeds.
                Err(e) => e == StoreError::DuplicateId && old(self)@.len() > 0 && final(self)@
                    == old(self)@,
            },
            old(self).stable() ==> final(self).stable(),
    {
        let id = fresh_id();
        let now = now_timestamp();
        self.create_event_with(request, id, now)
    }

    /// Apply a partial update to the task carrying `request.id`: fields
    /// present in the request replace the old values and `updated_at` is
    /// refreshed. When the update carries a status different from the task's
    /// current one, the change then cascades to `Blocked` dependents.
    /// Returns the task as the field update persisted it (before any
    /// cascade), or `None` when the id is absent.
    pub fn update_event(&mut self, request: UpdateEventRequest, now: i64) -> (r: Option<TodoEvent>)
        requires
            old(self).wf(),
            request@.tags is Some ==> tag_keys_unique(request@.tags->0),
        ensures
            final(self).wf(),
            match r {
                None => !has_task(old(self)@, request@.id) && final(self)@ == old(self)@,
                Some(ev) => has_task(old(self)@, request@.id) && ({
                    let k = idx_of(old(self)@, request@.id);
                    let mid = old(self)@.update(k, apply_update(old(self)@[k], request@, now));
                    &&& ev@ == mid[k]
                    &&& (mid[k].status == old(self)@[k].status ==> final(self)@ == mid)
                    &&& (mid[k].status != old(self)@[k].status ==> final(self)@ == cascade_post(
                        mid,
                        k,
                        now,
                    ))
                }),
            },
    {
        let kopt = self.find_index(request.id.as_str());
        let k = match kopt {
            None => {
                return None;
            },
            Some(k) => k,
        };
        proof {
            assert(has_task(self@, request@.id));
            lemma_idx_of(old(self)@, request@.id);
        }
        let mut ev = self.events[k].duplicate();
        let old_status = ev.status;
        let id_copy = ev.id.clone();
        ev.update(request, now);
        let new_status = ev.status;
        let result = ev.duplicate();
        let ghost pre = old(self)@;
        let ghost mid = pre.update(k as int, apply_update(pre[k as int], request@, now));
        self.events.set(k, ev);
        proof {
            assert forall|j: int| 0 <= j < self@.len() implies #[trigger] self@[j] == mid[j] by {
                assert(self@[j] == self.events@[j]@);
            }
            assert(self@ =~= mid);
            assert forall|a: int, b: int| 0 <= a < b < self@.len() implies (
            #[trigger] self@[a]).id != (#[trigger] self@[b]).id by {
                assert(self@[a].id == pre[a].id);
                assert(self@[b].id == pre[b].id);
            }
            assert forall|j: int| 0 <= j < self@.len() implies tag_keys_unique(
                (#[trigger] self@[j]).tags,
            ) by {
                if j != k {
                    assert(self@[j].tags == pre[j].tags);
                }
            }
        }
        if new_status != old_status {
            proof {
                assert(has_task(mid, request@.id)) by {
                    assert(mid[k as int].id == request@.id);
                }
                lemma_idx_of(mid, request@.id);
                assert(idx_of(mid, request@.id) == k);
                assert(set_status(mid[k as int], new_status, now) =~= mid[k as int]);
                assert(mid.update(k as int, set_status(mid[k as int], new_status, now)) =~= mid);
            }
            let _cascaded = self.update_event_status_cascade(id_copy.as_str(), new_status, now);
        }
        Some(result)
    }

    /// Return the tasks passing `filter`, in store order.
    pub fn filter_events(&self, filter: EventFilter) -> (r: Vec<TodoEvent>)
        ensures
            r.deep_view() == filtered_prefix(self@, filter@, self@.len() as int),
    {
        let mut r: Vec<TodoEvent> = Vec::new();
        let mut i: usize = 0;
        while i < self.events.len()
            invariant
                i <= self.events.len(),
                r.deep_view() == filtered_prefix(self@, filter@, i as int),
            decreases self.events.len() - i,
        {
            if event_matches_filter(&self.events[i], &filter) {
                let ghost before = r.deep_view();
                r.push(self.events[i].duplicate());
                proof {
                    assert forall|j: int|
                        0 <= j < r.deep_view().len() implies #[trigger] r.deep_view()[j] == (if j
                        < before.len() {
                        before[j]
                    } else {
                        self@[i as int]
                    }) by {
                        assert(r.deep_view()[j] == r@[j]@);
                    }
                    assert(r.deep_view() =~= filtered_prefix(self@, filter@, i + 1));
                }
            }
            i += 1;
        }
        r
    }

    /// Resolve each dependency id of the task carrying `id` to its task, in
    /// dependency-list order, skipping dangling ids. Errs exactly when `id`
    /// itself is absent.
    pub fn get_event_dependencies(&self, id: &str) -> (r: Result<Vec<TodoEvent>, StoreError>)
        requires
            self.wf(),
        ensures
            match r {
                Ok(v) => has_task(self@, id@) && v.deep_view() == resolved_prefix(
                    self@,
                    self@[idx_of(self@, id@)].dependencies,
                    self@[idx_of(self@, id@)].dependencies.len() as int,
                ),
                Err(e) => e == StoreError::NotFound && !has_task(self@, id@),
            },
    {
        let kopt = self.find_index(id);
        let k = match kopt {
            None => {
                return Err(StoreError::NotFound);
            },
            Some(k) => k,
        };
        proof {
            assert(has_task(self@, id@));
            lemma_idx_of(self@, id@);
        }
        let ghost deps = self@[k as int].dependencies;
        let mut v: Vec<TodoEvent> = Vec::new();
        let mut d: usize = 0;
        let deps_len = self.events[k].dependencies.len();
        while d < deps_len
            invariant
                self.wf(),
                k < self@.len(),
                deps == self@[k as int].dependencies,
                deps_len == deps.len(),
                deps_len == self.events@[k as int].dependencies.len(),
                self@[k as int] == self.events@[k as int]@,
                d <= deps_len,
                v.deep_view() == resolved_prefix(self@, deps, d as int),
            decreases deps_len - d,
        {
            let ghost dv = deps[d as int];
            proof {
                assert(dv == self.events@[k as int].dependencies@[d as int]@);
            }
            match self.find_index(self.events[k].dependencies[d].as_str()) {
                Some(j) => {
                    proof {
                        assert(has_task(self@, dv));
                        lemma_idx_of(self@, dv);
                    }
                    let ghost before = v.deep_view();
                    v.push(self.events[j].duplicate());
                    proof {
                        assert forall|q: int|
                            0 <= q < v.deep_view().len() implies #[trigger] v.deep_view()[q] == (
                        if q < before.len() {
                            before[q]
                        } else {
                            self@[j as int]
                        }) by {
                            assert(v.deep_view()[q] == v@[q]@);
                        }
                        assert(v.deep_view() =~= resolved_prefix(self@, deps, d + 1));
                    }
                },
                None => {
                    proof {
                        assert(v.deep_view() =~= resolved_prefix(self@, deps, d + 1));
                    }
                },
            }
            d += 1;
        }
        Ok(v)
    }

    /// Every task whose dependency list contains `id`, in store order.
    pub fn get_event_dependents(&self, id: &str) -> (r: Vec<TodoEvent>)
        ensures
            r.deep_view() == dependents_prefix(self@, id@, self@.len() as int),
    {
        let mut r: Vec<TodoEvent> = Vec::new();
        let mut i: usize = 0;
        while i < self.events.len()
            invariant
                i <= self.events.len(),
                r.deep_view() == dependents_prefix(self@, id@, i as int),
            decreases self.events.len() - i,
        {
            if contains_id(&self.events[i].dependencies, id) {
                let ghost before = r.deep_view();
                r.push(self.events[i].duplicate());
                proof {
                    assert forall|j: int|
                        0 <= j < r.deep_view().len() implies #[trigger] r.deep_view()[j] == (if j
                        < before.len() {
                        before[j]
                    } else {
                        self@[i as int]
                    }) by {
                        assert(r.deep_view()[j] == r@[j]@);
                    }
                    assert(r.deep_view() =~= dependents_prefix(self@, id@, i + 1));
                }
            } else {
                proof {
                    assert(r.deep_view() =~= dependents_prefix(self@, id@, i + 1));
                }
            }
            i += 1;
        }
        r
    }

    /// Apply an explicit status change to the task carrying `event_id`,
    /// refresh its `updated_at`, persist it, then re-derive every
    /// currently-`Blocked` direct dependent and flip it to `Pending` where
    /// its dependencies are now all satisfied. Returns the changed tasks:
    /// the target first, then the flipped dependents in store order. A
    /// missing id is a no-op with an empty result.
    ///
    /// The transition itself is not validated: any status may be forced.
    pub fn update_event_status_cascade(
        &mut self,
        event_id: &str,
        new_status: EventStatus,
        now: i64,
    ) -> (updated: Vec<TodoEvent>)
        requires
            old(self).wf(),
        ensures
            final(self).wf(),
            !has_task(old(self)@, event_id@) ==> final(self)@ == old(self)@ && updated@.len()
                == 0,
            has_task(old(self)@, event_id@) ==> ({
                let k = idx_of(old(self)@, event_id@);
                let mid = old(self)@.update(k, set_status(old(self)@[k], new_status, now));
                &&& final(self)@ == cascade_post(mid, k, now)
                &&& updated.deep_view() == seq![mid[k]] + cascade_updates(
                    mid,
                    k,
                    now,
                    mid.len() as int,
                )
            }),
            // Idempotence: re-asserting a task's current status on a stable
            // store changes no other task's record and reports no dependent.
            old(self).stable() && has_task(old(self)@, event_id@) && new_status == old(
                self,
            )@[idx_of(old(self)@, event_id@)].status ==> (forall|i: int|
                0 <= i < old(self)@.len() && i != idx_of(old(self)@, event_id@)
                    ==> final(self)@[i] == old(self)@[i]) && updated.deep_view().len() == 1,
            // Convergence: a cascade that does not force `Blocked` leaves a
            // stable store stable — the fixed point of repeated invocation.
            old(self).stable() && new_status != EventStatus::Blocked ==> final(self).stable(),
            // Convergence, generally: the cascade re-derives exactly the
            // `Blocked` direct dependents of the target, so those need no
            // stability up front — it suffices that every other `Blocked`
            // task already derives `Blocked`.
            has_task(old(self)@, event_id@) && new_status != EventStatus::Blocked && (forall|
                i: int,
            |
                0 <= i < old(self)@.len() && i != idx_of(old(self)@, event_id@) && (
                #[trigger] old(self)@[i]).status == EventStatus::Blocked
                    && !old(self)@[i].dependencies.contains(
                    old(self)@[idx_of(old(self)@, event_id@)].id,
                ) ==> derived_status(old(self)@, old(self)@[i].dependencies)
                    == EventStatus::Blocked) ==> final(self).stable(),
    {
        let mut updated: Vec<TodoEvent> = Vec::new();
        let kopt = self.find_index(event_id);
        let k = match kopt {
            None => {
                return updated;
            },
            Some(k) => k,
        };
        proof {
            assert(has_task(self@, event_id@));
            lemma_idx_of(old(self)@, event_id@);
        }
        let mut target = self.events[k].duplicate();
        target.status = new_status;
        target.updated_at = now;
        updated.push(target.duplicate());
        self.events.set(k, target);
        let ghost pre = old(self)@;
        let ghost mid = pre.update(k as int, set_status(pre[k as int], new_status, now));
        proof {
            assert(self@ =~= mid);
            assert(unique_ids(mid));
            assert(updated.deep_view() =~= seq![mid[k as int]] + cascade_updates(
                mid,
                k as int,
                now,
                0,
            ));
        }
        let n = self.events.len();
        let mut i: usize = 0;
        while i < n
            invariant
                n == self.events.len(),
                pre.len() == n,
                mid.len() == n,
                k < n,
                i <= n,
                mid == pre.update(k as int, set_status(pre[k as int], new_status, now)),
                mid[k as int].id == event_id@,
                unique_ids(mid),
                forall|j: int| 0 <= j < n ==> tag_keys_unique((#[trigger] mid[j]).tags),
                forall|j: int|
                    0 <= j < n ==> #[trigger] self@[j] == (if j < i && flips(mid, k as int, j) {
                        set_status(mid[j], EventStatus::Pending, now)
                    } else {
                        mid[j]
                    }),
                updated.deep_view() == seq![mid[k as int]] + cascade_updates(
                    mid,
                    k as int,
                    now,
                    i as int,
                ),
            decreases n - i,
        {
            proof {
                assert(self@[i as int] == mid[i as int]);
                assert forall|a: int, b: int| 0 <= a < b < n implies (#[trigger] self@[a]).id != (
                #[trigger] self@[b]).id by {
                    assert(self@[a].id == mid[a].id);
                    assert(self@[b].id == mid[b].id);
                }
                assert forall|j: int| 0 <= j < n implies tag_keys_unique(
                    (#[trigger] self@[j]).tags,
                ) by {
                    assert(self@[j].tags == mid[j].tags);
                }
                assert(self.wf());
            }
            let mut flipped = false;
            if i != k {
                let is_blocked = self.events[i].status == EventStatus::Blocked;
                let depends = contains_id(&self.events[i].dependencies, event_id);
                proof {
                    assert(self.events@[i as int]@ == mid[i as int]);
                    assert(is_blocked == (mid[i as int].status == EventStatus::Blocked));
                    assert(depends == mid[i as int].dependencies.contains(mid[k as int].id));
                }
                if is_blocked && depends {
                    let st = self.calculate_event_status(&self.events[i]);
                    proof {
                        assert forall|j: int| 0 <= j < n implies ((#[trigger] self@[j]).status
                            == EventStatus::Completed <==> mid[j].status
                            == EventStatus::Completed) by {
                            if j < i && flips(mid, k as int, j) {
                                assert(self@[j] == set_status(mid[j], EventStatus::Pending, now));
                            }
                        }
                        lemma_same_completed_derived(self@, mid, mid[i as int].dependencies);
                        lemma_derived_range(mid, mid[i as int].dependencies);
                        assert(st == derived_status(mid, mid[i as int].dependencies));
                    }
                    if st != EventStatus::Blocked {
                        proof {
                            assert(st == EventStatus::Pending);
                            assert(flips(mid, k as int, i as int));
                        }
                        let mut dep = self.events[i].duplicate();
                        dep.status = st;
                        dep.updated_at = now;
                        let ghost depv = dep@;
                        let ghost before_updates = updated.deep_view();
                        let ghost cur = self@;
                        updated.push(dep.duplicate());
                        self.events.set(i, dep);
                        flipped = true;
                        proof {
                            assert(depv =~= set_status(mid[i as int], EventStatus::Pending, now));
                            assert forall|j: int| 0 <= j < n implies #[trigger] self@[j] == (if j
                                == i {
                                depv
                            } else {
                                cur[j]
                            }) by {
                                assert(self@[j] == self.events@[j]@);
                            }
                            assert forall|j: int|
                                0 <= j < before_updates.len() implies #[trigger] updated.deep_view()[j]
                                == before_updates[j] by {
                                assert(updated.deep_view()[j] == updated@[j]@);
                            }
                            assert(updated.deep_view().len() == before_updates.len() + 1);
                            assert(updated.deep_view()[before_updates.len() as int] == depv);
                            assert(updated.deep_view() =~= before_updates.push(
                                set_status(mid[i as int], EventStatus::Pending, now),
                            ));
                            assert(updated.deep_view() =~= seq![mid[k as int]] + cascade_updates(
                                mid,
                                k as int,
                                now,
                                i + 1,
                            ));
                            assert forall|j: int| 0 <= j < n implies #[trigger] self@[j] == (if j
                                < i + 1 && flips(mid, k as int, j) {
                                set_status(mid[j], EventStatus::Pending, now)
                            } else {
                                mid[j]
                            }) by {}
                        }
                    }
                }
            }
            proof {
                if !flipped {
                    assert(!flips(mid, k as int, i as int));
                    assert(cascade_updates(mid, k as int, now, i + 1) == cascade_updates(
                        mid,
                        k as int,
                        now,
                        i as int,
                    ));
                }
            }
            i += 1;
        }
        proof {
            assert(self@ =~= cascade_post(mid, k as int, now));
            if stable(pre) && new_status == pre[k as int].status {
                lemma_cascade_noop(pre, k as int, now);
            }
            if new_status != EventStatus::Blocked && (forall|i: int|
                0 <= i < pre.len() && i != k as int && (#[trigger] pre[i]).status
                    == EventStatus::Blocked && !pre[i].dependencies.contains(pre[k as int].id)
                    ==> derived_status(pre, pre[i].dependencies) == EventStatus::Blocked) {
                lemma_cascade_stable(pre, k as int, new_status, now);
            }
        }
        updated
    }

    /// Remove one task by id; report whether a record was removed. Deletion
    /// does not cascade: tasks that depended on the removed task keep their
    /// now-dangling dependency id and their current status.
    pub fn delete_event(&mut self, id: &str) -> (r: bool)
        requires
            old(self).wf(),
        ensures
            final(self).wf(),
            r == has_task(old(self)@, id@),
            r ==> final(self)@ == old(self)@.remove(idx_of(old(self)@, id@)),
            !r ==> final(self)@ == old(self)@,
            // Removal satisfies no new dependency: a stable store stays
            // stable, dangling ids notwithstanding.
            old(self).stable() ==> final(self).stable(),
    {
        match self.find_index(id) {
            Some(j) => {
                proof {
                    assert(has_task(self@, id@));
                    lemma_idx_of(self@, id@);
                }
                self.events.remove(j);
                proof {
                    old(self)@.remove_ensures(j as int);
                    assert(self@ =~= old(self)@.remove(j as int));
                    assert forall|a: int, b: int| 0 <= a < b < self@.len() implies (
                    #[trigger] self@[a]).id != (#[trigger] self@[b]).id by {
                        let oa: int = if a < j { a } else { a + 1 };
                        let ob: int = if b < j { b } else { b + 1 };
                        assert(self@[a] == old(self)@[oa]);
                        assert(self@[b] == old(self)@[ob]);
                    }
                    if stable(old(self)@) {
                        lemma_remove_stable(old(self)@, j as int);
                    }
                }
                true
            },
            None => false,
        }
    }
}

} // verus!
