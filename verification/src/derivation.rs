//! Status derivation and the cascade model.
//!
//! A task may be `Pending` only when every task it depends on is `Completed`;
//! otherwise it must be `Blocked`. These spec functions give the mathematical
//! account of that rule and of what one cascade invocation does to a store.

use vstd::prelude::*;
use crate::models::EventStatus;
use crate::models::TaskView;

verus! {

/// Some task in `s` carries `id`.
pub open spec fn has_task(s: Seq<TaskView>, id: Seq<char>) -> bool {
    exists|i: int| 0 <= i < s.len() && (#[trigger] s[i]).id == id
}

/// The index of the task carrying `id`; meaningful when `has_task` holds and
/// ids are unique.
pub open spec fn idx_of(s: Seq<TaskView>, id: Seq<char>) -> int {
    choose|i: int| 0 <= i < s.len() && (#[trigger] s[i]).id == id
}

/// Task ids are unique across the store.
pub open spec fn unique_ids(s: Seq<TaskView>) -> bool {
    forall|i: int, j: int| 0 <= i < j < s.len() ==> (#[trigger] s[i]).id != (#[trigger] s[j]).id
}

/// With unique ids, any position holding `id` is the one `idx_of` picks.
pub proof fn lemma_idx_of(s: Seq<TaskView>, id: Seq<char>)
    requires
        unique_ids(s),
        has_task(s, id),
    ensures
        0 <= idx_of(s, id) < s.len(),
        s[idx_of(s, id)].id == id,
        forall|j: int| 0 <= j < s.len() && (#[trigger] s[j]).id == id ==> j == idx_of(s, id),
{
    let i = idx_of(s, id);
    assert(0 <= i < s.len() && s[i].id == id);
}

/// Dependency id `dep` is satisfied: a task carrying that id exists and is
/// `Completed`. A missing (dangling) id is never satisfied.
pub open spec fn dep_satisfied(s: Seq<TaskView>, dep: Seq<char>) -> bool {
    exists|i: int|
        0 <= i < s.len() && (#[trigger] s[i]).id == dep && s[i].status == EventStatus::Completed
}

/// The status a task with dependency list `deps` ought to have, given the
/// store `s`: `Pending` when every dependency is satisfied (in particular
/// when there are none), `Blocked` otherwise. Derivation never yields
/// `InProgress` or `Completed`; those are reached only by explicit request.
pub open spec fn derived_status(s: Seq<TaskView>, deps: Seq<Seq<char>>) -> EventStatus {
    if forall|k: int| 0 <= k < deps.len() ==> dep_satisfied(s, #[trigger] deps[k]) {
        EventStatus::Pending
    } else {
        EventStatus::Blocked
    }
}

/// A task with no dependencies derives `Pending`.
pub proof fn lemma_derived_empty(s: Seq<TaskView>, deps: Seq<Seq<char>>)
    requires
        deps.len() == 0,
    ensures
        derived_status(s, deps) == EventStatus::Pending,
{
}

/// A task with a dependency that is missing or not `Completed` derives
/// `Blocked`.
pub proof fn lemma_derived_unsatisfied(s: Seq<TaskView>, deps: Seq<Seq<char>>, k: int)
    requires
        0 <= k < deps.len(),
        !dep_satisfied(s, deps[k]),
    ensures
        derived_status(s, deps) == EventStatus::Blocked,
{
}

/// A task whose every dependency is `Completed` derives `Pending` — never
/// `Completed` or `InProgress`.
pub proof fn lemma_derived_all_satisfied(s: Seq<TaskView>, deps: Seq<Seq<char>>)
    requires
        forall|k: int| 0 <= k < deps.len() ==> dep_satisfied(s, #[trigger] deps[k]),
    ensures
        derived_status(s, deps) == EventStatus::Pending,
{
}

/// Derivation only ever yields `Pending` or `Blocked`.
pub proof fn lemma_derived_range(s: Seq<TaskView>, deps: Seq<Seq<char>>)
    ensures
        derived_status(s, deps) == EventStatus::Pending || derived_status(s, deps)
            == EventStatus::Blocked,
{
}

/// `t` with its status replaced and `updated_at` refreshed.
pub open spec fn set_status(t: TaskView, st: EventStatus, now: i64) -> TaskView {
    TaskView { status: st, updated_at: now, ..t }
}

/// No task sits `Blocked` although its derived status is `Pending`.
pub open spec fn stable(s: Seq<TaskView>) -> bool {
    forall|i: int|
        0 <= i < s.len() && (#[trigger] s[i]).status == EventStatus::Blocked ==> derived_status(
            s,
            s[i].dependencies,
        ) == EventStatus::Blocked
}

/// In store `mid`, task `i` is a currently-`Blocked` direct dependent of
/// task `k` whose re-derived status is `Pending`: the cascade flips it.
pub open spec fn flips(mid: Seq<TaskView>, k: int, i: int) -> bool {
    &&& 0 <= i < mid.len()
    &&& i != k
    &&& mid[i].status == EventStatus::Blocked
    &&& mid[i].dependencies.contains(mid[k].id)
    &&& derived_status(mid, mid[i].dependencies) == EventStatus::Pending
}

/// The store at the end of the cascade that began by putting task `k` into
/// the state recorded in `mid`: every flipped dependent is `Pending` with a
/// refreshed `updated_at`; everything else is untouched.
pub open spec fn cascade_post(mid: Seq<TaskView>, k: int, now: i64) -> Seq<TaskView> {
    Seq::new(
        mid.len(),
        |i: int|
            if flips(mid, k, i) {
                set_status(mid[i], EventStatus::Pending, now)
            } else {
                mid[i]
            },
    )
}

/// The flipped dependents among the first `upto` tasks, in store order, as
/// the cascade reports them.
pub open spec fn cascade_updates(mid: Seq<TaskView>, k: int, now: i64, upto: int) -> Seq<TaskView>
    decreases upto,
{
    if upto <= 0 {
        Seq::empty()
    } else if flips(mid, k, upto - 1) {
        cascade_updates(mid, k, now, upto - 1).push(
            set_status(mid[upto - 1], EventStatus::Pending, now),
        )
    } else {
        cascade_updates(mid, k, now, upto - 1)
    }
}

/// The tasks among the first `upto` of `s` whose dependency list contains
/// `id`, in store order.
pub open spec fn dependents_prefix(s: Seq<TaskView>, id: Seq<char>, upto: int) -> Seq<TaskView>
    decreases upto,
{
    if upto <= 0 {
        Seq::empty()
    } else if s[upto - 1].dependencies.contains(id) {
        dependents_prefix(s, id, upto - 1).push(s[upto - 1])
    } else {
        dependents_prefix(s, id, upto - 1)
    }
}

/// The tasks of `s` that the first `upto` ids of `deps` resolve to, in
/// dependency-list order; a dangling id resolves to nothing.
pub open spec fn resolved_prefix(s: Seq<TaskView>, deps: Seq<Seq<char>>, upto: int) -> Seq<
    TaskView,
>
    decreases upto,
{
    if upto <= 0 {
        Seq::empty()
    } else if has_task(s, deps[upto - 1]) {
        resolved_prefix(s, deps, upto - 1).push(s[idx_of(s, deps[upto - 1])])
    } else {
        resolved_prefix(s, deps, upto - 1)
    }
}

/// Derivation only looks at which ids are `Completed`: stores that agree on
/// ids and on `Completed`-ness derive alike.
pub proof fn lemma_same_completed_derived(
    s1: Seq<TaskView>,
    s2: Seq<TaskView>,
    deps: Seq<Seq<char>>,
)
    requires
        s1.len() == s2.len(),
        forall|i: int| 0 <= i < s1.len() ==> (#[trigger] s1[i]).id == s2[i].id,
        forall|i: int|
            0 <= i < s1.len() ==> ((#[trigger] s1[i]).status == EventStatus::Completed <==> s2[i].status
                == EventStatus::Completed),
    ensures
        derived_status(s1, deps) == derived_status(s2, deps),
{
    assert forall|d: Seq<char>| #[trigger] dep_satisfied(s1, d) implies dep_satisfied(s2, d) by {
        let i = choose|i: int|
            0 <= i < s1.len() && (#[trigger] s1[i]).id == d && s1[i].status
                == EventStatus::Completed;
        assert(0 <= i < s2.len() && s2[i].id == d && s2[i].status == EventStatus::Completed);
    }
    assert forall|d: Seq<char>| #[trigger] dep_satisfied(s2, d) implies dep_satisfied(s1, d) by {
        let i = choose|i: int|
            0 <= i < s2.len() && (#[trigger] s2[i]).id == d && s2[i].status
                == EventStatus::Completed;
        assert(0 <= i < s1.len() && s1[i].id == d && s1[i].status == EventStatus::Completed);
    }
}

/// If `s2` satisfies no dependency that `s1` does not, a list that derives
/// `Blocked` under `s1` still derives `Blocked` under `s2`.
pub proof fn lemma_fewer_satisfied_blocked(
    s1: Seq<TaskView>,
    s2: Seq<TaskView>,
    deps: Seq<Seq<char>>,
)
    requires
        forall|d: Seq<char>| #[trigger] dep_satisfied(s2, d) ==> dep_satisfied(s1, d),
        derived_status(s1, deps) == EventStatus::Blocked,
    ensures
        derived_status(s2, deps) == EventStatus::Blocked,
{
    let k = choose|k: int| 0 <= k < deps.len() && !dep_satisfied(s1, #[trigger] deps[k]);
    assert(!dep_satisfied(s2, deps[k]));
}

/// Appending a task that is not `Completed` satisfies no dependency, so a
/// stable store stays stable, provided the new task's own status honours its
/// derived status when `Blocked`. Creation appends exactly such tasks: the
/// initial status is derived, never `Completed`.
pub proof fn lemma_push_stable(s: Seq<TaskView>, t: TaskView)
    requires
        stable(s),
        t.status != EventStatus::Completed,
        t.status == EventStatus::Blocked ==> derived_status(s, t.dependencies)
            == EventStatus::Blocked,
    ensures
        stable(s.push(t)),
{
    let s2 = s.push(t);
    assert forall|d: Seq<char>| #[trigger] dep_satisfied(s2, d) implies dep_satisfied(s, d) by {
        let w = choose|w: int|
            0 <= w < s2.len() && (#[trigger] s2[w]).id == d && s2[w].status
                == EventStatus::Completed;
        assert(w != s.len());
        assert(s[w].id == d && s[w].status == EventStatus::Completed);
    }
    assert forall|i: int|
        0 <= i < s2.len() && (#[trigger] s2[i]).status == EventStatus::Blocked implies
    derived_status(s2, s2[i].dependencies) == EventStatus::Blocked by {
        if i < s.len() {
            assert(s2[i] == s[i]);
            lemma_fewer_satisfied_blocked(s, s2, s2[i].dependencies);
        } else {
            assert(s2[i] == t);
            lemma_fewer_satisfied_blocked(s, s2, t.dependencies);
        }
    }
}

/// Removing a task satisfies no new dependency, so a stable store stays
/// stable under deletion — even though dependents keep the dangling id.
pub proof fn lemma_remove_stable(s: Seq<TaskView>, j: int)
    requires
        stable(s),
        0 <= j < s.len(),
    ensures
        stable(s.remove(j)),
{
    let s2 = s.remove(j);
    s.remove_ensures(j);
    assert forall|d: Seq<char>| #[trigger] dep_satisfied(s2, d) implies dep_satisfied(s, d) by {
        let w = choose|w: int|
            0 <= w < s2.len() && (#[trigger] s2[w]).id == d && s2[w].status
                == EventStatus::Completed;
        let ow: int = if w < j {
            w
        } else {
            w + 1
        };
        assert(s[ow].id == d && s[ow].status == EventStatus::Completed);
    }
    assert forall|i: int|
        0 <= i < s2.len() && (#[trigger] s2[i]).status == EventStatus::Blocked implies
    derived_status(s2, s2[i].dependencies) == EventStatus::Blocked by {
        let oi: int = if i < j {
            i
        } else {
            i + 1
        };
        assert(s2[i] == s[oi]);
        assert(derived_status(s, s[oi].dependencies) == EventStatus::Blocked);
        lemma_fewer_satisfied_blocked(s, s2, s2[i].dependencies);
    }
}

/// If no task among the first `upto` flips, the cascade reports no dependent
/// updates there.
pub proof fn lemma_cascade_updates_empty(mid: Seq<TaskView>, k: int, now: i64, upto: int)
    requires
        forall|i: int| 0 <= i < upto ==> !flips(mid, k, i),
    ensures
        cascade_updates(mid, k, now, upto) == Seq::<TaskView>::empty(),
    decreases upto,
{
    if upto > 0 {
        lemma_cascade_updates_empty(mid, k, now, upto - 1);
    }
}

/// Idempotence of the cascade: re-asserting a task's current status on a
/// stable store flips no dependent, so every other task keeps its record
/// unchanged, and the cascade reports no dependent updates.
pub proof fn lemma_cascade_noop(pre: Seq<TaskView>, k: int, now: i64)
    requires
        0 <= k < pre.len(),
        stable(pre),
    ensures
        forall|i: int|
            0 <= i < pre.len() && i != k ==> #[trigger] cascade_post(
                pre.update(k, set_status(pre[k], pre[k].status, now)),
                k,
                now,
            )[i] == pre[i],
        cascade_updates(pre.update(k, set_status(pre[k], pre[k].status, now)), k, now, pre.len() as int)
            == Seq::<TaskView>::empty(),
{
    let mid = pre.update(k, set_status(pre[k], pre[k].status, now));
    assert forall|i: int| 0 <= i < mid.len() implies !flips(mid, k, i) by {
        if 0 <= i < mid.len() && i != k && mid[i].status == EventStatus::Blocked {
            lemma_same_completed_derived(mid, pre, mid[i].dependencies);
            assert(pre[i].status == EventStatus::Blocked);
            assert(derived_status(pre, pre[i].dependencies) == EventStatus::Blocked);
        }
    }
    lemma_cascade_updates_empty(mid, k, now, pre.len() as int);
    assert forall|i: int| 0 <= i < pre.len() && i != k implies #[trigger] cascade_post(
        mid,
        k,
        now,
    )[i] == pre[i] by {
        assert(cascade_post(mid, k, now)[i] == mid[i]);
    }
}

/// Convergence of the cascade. The cascade re-derives exactly the `Blocked`
/// direct dependents of the changed task, so those need no stability up
/// front: if every other `Blocked` task already derives `Blocked`, a cascade
/// that does not force `Blocked` leaves the whole store stable — re-deriving
/// any still-`Blocked` task changes nothing, so repeated invocations have
/// reached their fixed point. A fully stable store satisfies the premise.
pub proof fn lemma_cascade_stable(pre: Seq<TaskView>, k: int, st: EventStatus, now: i64)
    requires
        0 <= k < pre.len(),
        forall|i: int|
            0 <= i < pre.len() && i != k && (#[trigger] pre[i]).status == EventStatus::Blocked
                && !pre[i].dependencies.contains(pre[k].id) ==> derived_status(
                pre,
                pre[i].dependencies,
            ) == EventStatus::Blocked,
        st != EventStatus::Blocked,
    ensures
        stable(cascade_post(pre.update(k, set_status(pre[k], st, now)), k, now)),
{
    let mid = pre.update(k, set_status(pre[k], st, now));
    let post = cascade_post(mid, k, now);
    assert forall|i: int|
        0 <= i < post.len() && (#[trigger] post[i]).status == EventStatus::Blocked implies
    derived_status(post, post[i].dependencies) == EventStatus::Blocked by {
        assert(!flips(mid, k, i) && post[i] == mid[i]);
        assert(i != k);
        let deps = mid[i].dependencies;
        lemma_same_completed_derived(post, mid, deps);
        assert(pre[i].status == EventStatus::Blocked);
        if deps.contains(mid[k].id) {
            // A Blocked direct dependent of the target that stayed Blocked
            // cannot have re-derived Pending.
            lemma_derived_range(mid, deps);
        } else {
            // Only the target's record changed between pre and mid, and its
            // id is not among these dependencies, so derivation agrees.
            assert(derived_status(pre, deps) == EventStatus::Blocked);
            let q = choose|q: int| 0 <= q < deps.len() && !dep_satisfied(pre, #[trigger] deps[q]);
            assert(!dep_satisfied(mid, deps[q])) by {
                if dep_satisfied(mid, deps[q]) {
                    let w = choose|w: int|
                        0 <= w < mid.len() && (#[trigger] mid[w]).id == deps[q] && mid[w].status
                            == EventStatus::Completed;
                    if w != k {
                        assert(pre[w].id == deps[q] && pre[w].status == EventStatus::Completed);
                    } else {
                        assert(deps[q] == pre[k].id);
                        assert(deps.contains(pre[k].id));
                    }
                    assert(false);
                }
            }
            assert(derived_status(mid, deps) == EventStatus::Blocked);
        }
    }
}

} // verus!
