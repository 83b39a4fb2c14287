//! What holds of the primitives whatever the tasks do.

use crate::graph::ResourceKind;
use crate::kernel::{
    first_place, lemma_contains_first, lemma_named, lemma_with_mutex, lemma_with_semaphore,
    lemma_with_task, KernelView,
};
use crate::sync::mutex::{Mutex, MutexBlocking, MutexView};
use crate::sync::semaphore::SemaphoreView;
use crate::sync::{Action, Outcome};
use crate::task::task::{vacated, vacated_first, TaskView};
use crate::DEADLOCK;
use vstd::prelude::*;
use vstd::seq_lib::to_multiset_update;

verus! {

/// A resource that `t` owns is reached from itself.
pub proof fn lemma_owner_reached(k: KernelView, kind: ResourceKind, r: usize, t: usize)
    requires
        k.owns(kind, t, r),
    ensures
        k.reaches(kind, r, t, Seq::empty(), Seq::empty()),
{
    let none = Seq::<usize>::empty();
    let p = seq![r];
    let q = Seq::<usize>::empty();
    assert(k.walk(kind, r, none, none, p, q));
    assert(p.last() == r);
    assert(k.walk_to(kind, r, r, none, none));
}

/// Mutual exclusion: a blocking mutex has one owner at most, and `lock` takes
/// it from nobody. Whoever owned the mutex before a `lock` owns it after; the
/// caller is told that the mutex is its own only where the mutex was free,
/// and is then its owner.
pub proof fn lemma_mutual_exclusion(k: KernelView, id: usize, a: usize, b: usize)
    requires
        k.has_mutex(id),
        k.has_task(b),
    ensures
        k.owns(ResourceKind::Mutex, a, id) && k.owns(ResourceKind::Mutex, b, id) ==> a == b,
        k.owns(ResourceKind::Mutex, a, id) ==> MutexBlocking::lock_spec(k, id, b).0.owns(
            ResourceKind::Mutex,
            a,
            id,
        ),
        MutexBlocking::lock_spec(k, id, b).1 == (Outcome { status: 0, action: Action::Continue })
            ==> !k.mutex(id).locked && MutexBlocking::lock_spec(k, id, b).0.owns(
            ResourceKind::Mutex,
            b,
            id,
        ),
        forall|c: usize|
            MutexBlocking::lock_spec(k, id, b).0.owns(ResourceKind::Mutex, c, id) ==> k.owns(
                ResourceKind::Mutex,
                c,
                id,
            ) || (c == b && !k.mutex(id).locked),
{
    let m = k.mutex(id);
    let t = k.task(b);
    let k1 = k.listing_mutex(b, id);
    lemma_named(k, id);
    lemma_named(k, b);
    lemma_with_task(k, b, TaskView { mutexes: t.mutexes.push(Some(id)), ..t });
    assert(k1.mutex_ids() =~= k.mutex_ids());
    assert(k1.mutex(id) == m);
    if m.locked {
        lemma_with_mutex(k1, id, MutexView { waiters: m.waiters.push(b), ..m });
    } else {
        lemma_with_mutex(k1, id, MutexView { locked: true, owner: b, ..m });
    }
}

/// No lost wakeup on a mutex: where tasks wait, `unlock` wakes the one that
/// has waited longest and no other, makes it the owner, and takes just its
/// entry from the queue; the mutex is never free in between.
pub proof fn lemma_unlock_wakes_head(k: KernelView, handle: usize, id: usize, task_id: usize)
    requires
        MutexBlocking::can_unlock(k, handle, task_id),
        k.mutex(handle).waiters.len() > 0,
    ensures
        MutexBlocking::unlock_spec(k, handle, id, task_id).1 == Action::Wake(
            k.mutex(handle).waiters[0],
        ),
        MutexBlocking::unlock_spec(k, handle, id, task_id).0.has_mutex(handle),
        MutexBlocking::unlock_spec(k, handle, id, task_id).0.mutex(handle) == (MutexView {
            owner: k.mutex(handle).waiters[0],
            waiters: k.mutex(handle).waiters.drop_first(),
            ..k.mutex(handle)
        }),
{
    let m = k.mutex(handle);
    let t = k.task(task_id);
    let k1 = k.with_task(task_id, TaskView { mutexes: vacated(t.mutexes, id), ..t });
    lemma_named(k, handle);
    assert(k1.mutex_ids() =~= k.mutex_ids());
    assert(m.waiters.drop_first() =~= m.waiters.subrange(1, m.waiters.len() as int));
    lemma_with_mutex(
        k1,
        handle,
        MutexView {
            owner: m.waiters[0],
            waiters: m.waiters.subrange(1, m.waiters.len() as int),
            ..m
        },
    );
}

/// The kernel after `n` releases of the mutex `handle`, each made by the
/// task that then owns it, and the tasks woken, in the order of their waking.
pub open spec fn unlock_run(k: KernelView, handle: usize, n: nat) -> (KernelView, Seq<usize>)
    decreases n,
{
    if n == 0 {
        (k, Seq::empty())
    } else {
        let (k1, woken) = unlock_run(k, handle, (n - 1) as nat);
        let (k2, action) = MutexBlocking::unlock_spec(k1, handle, handle, k1.mutex(handle).owner);
        (
            k2,
            match action {
                Action::Wake(t) => woken.push(t),
                _ => woken,
            },
        )
    }
}

/// Queue order on a mutex: as long as tasks wait, successive releases wake
/// them in the order in which they joined the queue, and each becomes the
/// owner in its turn.
pub proof fn lemma_unlock_order(k: KernelView, handle: usize, n: nat)
    requires
        k.has_mutex(handle),
        k.mutex(handle).locked,
        n <= k.mutex(handle).waiters.len(),
    ensures
        unlock_run(k, handle, n).1 == k.mutex(handle).waiters.take(n as int),
        unlock_run(k, handle, n).0.has_mutex(handle),
        unlock_run(k, handle, n).0.mutex(handle).locked,
        unlock_run(k, handle, n).0.mutex(handle).waiters == k.mutex(handle).waiters.skip(n as int),
        n > 0 ==> unlock_run(k, handle, n).0.mutex(handle).owner == k.mutex(handle).waiters[n - 1],
    decreases n,
{
    let w = k.mutex(handle).waiters;
    if n == 0 {
        assert(w.take(0) =~= Seq::<usize>::empty());
        assert(w.skip(0) =~= w);
    } else {
        lemma_unlock_order(k, handle, (n - 1) as nat);
        let (k1, woken) = unlock_run(k, handle, (n - 1) as nat);
        let m = k1.mutex(handle);
        let caller = m.owner;
        let t = k1.task(caller);
        let k1t = k1.with_task(caller, TaskView { mutexes: vacated(t.mutexes, handle), ..t });
        lemma_named(k1, handle);
        assert(k1t.mutex_ids() =~= k1.mutex_ids());
        assert(m.waiters[0] == w[n - 1]);
        lemma_with_mutex(
            k1t,
            handle,
            MutexView {
                owner: m.waiters[0],
                waiters: m.waiters.subrange(1, m.waiters.len() as int),
                ..m
            },
        );
        assert(m.waiters.subrange(1, m.waiters.len() as int) =~= w.skip(n as int));
        assert(woken.push(w[n - 1]) =~= w.take(n as int));
    }
}

/// Self-deadlock: a task that owns a blocking mutex and locks it again is
/// refused at once, and nothing changes.
pub proof fn lemma_relock_refused(k: KernelView, id: usize, task_id: usize)
    requires
        k.owns(ResourceKind::Mutex, task_id, id),
    ensures
        MutexBlocking::lock_spec(k, id, task_id) == (
            k,
            Outcome { status: DEADLOCK, action: Action::Continue },
        ),
{
}

/// A cycle of two tasks: where `a` owns `r1` and lists `r2`, which `b` owns,
/// `b` would wait for itself if it waited for `r1`.
pub proof fn lemma_two_task_cycle(
    k: KernelView,
    kind: ResourceKind,
    a: usize,
    b: usize,
    r1: usize,
    r2: usize,
)
    requires
        k.owns(kind, a, r1),
        k.lists(kind, a, r2),
        k.owns(kind, b, r2),
    ensures
        k.reaches(kind, r1, b, Seq::empty(), Seq::empty()),
{
    let none = Seq::<usize>::empty();
    let p = seq![r1, r2];
    let q = seq![a];
    assert(k.walk(kind, r1, none, none, p, q));
    assert(p.last() == r2);
    assert(k.walk_to(kind, r1, r2, none, none));
}

/// A cycle of two tasks on mutexes: `a` holds `m1` and waits for `m2`, which
/// `b` holds. Then `b` is refused `m1` at once, and nothing changes.
pub proof fn lemma_two_task_cycle_refused(k: KernelView, a: usize, b: usize, m1: usize, m2: usize)
    requires
        k.owns(ResourceKind::Mutex, a, m1),
        k.lists(ResourceKind::Mutex, a, m2),
        k.owns(ResourceKind::Mutex, b, m2),
    ensures
        MutexBlocking::lock_spec(k, m1, b) == (
            k,
            Outcome { status: DEADLOCK, action: Action::Continue },
        ),
{
    lemma_two_task_cycle(k, ResourceKind::Mutex, a, b, m1, m2);
}

/// No refusal without a cycle: `lock` refuses exactly where the mutex is held
/// and the caller would wait for itself.
pub proof fn lemma_lock_refused_only_on_cycle(k: KernelView, id: usize, task_id: usize)
    requires
        MutexBlocking::can_lock(k, id, task_id),
    ensures
        MutexBlocking::lock_spec(k, id, task_id).1.status == DEADLOCK <==> k.mutex(id).locked
            && k.mutex_cycle(id, task_id),
{
    let m = k.mutex(id);
    if m.locked && m.owner == task_id {
        lemma_owner_reached(k, ResourceKind::Mutex, id, task_id);
    }
}

/// No refusal without a cycle: `down` refuses exactly where no unit is left
/// and the caller would wait for itself.
pub proof fn lemma_down_refused_only_on_cycle(k: KernelView, id: usize, task_id: usize)
    ensures
        k.down_spec(id, task_id).1.status == DEADLOCK <==> k.semaphore(id).count <= 0
            && k.semaphore_cycle(id, task_id),
{
}

/// A task that owns nothing waits for nobody: whatever it would wait for,
/// it would not wait for itself.
pub proof fn lemma_owning_nothing(k: KernelView, kind: ResourceKind, start: usize, target: usize)
    requires
        forall|r: usize| !k.owns(kind, target, r),
    ensures
        !k.reaches(kind, start, target, Seq::empty(), Seq::empty()),
{
}

/// No false refusal: a task that owns no mutex is never refused one, and a
/// task that owns no unit of any semaphore is never refused a unit.
pub proof fn lemma_never_refused(k: KernelView, kind: ResourceKind, id: usize, task_id: usize)
    requires
        k.has_resource(kind, id),
        forall|r: usize| !k.owns(kind, task_id, r),
    ensures
        kind == ResourceKind::Mutex ==> MutexBlocking::lock_spec(k, id, task_id).1.status
            != DEADLOCK,
        kind == ResourceKind::Semaphore ==> k.down_spec(id, task_id).1.status != DEADLOCK,
{
    lemma_owning_nothing(k, kind, id, task_id);
    if kind == ResourceKind::Mutex {
        assert(!k.owns(kind, task_id, id));
    }
}


/// Release accounting on a mutex: a release that finds nobody waiting leaves
/// the mutex free, and a free mutex may not be released again.
pub proof fn lemma_unlock_once(k: KernelView, handle: usize, id: usize, task_id: usize, again: usize)
    requires
        MutexBlocking::can_unlock(k, handle, task_id),
        k.mutex(handle).waiters.len() == 0,
    ensures
        MutexBlocking::unlock_spec(k, handle, id, task_id).1 == Action::Continue,
        !MutexBlocking::unlock_spec(k, handle, id, task_id).0.mutex(handle).locked,
        !MutexBlocking::can_unlock(
            MutexBlocking::unlock_spec(k, handle, id, task_id).0,
            handle,
            again,
        ),
{
    let m = k.mutex(handle);
    let t = k.task(task_id);
    let k1 = k.with_task(task_id, TaskView { mutexes: vacated(t.mutexes, id), ..t });
    lemma_named(k, handle);
    assert(k1.mutex_ids() =~= k.mutex_ids());
    lemma_with_mutex(k1, handle, MutexView { locked: false, ..m });
}

/// Vacating the first slot that holds `id` takes one entry of `id` from the
/// list and leaves one empty slot in its place; a list without `id` stays as
/// it is.
pub proof fn lemma_vacated_first(list: Seq<Option<usize>>, id: usize)
    ensures
        vacated_first(list, id).len() == list.len(),
        list.contains(Some(id)) ==> vacated_first(list, id).to_multiset()
            == list.to_multiset().insert(None).remove(Some(id)),
        !list.contains(Some(id)) ==> vacated_first(list, id) == list,
{
    if list.contains(Some(id)) {
        lemma_contains_first(list, Some(id));
        to_multiset_update(list, first_place(list, Some(id)), None);
    }
}

/// Release accounting on a semaphore: `up` takes one owner's entry of the
/// caller, and one entry of the semaphore from the caller's list, where the
/// caller owns a unit, and nothing where it owns none; the counter goes up
/// by one; the only entry that comes is that of the task woken.
pub proof fn lemma_up_releases_one(k: KernelView, id: usize, task_id: usize)
    requires
        k.has_semaphore(id),
        k.has_task(task_id),
    ensures
        k.up_spec(id, task_id).0.has_semaphore(id),
        k.up_spec(id, task_id).0.has_task(task_id),
        k.up_spec(id, task_id).0.semaphore(id).count == k.semaphore(id).count + 1,
        k.up_spec(id, task_id).0.semaphore(id).owners == match k.up_spec(id, task_id).1 {
            Action::Wake(t) => vacated_first(k.semaphore(id).owners, task_id).push(Some(t)),
            _ => vacated_first(k.semaphore(id).owners, task_id),
        },
        k.up_spec(id, task_id).0.task(task_id).semaphores == if k.semaphore(id).owners.contains(
            Some(task_id),
        ) {
            vacated_first(k.task(task_id).semaphores, id)
        } else {
            k.task(task_id).semaphores
        },
{
    let s = k.semaphore(id);
    let t = k.task(task_id);
    lemma_named(k, id);
    lemma_named(k, task_id);
    let t1 = TaskView { semaphores: vacated_first(t.semaphores, id), ..t };
    let k1 = if s.owners.contains(Some(task_id)) {
        k.with_task(task_id, t1)
    } else {
        k
    };
    lemma_with_task(k, task_id, t1);
    assert(k1.semaphore_ids() =~= k.semaphore_ids());
    assert(k1.semaphore(id) == s);
    let owners = vacated_first(s.owners, task_id);
    let count = s.count + 1;
    if count <= 0 && s.waiters.len() > 0 {
        let s2 = SemaphoreView {
            count,
            owners: owners.push(Some(s.waiters[0])),
            waiters: s.waiters.subrange(1, s.waiters.len() as int),
            ..s
        };
        lemma_with_semaphore(k1, id, s2);
        assert(k1.with_semaphore(id, s2).tasks == k1.tasks);
    } else {
        let s2 = SemaphoreView { count, owners, ..s };
        lemma_with_semaphore(k1, id, s2);
        assert(k1.with_semaphore(id, s2).tasks == k1.tasks);
    }
}

/// No lost wakeup on a semaphore: where the counter shows that tasks wait,
/// `up` wakes the one that has waited longest and no other, makes it an
/// owner, and takes just its entry from the queue.
pub proof fn lemma_up_wakes_head(k: KernelView, id: usize, task_id: usize)
    requires
        k.has_semaphore(id),
        k.semaphore(id).count < 0,
        k.semaphore(id).waiters.len() > 0,
    ensures
        k.up_spec(id, task_id).1 == Action::Wake(k.semaphore(id).waiters[0]),
        k.up_spec(id, task_id).0.has_semaphore(id),
        k.up_spec(id, task_id).0.semaphore(id).waiters == k.semaphore(id).waiters.drop_first(),
        k.up_spec(id, task_id).0.semaphore(id).owners.last() == Some(k.semaphore(id).waiters[0]),
{
    let s = k.semaphore(id);
    let t = k.task(task_id);
    lemma_named(k, id);
    let k1 = if s.owners.contains(Some(task_id)) {
        k.with_task(task_id, TaskView { semaphores: vacated_first(t.semaphores, id), ..t })
    } else {
        k
    };
    assert(k1.semaphore_ids() =~= k.semaphore_ids());
    let s2 = SemaphoreView {
        count: s.count + 1,
        owners: vacated_first(s.owners, task_id).push(Some(s.waiters[0])),
        waiters: s.waiters.subrange(1, s.waiters.len() as int),
        ..s
    };
    lemma_with_semaphore(k1, id, s2);
    assert(s.waiters.drop_first() =~= s.waiters.subrange(1, s.waiters.len() as int));
}

/// The kernel after the tasks in `callers` have called `up` on the
/// semaphore `id`, one after the other, and the tasks woken, in the order
/// of their waking.
pub open spec fn up_run(k: KernelView, id: usize, callers: Seq<usize>) -> (
    KernelView,
    Seq<usize>,
)
    decreases callers.len(),
{
    if callers.len() == 0 {
        (k, Seq::empty())
    } else {
        let (k1, woken) = up_run(k, id, callers.drop_last());
        let (k2, action) = k1.up_spec(id, callers.last());
        (
            k2,
            match action {
                Action::Wake(t) => woken.push(t),
                _ => woken,
            },
        )
    }
}

/// Queue order on a semaphore: as long as the counter shows that tasks
/// wait, successive calls of `up` wake them in the order in which they
/// joined the queue.
pub proof fn lemma_up_order(k: KernelView, id: usize, callers: Seq<usize>)
    requires
        k.has_semaphore(id),
        callers.len() <= k.semaphore(id).waiters.len(),
        k.semaphore(id).count + callers.len() <= 0,
    ensures
        up_run(k, id, callers).1 == k.semaphore(id).waiters.take(callers.len() as int),
        up_run(k, id, callers).0.has_semaphore(id),
        up_run(k, id, callers).0.semaphore(id).waiters == k.semaphore(id).waiters.skip(
            callers.len() as int,
        ),
        up_run(k, id, callers).0.semaphore(id).count == k.semaphore(id).count + callers.len(),
    decreases callers.len(),
{
    let w = k.semaphore(id).waiters;
    let n = callers.len() as int;
    if n == 0 {
        assert(w.take(0) =~= Seq::<usize>::empty());
        assert(w.skip(0) =~= w);
    } else {
        lemma_up_order(k, id, callers.drop_last());
        let (k1, woken) = up_run(k, id, callers.drop_last());
        let s = k1.semaphore(id);
        assert(s.waiters[0] == w[n - 1]);
        lemma_up_wakes_head(k1, id, callers.last());
        lemma_up_releases_one_count(k1, id, callers.last());
        assert(s.waiters.drop_first() =~= w.skip(n));
        assert(woken.push(w[n - 1]) =~= w.take(n));
    }
}

/// `up` raises the counter by one, whoever calls it.
proof fn lemma_up_releases_one_count(k: KernelView, id: usize, task_id: usize)
    requires
        k.has_semaphore(id),
    ensures
        k.up_spec(id, task_id).0.semaphore(id).count == k.semaphore(id).count + 1,
{
    let s = k.semaphore(id);
    let t = k.task(task_id);
    lemma_named(k, id);
    let k1 = if s.owners.contains(Some(task_id)) {
        k.with_task(task_id, TaskView { semaphores: vacated_first(t.semaphores, id), ..t })
    } else {
        k
    };
    assert(k1.semaphore_ids() =~= k.semaphore_ids());
    let owners = vacated_first(s.owners, task_id);
    let count = s.count + 1;
    if count <= 0 && s.waiters.len() > 0 {
        lemma_with_semaphore(
            k1,
            id,
            SemaphoreView {
                count,
                owners: owners.push(Some(s.waiters[0])),
                waiters: s.waiters.subrange(1, s.waiters.len() as int),
                ..s
            },
        );
    } else {
        lemma_with_semaphore(k1, id, SemaphoreView { count, owners, ..s });
    }
}


/// Every table names after `lock` what it named before: the calls that
/// could be made before can be made after.
pub proof fn lemma_lock_keeps_names(k: KernelView, id: usize, task_id: usize)
    requires
        MutexBlocking::can_lock(k, id, task_id),
    ensures
        MutexBlocking::lock_spec(k, id, task_id).0.task_ids() == k.task_ids(),
        MutexBlocking::lock_spec(k, id, task_id).0.mutex_ids() == k.mutex_ids(),
        MutexBlocking::lock_spec(k, id, task_id).0.semaphores == k.semaphores,
        MutexBlocking::lock_spec(k, id, task_id).0.spins == k.spins,
        forall|o: usize|
            k.has_mutex(o) && o != id ==> #[trigger] MutexBlocking::lock_spec(k, id, task_id).0.mutex(
                o,
            ) == k.mutex(o),
        forall|o: usize|
            k.has_task(o) && o != task_id ==> #[trigger] MutexBlocking::lock_spec(
                k,
                id,
                task_id,
            ).0.task(o) == k.task(o),
{
    let m = k.mutex(id);
    let t = k.task(task_id);
    let t1 = TaskView { mutexes: t.mutexes.push(Some(id)), ..t };
    let k1 = k.listing_mutex(task_id, id);
    lemma_named(k, id);
    lemma_named(k, task_id);
    lemma_with_task(k, task_id, t1);
    assert(k1.mutex_ids() =~= k.mutex_ids());
    assert(k1.mutexes == k.mutexes);
    let m1 = if m.locked {
        MutexView { waiters: m.waiters.push(task_id), ..m }
    } else {
        MutexView { locked: true, owner: task_id, ..m }
    };
    lemma_with_mutex(k1, id, m1);
    let k2 = k1.with_mutex(id, m1);
    assert(k2.task_ids() =~= k1.task_ids());
    assert(k2.tasks == k1.tasks);
    assert forall|o: usize| k.has_task(o) && o != task_id implies #[trigger]
        MutexBlocking::lock_spec(k, id, task_id).0.task(o) == k.task(o) by {
        assert(k1.task(o) == k.task(o));
        assert(k2.task(o) == k1.task(o));
    }
}

/// Every table names after `unlock` what it named before.
pub proof fn lemma_unlock_keeps_names(k: KernelView, handle: usize, id: usize, task_id: usize)
    requires
        MutexBlocking::can_unlock(k, handle, task_id),
    ensures
        MutexBlocking::unlock_spec(k, handle, id, task_id).0.task_ids() == k.task_ids(),
        MutexBlocking::unlock_spec(k, handle, id, task_id).0.mutex_ids() == k.mutex_ids(),
        MutexBlocking::unlock_spec(k, handle, id, task_id).0.semaphores == k.semaphores,
        MutexBlocking::unlock_spec(k, handle, id, task_id).0.spins == k.spins,
        MutexBlocking::unlock_spec(k, handle, id, task_id).0.task(task_id) == (TaskView {
            mutexes: vacated(k.task(task_id).mutexes, id),
            ..k.task(task_id)
        }),
        forall|o: usize|
            k.has_mutex(o) && o != handle ==> #[trigger] MutexBlocking::unlock_spec(
                k,
                handle,
                id,
                task_id,
            ).0.mutex(o) == k.mutex(o),
        forall|o: usize|
            k.has_task(o) && o != task_id ==> #[trigger] MutexBlocking::unlock_spec(
                k,
                handle,
                id,
                task_id,
            ).0.task(o) == k.task(o),
{
    let m = k.mutex(handle);
    let t = k.task(task_id);
    let t1 = TaskView { mutexes: vacated(t.mutexes, id), ..t };
    let k1 = k.with_task(task_id, t1);
    lemma_named(k, handle);
    lemma_named(k, task_id);
    lemma_with_task(k, task_id, t1);
    assert(k1.mutex_ids() =~= k.mutex_ids());
    assert(k1.mutexes == k.mutexes);
    let m1 = if m.waiters.len() > 0 {
        MutexView {
            owner: m.waiters[0],
            waiters: m.waiters.subrange(1, m.waiters.len() as int),
            ..m
        }
    } else {
        MutexView { locked: false, ..m }
    };
    lemma_with_mutex(k1, handle, m1);
    let k2 = k1.with_mutex(handle, m1);
    assert(k2.task_ids() =~= k1.task_ids());
    assert(k2.tasks == k1.tasks);
    assert(k2.task(task_id) == k1.task(task_id));
    assert forall|o: usize| k.has_task(o) && o != task_id implies #[trigger]
        MutexBlocking::unlock_spec(k, handle, id, task_id).0.task(o) == k.task(o) by {
        assert(k1.task(o) == k.task(o));
        assert(k2.task(o) == k1.task(o));
    }
}

/// The queue of a mutex is sound: it holds no task twice, and not the owner
/// of the mutex while the mutex is held.
pub open spec fn queue_sound(m: MutexView) -> bool {
    &&& m.waiters.no_duplicates()
    &&& m.locked ==> !m.waiters.contains(m.owner)
}

/// A task owns a mutex or waits for it, never both: `lock` by a task that
/// does not wait for the mutex already leaves the queue sound.
pub proof fn lemma_lock_keeps_queue_sound(k: KernelView, id: usize, task_id: usize)
    requires
        MutexBlocking::can_lock(k, id, task_id),
        queue_sound(k.mutex(id)),
        !k.mutex(id).waiters.contains(task_id),
    ensures
        queue_sound(MutexBlocking::lock_spec(k, id, task_id).0.mutex(id)),
{
    let m = k.mutex(id);
    let t = k.task(task_id);
    let k1 = k.listing_mutex(task_id, id);
    lemma_named(k, id);
    assert(k1.mutex_ids() =~= k.mutex_ids());
    if m.locked {
        if m.owner == task_id || k.mutex_cycle(id, task_id) {
        } else {
            let w = m.waiters.push(task_id);
            lemma_with_mutex(k1, id, MutexView { waiters: w, ..m });
            assert forall|i: int, j: int| 0 <= i < w.len() && 0 <= j < w.len() && i != j implies w[i]
                != w[j] by {
                if i < m.waiters.len() && j < m.waiters.len() {
                    assert(m.waiters[i] != m.waiters[j]);
                } else if i < m.waiters.len() {
                    assert(m.waiters.contains(m.waiters[i]));
                } else if j < m.waiters.len() {
                    assert(m.waiters.contains(m.waiters[j]));
                }
            }
            if w.contains(m.owner) {
                let i = choose|i: int| 0 <= i < w.len() && w[i] == m.owner;
                if i < m.waiters.len() {
                    assert(m.waiters[i] == m.owner);
                }
            }
        }
    } else {
        lemma_with_mutex(k1, id, MutexView { locked: true, owner: task_id, ..m });
    }
}

/// A task owns a mutex or waits for it, never both: `unlock` leaves the
/// queue sound.
pub proof fn lemma_unlock_keeps_queue_sound(
    k: KernelView,
    handle: usize,
    id: usize,
    task_id: usize,
)
    requires
        MutexBlocking::can_unlock(k, handle, task_id),
        queue_sound(k.mutex(handle)),
    ensures
        queue_sound(MutexBlocking::unlock_spec(k, handle, id, task_id).0.mutex(handle)),
{
    let m = k.mutex(handle);
    let t = k.task(task_id);
    let k1 = k.with_task(task_id, TaskView { mutexes: vacated(t.mutexes, id), ..t });
    lemma_named(k, handle);
    assert(k1.mutex_ids() =~= k.mutex_ids());
    if m.waiters.len() > 0 {
        let w = m.waiters.subrange(1, m.waiters.len() as int);
        lemma_with_mutex(k1, handle, MutexView { owner: m.waiters[0], waiters: w, ..m });
        assert forall|i: int, j: int| 0 <= i < w.len() && 0 <= j < w.len() && i != j implies w[i]
            != w[j] by {
            assert(m.waiters[i + 1] != m.waiters[j + 1]);
        }
        if w.contains(m.waiters[0]) {
            let i = choose|i: int| 0 <= i < w.len() && w[i] == m.waiters[0];
            assert(m.waiters[i + 1] != m.waiters[0]);
        }
    } else {
        lemma_with_mutex(k1, handle, MutexView { locked: false, ..m });
    }
}

/// No more tasks wait for a semaphore than its counter is below zero.
pub open spec fn waiters_counted(s: SemaphoreView) -> bool {
    s.waiters.len() <= if s.count < 0 {
        -s.count
    } else {
        0
    }
}

/// As many tasks wait for a semaphore as its counter is below zero.
pub open spec fn waiters_exact(s: SemaphoreView) -> bool {
    s.waiters.len() == if s.count < 0 {
        -s.count
    } else {
        0
    }
}

/// The counter of a semaphore bounds its queue: `down` and `up` leave no
/// more tasks waiting than the counter is below zero. As many wait as it is
/// below zero as long as no `down` is refused: a refused `down` keeps the
/// counter lowered and joins no queue.
pub proof fn lemma_counter_bounds_queue(k: KernelView, id: usize, task_id: usize)
    requires
        k.has_semaphore(id),
    ensures
        waiters_counted(k.semaphore(id)) ==> waiters_counted(
            k.down_spec(id, task_id).0.semaphore(id),
        ) && waiters_counted(k.up_spec(id, task_id).0.semaphore(id)),
        waiters_exact(k.semaphore(id)) ==> waiters_exact(k.up_spec(id, task_id).0.semaphore(id)),
        waiters_exact(k.semaphore(id)) && k.down_spec(id, task_id).1.status != DEADLOCK
            ==> waiters_exact(k.down_spec(id, task_id).0.semaphore(id)),
        k.down_spec(id, task_id).0.semaphore(id).count == k.semaphore(id).count - 1,
        k.up_spec(id, task_id).0.semaphore(id).count == k.semaphore(id).count + 1,
{
    let s = k.semaphore(id);
    let t = k.task(task_id);
    lemma_named(k, id);
    // down
    let count = s.count - 1;
    if count >= 0 {
        let k1 = k.with_task(task_id, TaskView { semaphores: t.semaphores.push(Some(id)), ..t });
        assert(k1.semaphore_ids() =~= k.semaphore_ids());
        lemma_with_semaphore(
            k1,
            id,
            SemaphoreView { count, owners: s.owners.push(Some(task_id)), ..s },
        );
    } else if k.semaphore_cycle(id, task_id) {
        lemma_with_semaphore(k, id, SemaphoreView { count, ..s });
    } else {
        lemma_with_semaphore(k, id, SemaphoreView { count, waiters: s.waiters.push(task_id), ..s });
    }
    // up
    lemma_up_releases_one_count(k, id, task_id);
    let k1 = if s.owners.contains(Some(task_id)) {
        k.with_task(task_id, TaskView { semaphores: vacated_first(t.semaphores, id), ..t })
    } else {
        k
    };
    assert(k1.semaphore_ids() =~= k.semaphore_ids());
    let owners = vacated_first(s.owners, task_id);
    let up = s.count + 1;
    if up <= 0 && s.waiters.len() > 0 {
        lemma_with_semaphore(
            k1,
            id,
            SemaphoreView {
                count: up,
                owners: owners.push(Some(s.waiters[0])),
                waiters: s.waiters.subrange(1, s.waiters.len() as int),
                ..s
            },
        );
    } else {
        lemma_with_semaphore(k1, id, SemaphoreView { count: up, owners, ..s });
    }
}


/// One call on a blocking mutex, with the task that makes it.
pub enum MutexCall {
    /// `lock` by the task.
    Lock(usize),
    /// `unlock` by the task.
    Unlock(usize),
}

/// The kernel after one call on the mutex `id`, and the tasks that then
/// take the mutex for theirs: a task does so from the moment `lock` tells
/// it so, or `unlock` wakes it, until it calls `unlock`.
pub open spec fn mutex_step(k: KernelView, id: usize, holders: Set<usize>, call: MutexCall) -> (
    KernelView,
    Set<usize>,
) {
    match call {
        MutexCall::Lock(t) => {
            let (k2, out) = MutexBlocking::lock_spec(k, id, t);
            (
                k2,
                if out == (Outcome { status: 0, action: Action::Continue }) {
                    holders.insert(t)
                } else {
                    holders
                },
            )
        },
        MutexCall::Unlock(t) => {
            let (k2, action) = MutexBlocking::unlock_spec(k, id, id, t);
            (
                k2,
                match action {
                    Action::Wake(w) => holders.remove(t).insert(w),
                    _ => holders.remove(t),
                },
            )
        },
    }
}

/// The kernel and the holders after the calls `calls`, made in this order.
pub open spec fn mutex_run(k: KernelView, id: usize, holders: Set<usize>, calls: Seq<MutexCall>) -> (
    KernelView,
    Set<usize>,
)
    decreases calls.len(),
{
    if calls.len() == 0 {
        (k, holders)
    } else {
        let (k1, h1) = mutex_run(k, id, holders, calls.drop_last());
        mutex_step(k1, id, h1, calls.last())
    }
}

/// Every `unlock` among `calls` is made by the task that owns the mutex at
/// that moment.
pub open spec fn released_by_owner(
    k: KernelView,
    id: usize,
    holders: Set<usize>,
    calls: Seq<MutexCall>,
) -> bool
    decreases calls.len(),
{
    if calls.len() == 0 {
        true
    } else {
        let (k1, h1) = mutex_run(k, id, holders, calls.drop_last());
        &&& released_by_owner(k, id, holders, calls.drop_last())
        &&& match calls.last() {
            MutexCall::Lock(t) => true,
            MutexCall::Unlock(t) => k1.mutex(id).locked && k1.mutex(id).owner == t,
        }
    }
}

/// The holders are the owner of a held mutex, and nobody for a free one.
pub open spec fn holders_are_owner(k: KernelView, id: usize, holders: Set<usize>) -> bool {
    holders == if k.mutex(id).locked {
        Set::<usize>::empty().insert(k.mutex(id).owner)
    } else {
        Set::<usize>::empty()
    }
}

/// Mutual exclusion over any run of calls: whatever tasks lock and unlock a
/// blocking mutex, in whatever order, as long as only its owner unlocks it,
/// at most one task takes the mutex for its own at any moment, and that is
/// the task the mutex records as its owner.
pub proof fn lemma_one_holder(k: KernelView, id: usize, holders: Set<usize>, calls: Seq<MutexCall>)
    requires
        k.has_mutex(id),
        holders_are_owner(k, id, holders),
        released_by_owner(k, id, holders, calls),
    ensures
        mutex_run(k, id, holders, calls).0.has_mutex(id),
        holders_are_owner(
            mutex_run(k, id, holders, calls).0,
            id,
            mutex_run(k, id, holders, calls).1,
        ),
        forall|a: usize, b: usize|
            mutex_run(k, id, holders, calls).1.contains(a) && mutex_run(
                k,
                id,
                holders,
                calls,
            ).1.contains(b) ==> a == b,
    decreases calls.len(),
{
    if calls.len() > 0 {
        lemma_one_holder(k, id, holders, calls.drop_last());
        let (k1, h1) = mutex_run(k, id, holders, calls.drop_last());
        let m = k1.mutex(id);
        lemma_named(k1, id);
        match calls.last() {
            MutexCall::Lock(t) => {
                let task = k1.task(t);
                let k1t = k1.listing_mutex(t, id);
                assert(k1t.mutex_ids() =~= k1.mutex_ids());
                if m.locked {
                    if m.owner == t || k1.mutex_cycle(id, t) {
                    } else {
                        lemma_with_mutex(k1t, id, MutexView { waiters: m.waiters.push(t), ..m });
                    }
                } else {
                    lemma_with_mutex(k1t, id, MutexView { locked: true, owner: t, ..m });
                    assert(h1.insert(t) =~= Set::<usize>::empty().insert(t));
                }
            },
            MutexCall::Unlock(t) => {
                let task = k1.task(t);
                let k1t = k1.with_task(t, TaskView { mutexes: vacated(task.mutexes, id), ..task });
                assert(k1t.mutex_ids() =~= k1.mutex_ids());
                if m.waiters.len() > 0 {
                    let w = m.waiters[0];
                    lemma_with_mutex(
                        k1t,
                        id,
                        MutexView {
                            owner: w,
                            waiters: m.waiters.subrange(1, m.waiters.len() as int),
                            ..m
                        },
                    );
                    assert(h1.remove(t).insert(w) =~= Set::<usize>::empty().insert(w));
                } else {
                    lemma_with_mutex(k1t, id, MutexView { locked: false, ..m });
                    assert(h1.remove(t) =~= Set::<usize>::empty());
                }
            },
        }
    }
}


/// Every table names after `down` and after `up` what it named before.
pub proof fn lemma_semaphore_calls_keep_names(k: KernelView, id: usize, task_id: usize)
    requires
        k.has_semaphore(id),
        k.has_task(task_id),
    ensures
        k.down_spec(id, task_id).0.task_ids() == k.task_ids(),
        k.down_spec(id, task_id).0.semaphore_ids() == k.semaphore_ids(),
        k.down_spec(id, task_id).0.mutexes == k.mutexes,
        k.down_spec(id, task_id).0.spins == k.spins,
        k.up_spec(id, task_id).0.task_ids() == k.task_ids(),
        k.up_spec(id, task_id).0.semaphore_ids() == k.semaphore_ids(),
        k.up_spec(id, task_id).0.mutexes == k.mutexes,
        k.up_spec(id, task_id).0.spins == k.spins,
{
    let s = k.semaphore(id);
    let t = k.task(task_id);
    lemma_named(k, id);
    lemma_named(k, task_id);
    let count = s.count - 1;
    if count >= 0 {
        let t1 = TaskView { semaphores: t.semaphores.push(Some(id)), ..t };
        let k1 = k.with_task(task_id, t1);
        lemma_with_task(k, task_id, t1);
        assert(k1.semaphore_ids() =~= k.semaphore_ids());
        let s1 = SemaphoreView { count, owners: s.owners.push(Some(task_id)), ..s };
        lemma_with_semaphore(k1, id, s1);
        assert(k1.with_semaphore(id, s1).task_ids() =~= k1.task_ids());
    } else if k.semaphore_cycle(id, task_id) {
        lemma_with_semaphore(k, id, SemaphoreView { count, ..s });
        assert(k.with_semaphore(id, SemaphoreView { count, ..s }).task_ids() =~= k.task_ids());
    } else {
        let s1 = SemaphoreView { count, waiters: s.waiters.push(task_id), ..s };
        lemma_with_semaphore(k, id, s1);
        assert(k.with_semaphore(id, s1).task_ids() =~= k.task_ids());
    }
    let t2 = TaskView { semaphores: vacated_first(t.semaphores, id), ..t };
    lemma_with_task(k, task_id, t2);
    let k1 = if s.owners.contains(Some(task_id)) {
        k.with_task(task_id, t2)
    } else {
        k
    };
    assert(k1.semaphore_ids() =~= k.semaphore_ids());
    let owners = vacated_first(s.owners, task_id);
    let up = s.count + 1;
    let s2 = if up <= 0 && s.waiters.len() > 0 {
        SemaphoreView {
            count: up,
            owners: owners.push(Some(s.waiters[0])),
            waiters: s.waiters.subrange(1, s.waiters.len() as int),
            ..s
        }
    } else {
        SemaphoreView { count: up, owners, ..s }
    };
    lemma_with_semaphore(k1, id, s2);
    assert(k1.with_semaphore(id, s2).task_ids() =~= k1.task_ids());
}

} // verus!
