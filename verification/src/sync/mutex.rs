//! Mutexes: one that spins, one that blocks and hands over in queue order.

use crate::graph::ResourceKind;
use crate::kernel::{lemma_first_place, Kernel, KernelView};
use crate::sync::{Action, Outcome};
use crate::task::task::{vacate, vacated, TaskView};
use crate::DEADLOCK;
use std::collections::VecDeque;
use vstd::prelude::*;

verus! {

/// A mutex that is polled: it knows no owner and keeps no queue.
#[derive(Clone, Debug)]
pub struct MutexSpin {
    /// Whether the mutex is held.
    pub locked: bool,
}

/// The state of a blocking mutex.
#[derive(Clone, Debug)]
pub struct MutexBlockingInner {
    /// Whether the mutex is held.
    pub locked: bool,
    /// The id of the task that holds it; it means something only while
    /// `locked` is true.
    pub owner: usize,
    /// The ids of the tasks that wait for it, the longest waiting first.
    pub wait_queue: VecDeque<usize>,
}

/// A mutex whose waiters sleep until the holder hands it over.
#[derive(Clone, Debug)]
pub struct MutexBlocking {
    /// The label by which tasks name this mutex; 0 until one is set.
    pub id: usize,
    /// The mutex's state.
    pub inner: MutexBlockingInner,
}

/// The mathematical value of a [`MutexBlocking`].
pub struct MutexView {
    pub id: usize,
    pub locked: bool,
    pub owner: usize,
    pub waiters: Seq<usize>,
}

impl View for MutexBlocking {
    type V = MutexView;

    open spec fn view(&self) -> MutexView {
        MutexView {
            id: self.id,
            locked: self.inner.locked,
            owner: self.inner.owner,
            waiters: self.inner.wait_queue@,
        }
    }
}

impl MutexSpin {
    /// A free spinning mutex.
    pub fn new() -> (m: Self)
        ensures
            !m.locked,
    {
        MutexSpin { locked: false }
    }
}

impl MutexBlocking {
    /// A free blocking mutex with no label yet. `owner` fills the owner's
    /// place until the first `lock`.
    pub fn new(owner: usize) -> (m: Self)
        ensures
            m@ == (MutexView { id: 0, locked: false, owner, waiters: Seq::empty() }),
    {
        MutexBlocking {
            id: 0,
            inner: MutexBlockingInner { locked: false, owner, wait_queue: VecDeque::new() },
        }
    }
}


/// What every mutex of the kernel offers. A mutex is named by a handle; the
/// calling task by its id.
pub trait Mutex {
    /// The task may call `lock` on the mutex that `handle` names.
    spec fn can_lock(k: KernelView, handle: usize, task_id: usize) -> bool;

    /// The kernel and the outcome after `lock`.
    spec fn lock_spec(k: KernelView, handle: usize, task_id: usize) -> (KernelView, Outcome);

    /// The task may call `unlock` on the mutex that `handle` names.
    spec fn can_unlock(k: KernelView, handle: usize, task_id: usize) -> bool;

    /// The kernel after `unlock`, and what the scheduler has to do.
    spec fn unlock_spec(k: KernelView, handle: usize, id: usize, task_id: usize) -> (
        KernelView,
        Action,
    );

    /// `handle` names a mutex whose label may be set.
    spec fn can_set_id(k: KernelView, handle: usize) -> bool;

    /// The kernel after `set_id`.
    spec fn set_id_spec(k: KernelView, handle: usize, id: usize) -> KernelView;

    /// Acquires the mutex for the task, or says why it is not the task's yet.
    fn lock(kernel: &mut Kernel, handle: usize, task_id: usize) -> (out: Outcome)
        requires
            Self::can_lock(old(kernel)@, handle, task_id),
        ensures
            final(kernel)@ == Self::lock_spec(old(kernel)@, handle, task_id).0,
            out == Self::lock_spec(old(kernel)@, handle, task_id).1,
    ;

    /// Releases the mutex; `id` is the label under which the task listed it.
    fn unlock(kernel: &mut Kernel, handle: usize, id: usize, task_id: usize) -> (action: Action)
        requires
            Self::can_unlock(old(kernel)@, handle, task_id),
        ensures
            final(kernel)@ == Self::unlock_spec(old(kernel)@, handle, id, task_id).0,
            action == Self::unlock_spec(old(kernel)@, handle, id, task_id).1,
    ;

    /// Gives the mutex its label.
    fn set_id(kernel: &mut Kernel, handle: usize, id: usize)
        requires
            Self::can_set_id(old(kernel)@, handle),
        ensures
            final(kernel)@ == Self::set_id_spec(old(kernel)@, handle, id),
    ;
}

impl Mutex for MutexSpin {
    /// A spinning mutex is named by its place in the table.
    open spec fn can_lock(k: KernelView, handle: usize, task_id: usize) -> bool {
        handle < k.spins.len()
    }

    /// A free mutex is taken. A held one is left as it is, and the caller
    /// yields and calls again.
    open spec fn lock_spec(k: KernelView, handle: usize, task_id: usize) -> (
        KernelView,
        Outcome,
    ) {
        if k.spins[handle as int] {
            (k, Outcome { status: 0, action: Action::Yield })
        } else {
            (
                KernelView { spins: k.spins.update(handle as int, true), ..k },
                Outcome { status: 0, action: Action::Continue },
            )
        }
    }

    open spec fn can_unlock(k: KernelView, handle: usize, task_id: usize) -> bool {
        handle < k.spins.len()
    }

    /// The mutex is free afterwards, whoever held it.
    open spec fn unlock_spec(k: KernelView, handle: usize, id: usize, task_id: usize) -> (
        KernelView,
        Action,
    ) {
        (KernelView { spins: k.spins.update(handle as int, false), ..k }, Action::Continue)
    }

    open spec fn can_set_id(k: KernelView, handle: usize) -> bool {
        handle < k.spins.len()
    }

    /// A spinning mutex carries no label.
    open spec fn set_id_spec(k: KernelView, handle: usize, id: usize) -> KernelView {
        k
    }

    fn lock(kernel: &mut Kernel, handle: usize, task_id: usize) -> (out: Outcome) {
        if kernel.spins[handle].locked {
            assert(kernel@.spins[handle as int]);
            Outcome { status: 0, action: Action::Yield }
        } else {
            assert(!kernel@.spins[handle as int]);
            kernel.spins[handle].locked = true;
            assert(kernel@.spins =~= old(kernel)@.spins.update(handle as int, true));
            assert(kernel@.tasks =~= old(kernel)@.tasks);
            assert(kernel@.mutexes =~= old(kernel)@.mutexes);
            assert(kernel@.semaphores =~= old(kernel)@.semaphores);
            Outcome { status: 0, action: Action::Continue }
        }
    }

    fn unlock(kernel: &mut Kernel, handle: usize, id: usize, task_id: usize) -> (action: Action) {
        kernel.spins[handle].locked = false;
        assert(kernel@.spins =~= old(kernel)@.spins.update(handle as int, false));
        assert(kernel@.tasks =~= old(kernel)@.tasks);
        assert(kernel@.mutexes =~= old(kernel)@.mutexes);
        assert(kernel@.semaphores =~= old(kernel)@.semaphores);
        Action::Continue
    }

    fn set_id(kernel: &mut Kernel, handle: usize, id: usize) {
    }
}

impl KernelView {
    /// The task `task_id` with the mutex `id` added to its list.
    pub open spec fn listing_mutex(self, task_id: usize, id: usize) -> KernelView {
        let t = self.task(task_id);
        self.with_task(task_id, TaskView { mutexes: t.mutexes.push(Some(id)), ..t })
    }

    /// Blocking on the mutex `id` would make the task `task_id` wait for
    /// itself.
    pub open spec fn mutex_cycle(self, id: usize, task_id: usize) -> bool {
        self.reaches(ResourceKind::Mutex, id, task_id, Seq::empty(), Seq::empty())
    }
}

impl MutexBlocking {
    /// Tells whether the task `task_id` would wait for itself if it waited
    /// for the mutex `id`. Mutexes in `mutex_vis` and tasks in `task_vis` count
    /// as looked at already; the search adds to them what it looks at.
    pub fn has_circle(
        kernel: &Kernel,
        id: usize,
        task_id: usize,
        mutex_vis: &mut Vec<usize>,
        task_vis: &mut Vec<usize>,
    ) -> (found: bool)
        ensures
            found == kernel@.reaches(
                ResourceKind::Mutex,
                id,
                task_id,
                old(mutex_vis)@,
                old(task_vis)@,
            ),
            kernel@.marks_after(
                ResourceKind::Mutex,
                id,
                found,
                old(mutex_vis)@,
                old(task_vis)@,
                final(mutex_vis)@,
                final(task_vis)@,
            ),
    {
        kernel.search(ResourceKind::Mutex, id, task_id, mutex_vis, task_vis)
    }
}

impl Mutex for MutexBlocking {
    /// A blocking mutex is named by its label, and the caller is a task of
    /// the kernel.
    open spec fn can_lock(k: KernelView, handle: usize, task_id: usize) -> bool {
        k.has_mutex(handle) && k.has_task(task_id)
    }

    /// A free mutex becomes the caller's, who lists it. A held one is
    /// refused where the caller holds it or would wait for itself; else the
    /// caller lists it, joins the queue and blocks.
    open spec fn lock_spec(k: KernelView, handle: usize, task_id: usize) -> (
        KernelView,
        Outcome,
    ) {
        let m = k.mutex(handle);
        if m.locked {
            if m.owner == task_id || k.mutex_cycle(handle, task_id) {
                (k, Outcome { status: DEADLOCK, action: Action::Continue })
            } else {
                (
                    k.listing_mutex(task_id, handle).with_mutex(
                        handle,
                        MutexView { waiters: m.waiters.push(task_id), ..m },
                    ),
                    Outcome { status: 0, action: Action::Block },
                )
            }
        } else {
            (
                k.listing_mutex(task_id, handle).with_mutex(
                    handle,
                    MutexView { locked: true, owner: task_id, ..m },
                ),
                Outcome { status: 0, action: Action::Continue },
            )
        }
    }

    /// Only a held mutex is released.
    open spec fn can_unlock(k: KernelView, handle: usize, task_id: usize) -> bool {
        k.has_mutex(handle) && k.has_task(task_id) && k.mutex(handle).locked
    }

    /// The caller no longer lists `id`. The mutex goes to the longest
    /// waiting task, which is woken; with nobody waiting it is free.
    open spec fn unlock_spec(k: KernelView, handle: usize, id: usize, task_id: usize) -> (
        KernelView,
        Action,
    ) {
        let t = k.task(task_id);
        let m = k.mutex(handle);
        let k1 = k.with_task(task_id, TaskView { mutexes: vacated(t.mutexes, id), ..t });
        if m.waiters.len() > 0 {
            (
                k1.with_mutex(
                    handle,
                    MutexView {
                        owner: m.waiters[0],
                        waiters: m.waiters.subrange(1, m.waiters.len() as int),
                        ..m
                    },
                ),
                Action::Wake(m.waiters[0]),
            )
        } else {
            (k1.with_mutex(handle, MutexView { locked: false, ..m }), Action::Continue)
        }
    }

    open spec fn can_set_id(k: KernelView, handle: usize) -> bool {
        k.has_mutex(handle)
    }

    /// The mutex that `handle` named carries `id` afterwards.
    open spec fn set_id_spec(k: KernelView, handle: usize, id: usize) -> KernelView {
        k.with_mutex(handle, MutexView { id, ..k.mutex(handle) })
    }

    fn lock(kernel: &mut Kernel, handle: usize, task_id: usize) -> (out: Outcome) {
        let ghost k = kernel@;
        let mi = kernel.find_mutex(handle).unwrap();
        let ti = kernel.find_task(task_id).unwrap();
        proof {
            lemma_first_place(k.mutex_ids(), handle, mi as int);
            lemma_first_place(k.task_ids(), task_id, ti as int);
        }
        if kernel.mutexes[mi].inner.locked {
            let mut mutex_vis: Vec<usize> = Vec::new();
            let mut task_vis: Vec<usize> = Vec::new();
            if kernel.mutexes[mi].inner.owner == task_id || MutexBlocking::has_circle(
                kernel,
                handle,
                task_id,
                &mut mutex_vis,
                &mut task_vis,
            ) {
                return Outcome { status: DEADLOCK, action: Action::Continue };
            }
            kernel.tasks[ti].block_mutex_list.push(Some(handle));
            kernel.mutexes[mi].inner.wait_queue.push_back(task_id);
            proof {
                let e = MutexBlocking::lock_spec(k, handle, task_id).0;
                assert(k.listing_mutex(task_id, handle).mutex_ids() =~= k.mutex_ids());
                assert(kernel@.tasks =~= e.tasks);
                assert(kernel@.mutexes =~= e.mutexes);
                assert(kernel@.spins =~= e.spins);
                assert(kernel@.semaphores =~= e.semaphores);
            }
            Outcome { status: 0, action: Action::Block }
        } else {
            kernel.tasks[ti].block_mutex_list.push(Some(handle));
            kernel.mutexes[mi].inner.owner = task_id;
            kernel.mutexes[mi].inner.locked = true;
            proof {
                let e = MutexBlocking::lock_spec(k, handle, task_id).0;
                assert(k.listing_mutex(task_id, handle).mutex_ids() =~= k.mutex_ids());
                assert(kernel@.tasks =~= e.tasks);
                assert(kernel@.mutexes =~= e.mutexes);
                assert(kernel@.spins =~= e.spins);
                assert(kernel@.semaphores =~= e.semaphores);
            }
            Outcome { status: 0, action: Action::Continue }
        }
    }

    fn unlock(kernel: &mut Kernel, handle: usize, id: usize, task_id: usize) -> (action: Action) {
        let ghost k = kernel@;
        let mi = kernel.find_mutex(handle).unwrap();
        let ti = kernel.find_task(task_id).unwrap();
        proof {
            lemma_first_place(k.mutex_ids(), handle, mi as int);
            lemma_first_place(k.task_ids(), task_id, ti as int);
        }
        vacate(&mut kernel.tasks[ti].block_mutex_list, id);
        let ghost t = k.task(task_id);
        let ghost k1 = k.with_task(task_id, TaskView { mutexes: vacated(t.mutexes, id), ..t });
        proof {
            assert(k1.mutex_ids() =~= k.mutex_ids());
        }
        match kernel.mutexes[mi].inner.wait_queue.pop_front() {
            Some(waking_task) => {
                kernel.mutexes[mi].inner.owner = waking_task;
                proof {
                    let e = MutexBlocking::unlock_spec(k, handle, id, task_id).0;
                    assert(kernel@.tasks =~= e.tasks);
                    assert(kernel@.mutexes =~= e.mutexes);
                    assert(kernel@.spins =~= e.spins);
                    assert(kernel@.semaphores =~= e.semaphores);
                }
                Action::Wake(waking_task)
            },
            None => {
                kernel.mutexes[mi].inner.locked = false;
                proof {
                    let e = MutexBlocking::unlock_spec(k, handle, id, task_id).0;
                    assert(kernel@.tasks =~= e.tasks);
                    assert(kernel@.mutexes =~= e.mutexes);
                    assert(kernel@.spins =~= e.spins);
                    assert(kernel@.semaphores =~= e.semaphores);
                }
                Action::Continue
            },
        }
    }

    fn set_id(kernel: &mut Kernel, handle: usize, id: usize) {
        let ghost k = kernel@;
        let mi = kernel.find_mutex(handle).unwrap();
        proof {
            lemma_first_place(k.mutex_ids(), handle, mi as int);
        }
        kernel.mutexes[mi].id = id;
        proof {
            let e = MutexBlocking::set_id_spec(k, handle, id);
            assert(kernel@.tasks =~= e.tasks);
            assert(kernel@.mutexes =~= e.mutexes);
            assert(kernel@.spins =~= e.spins);
            assert(kernel@.semaphores =~= e.semaphores);
        }
    }
}

} // verus!
