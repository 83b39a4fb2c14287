//! The counting semaphore.

use crate::graph::ResourceKind;
use crate::kernel::{lemma_first_place, Kernel, KernelView};
use crate::sync::{Action, Outcome};
use crate::task::task::{vacate_first, vacated_first, TaskView};
use crate::DEADLOCK;
use std::collections::VecDeque;
use vstd::prelude::*;

verus! {

/// The state of a semaphore.
#[derive(Clone, Debug)]
pub struct SemaphoreInner {
    /// Units left while positive; below zero, how many `down` calls have not
    /// been granted a unit.
    pub count: isize,
    /// The ids of the tasks that hold a unit, one entry for each unit; a
    /// released entry is `None`.
    pub owner_queue: VecDeque<Option<usize>>,
    /// The ids of the tasks that wait for a unit, the longest waiting first.
    pub wait_queue: VecDeque<usize>,
}

/// A semaphore with a fixed number of units.
#[derive(Clone, Debug)]
pub struct Semaphore {
    /// The label by which tasks name this semaphore.
    pub id: usize,
    /// The semaphore's state.
    pub inner: SemaphoreInner,
}

/// The mathematical value of a [`Semaphore`].
pub struct SemaphoreView {
    pub id: usize,
    pub count: int,
    pub owners: Seq<Option<usize>>,
    pub waiters: Seq<usize>,
}

impl View for Semaphore {
    type V = SemaphoreView;

    open spec fn view(&self) -> SemaphoreView {
        SemaphoreView {
            id: self.id,
            count: self.inner.count as int,
            owners: self.inner.owner_queue@,
            waiters: self.inner.wait_queue@,
        }
    }
}

impl Semaphore {
    /// A semaphore with `res_count` units, none of them taken.
    pub fn new(id: usize, res_count: usize) -> (s: Self)
        requires
            res_count <= isize::MAX,
        ensures
            s@ == (SemaphoreView {
                id,
                count: res_count as int,
                owners: Seq::empty(),
                waiters: Seq::empty(),
            }),
    {
        Semaphore {
            id,
            inner: SemaphoreInner {
                count: res_count as isize,
                owner_queue: VecDeque::new(),
                wait_queue: VecDeque::new(),
            },
        }
    }
}


/// Vacates the first slot of `queue` that holds `id`, and tells whether there
/// was one.
fn vacate_first_owner(queue: &mut VecDeque<Option<usize>>, id: usize) -> (found: bool)
    ensures
        found == old(queue)@.contains(Some(id)),
        final(queue)@ == vacated_first(old(queue)@, id),
{
    let n: usize = queue.len();
    let mut i: usize = 0;
    while i < n
        invariant
            n == queue@.len(),
            queue@ == old(queue)@,
            i <= n,
            forall|j: int| 0 <= j < i ==> queue@[j] != Some(id),
        decreases n - i,
    {
        if queue[i] == Some(id) {
            proof {
                lemma_first_place(queue@, Some(id), i as int);
            }
            queue.remove(i);
            queue.insert(i, None);
            assert(queue@ =~= old(queue)@.update(i as int, None));
            return true;
        }
        i += 1;
    }
    false
}

impl KernelView {
    /// Blocking on the semaphore `id` would make the task `task_id` wait for
    /// itself.
    pub open spec fn semaphore_cycle(self, id: usize, task_id: usize) -> bool {
        self.reaches(ResourceKind::Semaphore, id, task_id, Seq::empty(), Seq::empty())
    }

    /// The kernel and the outcome after the task `task_id` has called `down`
    /// on the semaphore `id`. The counter goes down by one in every case.
    /// Where a unit was left, the task owns it and lists the semaphore. Else
    /// the call is refused where the task would wait for itself, and the task
    /// joins the queue and blocks where it would not.
    pub open spec fn down_spec(self, id: usize, task_id: usize) -> (KernelView, Outcome) {
        let s = self.semaphore(id);
        let t = self.task(task_id);
        let count = s.count - 1;
        if count >= 0 {
            (
                self.with_task(
                    task_id,
                    TaskView { semaphores: t.semaphores.push(Some(id)), ..t },
                ).with_semaphore(
                    id,
                    SemaphoreView { count, owners: s.owners.push(Some(task_id)), ..s },
                ),
                Outcome { status: 0, action: Action::Continue },
            )
        } else if self.semaphore_cycle(id, task_id) {
            (
                self.with_semaphore(id, SemaphoreView { count, ..s }),
                Outcome { status: DEADLOCK, action: Action::Continue },
            )
        } else {
            (
                self.with_semaphore(
                    id,
                    SemaphoreView { count, waiters: s.waiters.push(task_id), ..s },
                ),
                Outcome { status: 0, action: Action::Block },
            )
        }
    }

    /// The kernel after the task `task_id` has called `up` on the semaphore
    /// `id`, and what the scheduler has to do. One owner's entry of the task
    /// goes, and with it one entry of the semaphore on the task's list; a
    /// task that owns no unit loses nothing. The counter goes up by one.
    /// Where it is not above zero after that, the longest waiting task
    /// becomes an owner and is woken.
    pub open spec fn up_spec(self, id: usize, task_id: usize) -> (KernelView, Action) {
        let s = self.semaphore(id);
        let t = self.task(task_id);
        let owners = vacated_first(s.owners, task_id);
        let k1 = if s.owners.contains(Some(task_id)) {
            self.with_task(task_id, TaskView { semaphores: vacated_first(t.semaphores, id), ..t })
        } else {
            self
        };
        let count = s.count + 1;
        if count <= 0 && s.waiters.len() > 0 {
            (
                k1.with_semaphore(
                    id,
                    SemaphoreView {
                        count,
                        owners: owners.push(Some(s.waiters[0])),
                        waiters: s.waiters.subrange(1, s.waiters.len() as int),
                        ..s
                    },
                ),
                Action::Wake(s.waiters[0]),
            )
        } else {
            (k1.with_semaphore(id, SemaphoreView { count, owners, ..s }), Action::Continue)
        }
    }
}

impl Semaphore {
    /// Tells whether the task `task_id` would wait for itself if it waited
    /// for the semaphore `id`. Semaphores in `sema_vis` and tasks in
    /// `task_vis` count as looked at already; the search adds to them what
    /// it looks at.
    pub fn dfs_dead(
        kernel: &Kernel,
        id: usize,
        task_id: usize,
        sema_vis: &mut Vec<usize>,
        task_vis: &mut Vec<usize>,
    ) -> (found: bool)
        ensures
            found == kernel@.reaches(
                ResourceKind::Semaphore,
                id,
                task_id,
                old(sema_vis)@,
                old(task_vis)@,
            ),
            kernel@.marks_after(
                ResourceKind::Semaphore,
                id,
                found,
                old(sema_vis)@,
                old(task_vis)@,
                final(sema_vis)@,
                final(task_vis)@,
            ),
    {
        kernel.search(ResourceKind::Semaphore, id, task_id, sema_vis, task_vis)
    }

    /// Tells whether the task `task_id` would wait for itself if it waited
    /// for the semaphore `id`.
    pub fn has_dead(kernel: &Kernel, id: usize, task_id: usize) -> (found: bool)
        ensures
            found == kernel@.semaphore_cycle(id, task_id),
    {
        let mut sema_vis: Vec<usize> = Vec::new();
        let mut task_vis: Vec<usize> = Vec::new();
        Semaphore::dfs_dead(kernel, id, task_id, &mut sema_vis, &mut task_vis)
    }

    /// Releases one unit of the semaphore `id` that the task `task_id` holds,
    /// and hands it to the longest waiting task where one waits.
    pub fn up(kernel: &mut Kernel, id: usize, task_id: usize) -> (action: Action)
        requires
            old(kernel)@.has_semaphore(id),
            old(kernel)@.has_task(task_id),
            old(kernel)@.semaphore(id).count < isize::MAX,
        ensures
            final(kernel)@ == old(kernel)@.up_spec(id, task_id).0,
            action == old(kernel)@.up_spec(id, task_id).1,
    {
        let ghost k = kernel@;
        let si = kernel.find_semaphore(id).unwrap();
        let ti = kernel.find_task(task_id).unwrap();
        proof {
            lemma_first_place(k.semaphore_ids(), id, si as int);
            lemma_first_place(k.task_ids(), task_id, ti as int);
        }
        let ghost s = k.semaphore(id);
        let ghost t = k.task(task_id);
        if vacate_first_owner(&mut kernel.semaphores[si].inner.owner_queue, task_id) {
            vacate_first(&mut kernel.tasks[ti].sema_list, id);
        }
        let ghost k1 = if s.owners.contains(Some(task_id)) {
            k.with_task(task_id, TaskView { semaphores: vacated_first(t.semaphores, id), ..t })
        } else {
            k
        };
        proof {
            assert(k1.semaphore_ids() =~= k.semaphore_ids());
            assert(kernel@.tasks =~= k1.tasks);
        }
        kernel.semaphores[si].inner.count += 1;
        if kernel.semaphores[si].inner.count <= 0 {
            match kernel.semaphores[si].inner.wait_queue.pop_front() {
                Some(task) => {
                    kernel.semaphores[si].inner.owner_queue.push_back(Some(task));
                    proof {
                        let e = k.up_spec(id, task_id).0;
                        assert(kernel@.tasks =~= e.tasks);
                        assert(kernel@.semaphores =~= e.semaphores);
                        assert(kernel@.spins =~= e.spins);
                        assert(kernel@.mutexes =~= e.mutexes);
                    }
                    return Action::Wake(task);
                },
                None => {},
            }
        }
        proof {
            let e = k.up_spec(id, task_id).0;
            assert(kernel@.tasks =~= e.tasks);
            assert(kernel@.semaphores =~= e.semaphores);
            assert(kernel@.spins =~= e.spins);
            assert(kernel@.mutexes =~= e.mutexes);
        }
        Action::Continue
    }

    /// Takes one unit of the semaphore `id` for the task `task_id`, or says
    /// why the task has none yet.
    pub fn down(kernel: &mut Kernel, id: usize, task_id: usize) -> (out: Outcome)
        requires
            old(kernel)@.has_semaphore(id),
            old(kernel)@.has_task(task_id),
            old(kernel)@.semaphore(id).count > isize::MIN,
        ensures
            final(kernel)@ == old(kernel)@.down_spec(id, task_id).0,
            out == old(kernel)@.down_spec(id, task_id).1,
    {
        let ghost k = kernel@;
        let si = kernel.find_semaphore(id).unwrap();
        let ti = kernel.find_task(task_id).unwrap();
        proof {
            lemma_first_place(k.semaphore_ids(), id, si as int);
            lemma_first_place(k.task_ids(), task_id, ti as int);
        }
        let dead = kernel.semaphores[si].inner.count <= 0 && Semaphore::has_dead(
            kernel,
            id,
            task_id,
        );
        kernel.semaphores[si].inner.count -= 1;
        if kernel.semaphores[si].inner.count < 0 {
            if dead {
                proof {
                    let e = k.down_spec(id, task_id).0;
                    assert(kernel@.tasks =~= e.tasks);
                    assert(kernel@.semaphores =~= e.semaphores);
                    assert(kernel@.spins =~= e.spins);
                    assert(kernel@.mutexes =~= e.mutexes);
                }
                return Outcome { status: DEADLOCK, action: Action::Continue };
            }
            kernel.semaphores[si].inner.wait_queue.push_back(task_id);
            proof {
                let e = k.down_spec(id, task_id).0;
                assert(kernel@.tasks =~= e.tasks);
                assert(kernel@.semaphores =~= e.semaphores);
                assert(kernel@.spins =~= e.spins);
                assert(kernel@.mutexes =~= e.mutexes);
            }
            Outcome { status: 0, action: Action::Block }
        } else {
            kernel.tasks[ti].sema_list.push(Some(id));
            kernel.semaphores[si].inner.owner_queue.push_back(Some(task_id));
            proof {
                let e = k.down_spec(id, task_id).0;
                let k1 = k.with_task(
                    task_id,
                    TaskView { semaphores: k.task(task_id).semaphores.push(Some(id)), ..k.task(task_id) },
                );
                assert(k1.semaphore_ids() =~= k.semaphore_ids());
                assert(kernel@.tasks =~= e.tasks);
                assert(kernel@.semaphores =~= e.semaphores);
                assert(kernel@.spins =~= e.spins);
                assert(kernel@.mutexes =~= e.mutexes);
            }
            Outcome { status: 0, action: Action::Continue }
        }
    }
}

} // verus!
