//! The tables of tasks, mutexes and semaphores, and how an id finds its entry.

use crate::sync::mutex::{MutexBlocking, MutexSpin, MutexView};
use crate::sync::semaphore::{Semaphore, SemaphoreView};
use crate::task::task::{TaskControlBlock, TaskView};
use vstd::prelude::*;

verus! {

/// Everything the synchronisation primitives read and change. An id names the
/// first entry of its table that carries it.
#[derive(Clone, Debug)]
pub struct Kernel {
    /// The tasks.
    pub tasks: Vec<TaskControlBlock>,
    /// The spinning mutexes, named by their place in this table.
    pub spins: Vec<MutexSpin>,
    /// The blocking mutexes.
    pub mutexes: Vec<MutexBlocking>,
    /// The semaphores.
    pub semaphores: Vec<Semaphore>,
}

/// The mathematical value of a [`Kernel`].
pub struct KernelView {
    pub tasks: Seq<TaskView>,
    pub spins: Seq<bool>,
    pub mutexes: Seq<MutexView>,
    pub semaphores: Seq<SemaphoreView>,
}

impl View for Kernel {
    type V = KernelView;

    open spec fn view(&self) -> KernelView {
        KernelView {
            tasks: Seq::new(self.tasks@.len(), |i: int| self.tasks@[i]@),
            spins: Seq::new(self.spins@.len(), |i: int| self.spins@[i].locked),
            mutexes: Seq::new(self.mutexes@.len(), |i: int| self.mutexes@[i]@),
            semaphores: Seq::new(self.semaphores@.len(), |i: int| self.semaphores@[i]@),
        }
    }
}

/// `i` is the first place in `ids` that holds `id`.
pub open spec fn is_first<A>(ids: Seq<A>, id: A, i: int) -> bool {
    &&& 0 <= i < ids.len()
    &&& ids[i] == id
    &&& forall|j: int| 0 <= j < i ==> ids[j] != id
}

/// The first place in `ids` that holds `id`, where there is one.
pub open spec fn first_place<A>(ids: Seq<A>, id: A) -> int {
    choose|i: int| is_first(ids, id, i)
}

/// A first place is the only first place.
pub proof fn lemma_first_place<A>(ids: Seq<A>, id: A, i: int)
    requires
        is_first(ids, id, i),
    ensures
        first_place(ids, id) == i,
        ids.contains(id),
{
    let c = first_place(ids, id);
    assert(is_first(ids, id, c));
    if c < i {
        assert(ids[c] != id);
    }
    if i < c {
        assert(ids[i] != id);
    }
}

/// An id that occurs has a first place.
pub proof fn lemma_contains_first<A>(ids: Seq<A>, id: A)
    requires
        ids.contains(id),
    ensures
        is_first(ids, id, first_place(ids, id)),
{
    let w = choose|i: int| 0 <= i < ids.len() && ids[i] == id;
    lemma_first_below(ids, id, w);
}

/// Some first place lies at or below any place that holds `id`.
proof fn lemma_first_below<A>(ids: Seq<A>, id: A, n: int)
    requires
        0 <= n < ids.len(),
        ids[n] == id,
    ensures
        is_first(ids, id, first_place(ids, id)),
    decreases n,
{
    if exists|j: int| 0 <= j < n && ids[j] == id {
        let j = choose|j: int| 0 <= j < n && ids[j] == id;
        lemma_first_below(ids, id, j);
    } else {
        assert(is_first(ids, id, n));
    }
}

impl KernelView {
    /// The ids of the tasks, in table order.
    pub open spec fn task_ids(self) -> Seq<usize> {
        Seq::new(self.tasks.len(), |i: int| self.tasks[i].id)
    }

    /// The ids of the blocking mutexes, in table order.
    pub open spec fn mutex_ids(self) -> Seq<usize> {
        Seq::new(self.mutexes.len(), |i: int| self.mutexes[i].id)
    }

    /// The ids of the semaphores, in table order.
    pub open spec fn semaphore_ids(self) -> Seq<usize> {
        Seq::new(self.semaphores.len(), |i: int| self.semaphores[i].id)
    }

    /// Some task carries `id`.
    pub open spec fn has_task(self, id: usize) -> bool {
        self.task_ids().contains(id)
    }

    /// The task that `id` names.
    pub open spec fn task(self, id: usize) -> TaskView {
        self.tasks[first_place(self.task_ids(), id)]
    }

    /// Some blocking mutex carries `id`.
    pub open spec fn has_mutex(self, id: usize) -> bool {
        self.mutex_ids().contains(id)
    }

    /// The blocking mutex that `id` names.
    pub open spec fn mutex(self, id: usize) -> MutexView {
        self.mutexes[first_place(self.mutex_ids(), id)]
    }

    /// Some semaphore carries `id`.
    pub open spec fn has_semaphore(self, id: usize) -> bool {
        self.semaphore_ids().contains(id)
    }

    /// The semaphore that `id` names.
    pub open spec fn semaphore(self, id: usize) -> SemaphoreView {
        self.semaphores[first_place(self.semaphore_ids(), id)]
    }
}

impl KernelView {
    /// This kernel with `task` in the place of the task that `id` names.
    pub open spec fn with_task(self, id: usize, task: TaskView) -> KernelView {
        KernelView { tasks: self.tasks.update(first_place(self.task_ids(), id), task), ..self }
    }

    /// This kernel with `mutex` in the place of the blocking mutex that `id`
    /// names.
    pub open spec fn with_mutex(self, id: usize, mutex: MutexView) -> KernelView {
        KernelView {
            mutexes: self.mutexes.update(first_place(self.mutex_ids(), id), mutex),
            ..self
        }
    }

    /// This kernel with `semaphore` in the place of the semaphore that `id`
    /// names.
    pub open spec fn with_semaphore(self, id: usize, semaphore: SemaphoreView) -> KernelView {
        KernelView {
            semaphores: self.semaphores.update(
                first_place(self.semaphore_ids(), id),
                semaphore,
            ),
            ..self
        }
    }
}

impl Kernel {
    /// A kernel with empty tables.
    pub fn new() -> (kernel: Self)
        ensures
            kernel@.tasks.len() == 0,
            kernel@.spins.len() == 0,
            kernel@.mutexes.len() == 0,
            kernel@.semaphores.len() == 0,
    {
        Kernel { tasks: Vec::new(), spins: Vec::new(), mutexes: Vec::new(), semaphores: Vec::new() }
    }

    /// The place of the task that `id` names.
    pub fn find_task(&self, id: usize) -> (found: Option<usize>)
        ensures
            found is Some <==> self@.has_task(id),
            found is Some ==> is_first(self@.task_ids(), id, found->0 as int),
    {
        let n: usize = self.tasks.len();
        let mut i: usize = 0;
        while i < n
            invariant
                n == self.tasks@.len(),
                i <= n,
                forall|j: int| 0 <= j < i ==> self@.task_ids()[j] != id,
            decreases n - i,
        {
            if self.tasks[i].id == id {
                assert(is_first(self@.task_ids(), id, i as int));
                proof {
                    lemma_first_place(self@.task_ids(), id, i as int);
                }
                return Some(i);
            }
            i += 1;
        }
        None
    }

    /// The place of the blocking mutex that `id` names.
    pub fn find_mutex(&self, id: usize) -> (found: Option<usize>)
        ensures
            found is Some <==> self@.has_mutex(id),
            found is Some ==> is_first(self@.mutex_ids(), id, found->0 as int),
    {
        let n: usize = self.mutexes.len();
        let mut i: usize = 0;
        while i < n
            invariant
                n == self.mutexes@.len(),
                i <= n,
                forall|j: int| 0 <= j < i ==> self@.mutex_ids()[j] != id,
            decreases n - i,
        {
            if self.mutexes[i].id == id {
                assert(is_first(self@.mutex_ids(), id, i as int));
                proof {
                    lemma_first_place(self@.mutex_ids(), id, i as int);
                }
                return Some(i);
            }
            i += 1;
        }
        None
    }

    /// The place of the semaphore that `id` names.
    pub fn find_semaphore(&self, id: usize) -> (found: Option<usize>)
        ensures
            found is Some <==> self@.has_semaphore(id),
            found is Some ==> is_first(self@.semaphore_ids(), id, found->0 as int),
    {
        let n: usize = self.semaphores.len();
        let mut i: usize = 0;
        while i < n
            invariant
                n == self.semaphores@.len(),
                i <= n,
                forall|j: int| 0 <= j < i ==> self@.semaphore_ids()[j] != id,
            decreases n - i,
        {
            if self.semaphores[i].id == id {
                assert(is_first(self@.semaphore_ids(), id, i as int));
                proof {
                    lemma_first_place(self@.semaphore_ids(), id, i as int);
                }
                return Some(i);
            }
            i += 1;
        }
        None
    }
}


/// Replacing a task by one with the same id leaves every id where it was.
pub proof fn lemma_with_task(k: KernelView, id: usize, task: TaskView)
    requires
        k.has_task(id),
        task.id == id,
    ensures
        k.with_task(id, task).task_ids() == k.task_ids(),
        k.with_task(id, task).task(id) == task,
        forall|o: usize|
            k.has_task(o) && o != id ==> #[trigger] k.with_task(id, task).task(o) == k.task(o),
{
    let ids = k.task_ids();
    let k2 = k.with_task(id, task);
    lemma_contains_first(ids, id);
    assert(k2.task_ids() =~= ids);
    assert forall|o: usize| k.has_task(o) && o != id implies #[trigger] k2.task(o) == k.task(
        o,
    ) by {
        lemma_contains_first(ids, o);
    }
}

/// Replacing a blocking mutex by one with the same id leaves every id where
/// it was.
pub proof fn lemma_with_mutex(k: KernelView, id: usize, mutex: MutexView)
    requires
        k.has_mutex(id),
        mutex.id == id,
    ensures
        k.with_mutex(id, mutex).mutex_ids() == k.mutex_ids(),
        k.with_mutex(id, mutex).mutex(id) == mutex,
        forall|o: usize|
            k.has_mutex(o) && o != id ==> #[trigger] k.with_mutex(id, mutex).mutex(o) == k.mutex(
                o,
            ),
{
    let ids = k.mutex_ids();
    let k2 = k.with_mutex(id, mutex);
    lemma_contains_first(ids, id);
    assert(k2.mutex_ids() =~= ids);
    assert forall|o: usize| k.has_mutex(o) && o != id implies #[trigger] k2.mutex(o) == k.mutex(
        o,
    ) by {
        lemma_contains_first(ids, o);
    }
}

/// Replacing a semaphore by one with the same id leaves every id where it
/// was.
pub proof fn lemma_with_semaphore(k: KernelView, id: usize, semaphore: SemaphoreView)
    requires
        k.has_semaphore(id),
        semaphore.id == id,
    ensures
        k.with_semaphore(id, semaphore).semaphore_ids() == k.semaphore_ids(),
        k.with_semaphore(id, semaphore).semaphore(id) == semaphore,
        forall|o: usize|
            k.has_semaphore(o) && o != id ==> #[trigger] k.with_semaphore(id, semaphore).semaphore(
                o,
            ) == k.semaphore(o),
{
    let ids = k.semaphore_ids();
    let k2 = k.with_semaphore(id, semaphore);
    lemma_contains_first(ids, id);
    assert(k2.semaphore_ids() =~= ids);
    assert forall|o: usize| k.has_semaphore(o) && o != id implies #[trigger] k2.semaphore(o)
        == k.semaphore(o) by {
        lemma_contains_first(ids, o);
    }
}


/// What an id names carries that id.
pub proof fn lemma_named(k: KernelView, id: usize)
    ensures
        k.has_task(id) ==> k.task(id).id == id,
        k.has_mutex(id) ==> k.mutex(id).id == id,
        k.has_semaphore(id) ==> k.semaphore(id).id == id,
{
    if k.has_task(id) {
        lemma_contains_first(k.task_ids(), id);
    }
    if k.has_mutex(id) {
        lemma_contains_first(k.mutex_ids(), id);
    }
    if k.has_semaphore(id) {
        lemma_contains_first(k.semaphore_ids(), id);
    }
}

} // verus!
