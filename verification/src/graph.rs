//! The wait-for graph of tasks and resources, and the search that tells
//! whether a task would block into a cycle.

use crate::kernel::{lemma_first_place, Kernel, KernelView};
use std::collections::VecDeque;
use vstd::prelude::*;
use vstd::seq_lib::seq_to_set_is_finite;
use vstd::set_lib::lemma_len_subset;

verus! {

/// The two kinds of resource a task can hold or wait for.
#[derive(Copy, Clone, PartialEq, Eq, Structural, Debug)]
pub enum ResourceKind {
    /// A blocking mutex.
    Mutex,
    /// A counting semaphore.
    Semaphore,
}

impl KernelView {
    /// The ids of the resources of one kind, in table order.
    pub open spec fn resource_ids(self, kind: ResourceKind) -> Seq<usize> {
        match kind {
            ResourceKind::Mutex => self.mutex_ids(),
            ResourceKind::Semaphore => self.semaphore_ids(),
        }
    }

    /// Some resource of this kind carries `r`.
    pub open spec fn has_resource(self, kind: ResourceKind, r: usize) -> bool {
        self.resource_ids(kind).contains(r)
    }

    /// Task `t` is recorded as an owner of resource `r`: the edge from a
    /// resource to a task.
    pub open spec fn owns(self, kind: ResourceKind, t: usize, r: usize) -> bool {
        match kind {
            ResourceKind::Mutex => self.has_mutex(r) && self.mutex(r).locked && self.mutex(
                r,
            ).owner == t,
            ResourceKind::Semaphore => self.has_semaphore(r) && self.semaphore(r).owners.contains(
                Some(t),
            ),
        }
    }

    /// Task `t` lists resource `r` among those it holds or means to hold: the
    /// edge from a task to a resource.
    pub open spec fn lists(self, kind: ResourceKind, t: usize, r: usize) -> bool {
        self.has_task(t) && match kind {
            ResourceKind::Mutex => self.task(t).mutexes.contains(Some(r)),
            ResourceKind::Semaphore => self.task(t).semaphores.contains(Some(r)),
        }
    }

    /// `p` and `q` are the resources and the tasks of a walk that starts at the
    /// resource `start`: task `q[i]` owns `p[i]` and lists `p[i + 1]`. The
    /// walk keeps off the resources in `res_avoid` and the tasks in
    /// `task_avoid`.
    pub open spec fn walk(
        self,
        kind: ResourceKind,
        start: usize,
        res_avoid: Seq<usize>,
        task_avoid: Seq<usize>,
        p: Seq<usize>,
        q: Seq<usize>,
    ) -> bool {
        &&& p.len() == q.len() + 1
        &&& p[0] == start
        &&& forall|i: int| 0 <= i < p.len() ==> !res_avoid.contains(#[trigger] p[i])
        &&& forall|i: int| 0 <= i < q.len() ==> !task_avoid.contains(#[trigger] q[i])
        &&& forall|i: int| 0 <= i < q.len() ==> self.owns(kind, #[trigger] q[i], p[i])
        &&& forall|i: int| 0 <= i < q.len() ==> self.lists(kind, #[trigger] q[i], p[i + 1])
    }

    /// Some walk from `start` ends at the resource `x`.
    pub open spec fn walk_to(
        self,
        kind: ResourceKind,
        start: usize,
        x: usize,
        res_avoid: Seq<usize>,
        task_avoid: Seq<usize>,
    ) -> bool {
        exists|p: Seq<usize>, q: Seq<usize>|
            self.walk(kind, start, res_avoid, task_avoid, p, q) && p.last() == x
    }

    /// Some walk from the resource `start` ends at a resource that the task
    /// `target` owns: were `target` to wait for `start`, it would wait for
    /// itself.
    pub open spec fn reaches(
        self,
        kind: ResourceKind,
        start: usize,
        target: usize,
        res_avoid: Seq<usize>,
        task_avoid: Seq<usize>,
    ) -> bool {
        exists|x: usize|
            self.walk_to(kind, start, x, res_avoid, task_avoid) && self.owns(kind, target, x)
                && !task_avoid.contains(target)
    }

    /// What the marks `res_vis` and `task_vis` hold after a search from
    /// `start` that began with the marks `res_avoid` and `task_avoid`. The
    /// old marks come first, unchanged. Every new mark is a resource that a
    /// walk from `start` ends at, or a task that owns such a resource. Where
    /// the search found nothing, every such resource and task is marked.
    pub open spec fn marks_after(
        self,
        kind: ResourceKind,
        start: usize,
        found: bool,
        res_avoid: Seq<usize>,
        task_avoid: Seq<usize>,
        res_vis: Seq<usize>,
        task_vis: Seq<usize>,
    ) -> bool {
        &&& res_avoid.is_prefix_of(res_vis)
        &&& task_avoid.is_prefix_of(task_vis)
        &&& forall|i: int|
            res_avoid.len() <= i < res_vis.len() ==> self.has_resource(kind, #[trigger] res_vis[i])
                && self.walk_to(kind, start, res_vis[i], res_avoid, task_avoid)
        &&& forall|i: int|
            task_avoid.len() <= i < task_vis.len() ==> self.reaches(
                kind,
                start,
                #[trigger] task_vis[i],
                res_avoid,
                task_avoid,
            )
        &&& !found ==> forall|x: usize|
            self.has_resource(kind, x) && #[trigger] self.walk_to(
                kind,
                start,
                x,
                res_avoid,
                task_avoid,
            ) ==> res_vis.contains(x)
        &&& !found ==> forall|t: usize| #[trigger]
            self.reaches(kind, start, t, res_avoid, task_avoid) ==> task_vis.contains(t)
    }
}

/// Whether `v` holds `x`.
pub fn vec_contains(v: &Vec<usize>, x: usize) -> (found: bool)
    ensures
        found == v@.contains(x),
{
    let n: usize = v.len();
    let mut i: usize = 0;
    while i < n
        invariant
            n == v@.len(),
            i <= n,
            forall|j: int| 0 <= j < i ==> v@[j] != x,
        decreases n - i,
    {
        if v[i] == x {
            return true;
        }
        i += 1;
    }
    false
}

/// The ids in the occupied slots of a list.
fn present_in_list(list: &Vec<Option<usize>>) -> (out: Vec<usize>)
    ensures
        forall|t: usize| out@.contains(t) <==> list@.contains(Some(t)),
{
    let mut out: Vec<usize> = Vec::new();
    let n: usize = list.len();
    let mut i: usize = 0;
    while i < n
        invariant
            n == list@.len(),
            i <= n,
            forall|t: usize|
                out@.contains(t) <==> exists|j: int| 0 <= j < i && list@[j] == Some(t),
        decreases n - i,
    {
        let ghost before = out@;
        match list[i] {
            Some(t) => {
                out.push(t);
                assert forall|u: usize|
                    out@.contains(u) <==> exists|j: int|
                        0 <= j < i + 1 && list@[j] == Some(u) by {
                    if out@.contains(u) {
                        let w = choose|w: int| 0 <= w < out@.len() && out@[w] == u;
                        if w < before.len() {
                            assert(before[w] == u);
                            assert(before.contains(u));
                        } else {
                            assert(list@[i as int] == Some(u));
                        }
                    }
                    if exists|j: int| 0 <= j < i + 1 && list@[j] == Some(u) {
                        let j = choose|j: int| 0 <= j < i + 1 && list@[j] == Some(u);
                        if j < i {
                            assert(before.contains(u));
                            let w = choose|w: int| 0 <= w < before.len() && before[w] == u;
                            assert(out@[w] == u);
                        } else {
                            assert(out@[before.len() as int] == u);
                        }
                    }
                }
            },
            None => {
                assert forall|u: usize|
                    out@.contains(u) <==> exists|j: int|
                        0 <= j < i + 1 && list@[j] == Some(u) by {
                    if exists|j: int| 0 <= j < i + 1 && list@[j] == Some(u) {
                        let j = choose|j: int| 0 <= j < i + 1 && list@[j] == Some(u);
                        assert(j < i);
                    }
                }
            },
        }
        i += 1;
    }
    out
}

/// The ids in the occupied slots of a queue.
fn present_in_queue(queue: &VecDeque<Option<usize>>) -> (out: Vec<usize>)
    ensures
        forall|t: usize| out@.contains(t) <==> queue@.contains(Some(t)),
{
    let mut out: Vec<usize> = Vec::new();
    let n: usize = queue.len();
    let mut i: usize = 0;
    while i < n
        invariant
            n == queue@.len(),
            i <= n,
            forall|t: usize|
                out@.contains(t) <==> exists|j: int| 0 <= j < i && queue@[j] == Some(t),
        decreases n - i,
    {
        let ghost before = out@;
        match queue[i] {
            Some(t) => {
                out.push(t);
                assert forall|u: usize|
                    out@.contains(u) <==> exists|j: int|
                        0 <= j < i + 1 && queue@[j] == Some(u) by {
                    if out@.contains(u) {
                        let w = choose|w: int| 0 <= w < out@.len() && out@[w] == u;
                        if w < before.len() {
                            assert(before[w] == u);
                            assert(before.contains(u));
                        } else {
                            assert(queue@[i as int] == Some(u));
                        }
                    }
                    if exists|j: int| 0 <= j < i + 1 && queue@[j] == Some(u) {
                        let j = choose|j: int| 0 <= j < i + 1 && queue@[j] == Some(u);
                        if j < i {
                            assert(before.contains(u));
                            let w = choose|w: int| 0 <= w < before.len() && before[w] == u;
                            assert(out@[w] == u);
                        } else {
                            assert(out@[before.len() as int] == u);
                        }
                    }
                }
            },
            None => {
                assert forall|u: usize|
                    out@.contains(u) <==> exists|j: int|
                        0 <= j < i + 1 && queue@[j] == Some(u) by {
                    if exists|j: int| 0 <= j < i + 1 && queue@[j] == Some(u) {
                        let j = choose|j: int| 0 <= j < i + 1 && queue@[j] == Some(u);
                        assert(j < i);
                    }
                }
            },
        }
        i += 1;
    }
    out
}

impl Kernel {
    /// The tasks that own the resource `r`; `None` where no resource of this
    /// kind carries `r`.
    fn owners_of(&self, kind: ResourceKind, r: usize) -> (found: Option<Vec<usize>>)
        ensures
            found is Some <==> self@.has_resource(kind, r),
            found is Some ==> forall|t: usize|
                (found->0)@.contains(t) <==> self@.owns(kind, t, r),
    {
        match kind {
            ResourceKind::Mutex => {
                match self.find_mutex(r) {
                    None => None,
                    Some(i) => {
                        proof {
                            lemma_first_place(self@.mutex_ids(), r, i as int);
                        }
                        let mut os: Vec<usize> = Vec::new();
                        if self.mutexes[i].inner.locked {
                            os.push(self.mutexes[i].inner.owner);
                            assert(os@[0] == self@.mutex(r).owner);
                        }
                        Some(os)
                    },
                }
            },
            ResourceKind::Semaphore => {
                match self.find_semaphore(r) {
                    None => None,
                    Some(i) => {
                        proof {
                            lemma_first_place(self@.semaphore_ids(), r, i as int);
                        }
                        Some(present_in_queue(&self.semaphores[i].inner.owner_queue))
                    },
                }
            },
        }
    }

    /// The resources that the task `t` lists; none where no task carries `t`.
    fn listed_by(&self, kind: ResourceKind, t: usize) -> (rs: Vec<usize>)
        ensures
            forall|r: usize| rs@.contains(r) <==> self@.lists(kind, t, r),
    {
        match self.find_task(t) {
            None => Vec::new(),
            Some(i) => {
                proof {
                    lemma_first_place(self@.task_ids(), t, i as int);
                }
                match kind {
                    ResourceKind::Mutex => present_in_list(&self.tasks[i].block_mutex_list),
                    ResourceKind::Semaphore => present_in_list(&self.tasks[i].sema_list),
                }
            },
        }
    }
}


impl KernelView {
    /// The search need not look at the resource `x` again: nothing carries
    /// it, or it is marked, or it waits on the stack.
    pub open spec fn covered(
        self,
        kind: ResourceKind,
        x: usize,
        res_vis: Seq<usize>,
        stack: Seq<usize>,
    ) -> bool {
        !self.has_resource(kind, x) || res_vis.contains(x) || stack.contains(x)
    }

    /// Every owner of the resource `x` that the search may visit is marked,
    /// and none of them is `target`.
    pub open spec fn res_done(
        self,
        kind: ResourceKind,
        x: usize,
        target: usize,
        task_avoid: Seq<usize>,
        task_vis: Seq<usize>,
    ) -> bool {
        forall|t: usize| #[trigger]
            self.owns(kind, t, x) && !task_avoid.contains(t) ==> t != target && task_vis.contains(
                t,
            )
    }

    /// Every resource that the task `t` lists is covered.
    pub open spec fn task_done(
        self,
        kind: ResourceKind,
        t: usize,
        res_vis: Seq<usize>,
        stack: Seq<usize>,
    ) -> bool {
        forall|r: usize| #[trigger] self.lists(kind, t, r) ==> self.covered(kind, r, res_vis, stack)
    }
}

/// What a prefix holds, the whole holds.
proof fn lemma_prefix_contains(a: Seq<usize>, b: Seq<usize>, x: usize)
    requires
        a.is_prefix_of(b),
        a.contains(x),
    ensures
        b.contains(x),
{
    let i = choose|i: int| 0 <= i < a.len() && a[i] == x;
    assert(b[i] == x);
}

/// The walk of one resource.
proof fn lemma_walk_start(
    k: KernelView,
    kind: ResourceKind,
    start: usize,
    res_avoid: Seq<usize>,
    task_avoid: Seq<usize>,
)
    requires
        !res_avoid.contains(start),
    ensures
        k.walk_to(kind, start, start, res_avoid, task_avoid),
{
    let p = seq![start];
    let q = Seq::<usize>::empty();
    assert(k.walk(kind, start, res_avoid, task_avoid, p, q));
    assert(p.last() == start);
}

/// A walk to `r` goes on through an owner `t` of `r` to a resource `r2` that
/// `t` lists.
proof fn lemma_walk_step(
    k: KernelView,
    kind: ResourceKind,
    start: usize,
    r: usize,
    t: usize,
    r2: usize,
    res_avoid: Seq<usize>,
    task_avoid: Seq<usize>,
)
    requires
        k.walk_to(kind, start, r, res_avoid, task_avoid),
        k.owns(kind, t, r),
        k.lists(kind, t, r2),
        !task_avoid.contains(t),
        !res_avoid.contains(r2),
    ensures
        k.walk_to(kind, start, r2, res_avoid, task_avoid),
{
    let (p, q) = choose|p: Seq<usize>, q: Seq<usize>|
        k.walk(kind, start, res_avoid, task_avoid, p, q) && p.last() == r;
    let p2 = p.push(r2);
    let q2 = q.push(t);
    assert forall|i: int| 0 <= i < p2.len() implies !res_avoid.contains(#[trigger] p2[i]) by {
        if i < p.len() {
            assert(p2[i] == p[i]);
        }
    }
    assert forall|i: int| 0 <= i < q2.len() implies !task_avoid.contains(#[trigger] q2[i]) by {
        if i < q.len() {
            assert(q2[i] == q[i]);
        }
    }
    assert forall|i: int| 0 <= i < q2.len() implies k.owns(kind, #[trigger] q2[i], p2[i]) by {
        if i < q.len() {
            assert(q2[i] == q[i]);
            assert(p2[i] == p[i]);
        }
    }
    assert forall|i: int| 0 <= i < q2.len() implies k.lists(kind, #[trigger] q2[i], p2[i + 1]) by {
        if i < q.len() {
            assert(q2[i] == q[i]);
            assert(p2[i + 1] == p[i + 1]);
        }
    }
    assert(p2[0] == p[0]);
    assert(k.walk(kind, start, res_avoid, task_avoid, p2, q2));
    assert(p2.last() == r2);
}

/// Marked resources that all carry an id of the table, each marked once, are
/// no more than the table's ids.
proof fn lemma_marked_bound(k: KernelView, kind: ResourceKind, marked: Seq<usize>)
    requires
        marked.no_duplicates(),
        forall|i: int| 0 <= i < marked.len() ==> k.has_resource(kind, #[trigger] marked[i]),
    ensures
        marked.len() <= k.resource_ids(kind).to_set().len(),
{
    let ids = k.resource_ids(kind);
    marked.unique_seq_to_set();
    seq_to_set_is_finite(ids);
    assert forall|x: usize| marked.to_set().contains(x) implies ids.to_set().contains(x) by {
        let i = choose|i: int| 0 <= i < marked.len() && marked[i] == x;
        assert(k.has_resource(kind, marked[i]));
    }
    lemma_len_subset(marked.to_set(), ids.to_set());
}

/// Where the search has nothing left to look at, every resource of a walk
/// from `start` is among those it marked.
proof fn lemma_walk_marked(
    k: KernelView,
    kind: ResourceKind,
    start: usize,
    target: usize,
    res_avoid: Seq<usize>,
    task_avoid: Seq<usize>,
    marked: Seq<usize>,
    task_vis: Seq<usize>,
    p: Seq<usize>,
    q: Seq<usize>,
    i: int,
)
    requires
        k.walk(kind, start, res_avoid, task_avoid, p, q),
        k.has_resource(kind, p.last()),
        0 <= i < p.len(),
        k.covered(kind, start, res_avoid + marked, Seq::empty()),
        forall|x: usize| marked.contains(x) ==> k.res_done(kind, x, target, task_avoid, task_vis),
        forall|t: usize|
            task_vis.contains(t) && !task_avoid.contains(t) ==> k.task_done(
                kind,
                t,
                res_avoid + marked,
                Seq::empty(),
            ),
    ensures
        marked.contains(p[i]),
    decreases i,
{
    let all = res_avoid + marked;
    if i + 1 < p.len() {
        assert(k.owns(kind, q[i], p[i]));
    }
    assert(k.has_resource(kind, p[i]));
    assert(!res_avoid.contains(p[i]));
    if i == 0 {
        assert(all.contains(start));
    } else {
        lemma_walk_marked(k, kind, start, target, res_avoid, task_avoid, marked, task_vis, p, q, i - 1);
        let t = q[i - 1];
        assert(k.owns(kind, t, p[i - 1]));
        assert(!task_avoid.contains(t));
        assert(k.res_done(kind, p[i - 1], target, task_avoid, task_vis));
        assert(task_vis.contains(t));
        assert(k.task_done(kind, t, all, Seq::empty()));
        assert(k.lists(kind, t, p[i - 1 + 1]));
        assert(k.covered(kind, p[i], all, Seq::empty()));
        assert(all.contains(p[i]));
    }
    let j = choose|j: int| 0 <= j < all.len() && all[j] == p[i];
    if j < res_avoid.len() {
        assert(res_avoid[j] == p[i]);
        assert(res_avoid.contains(p[i]));
    } else {
        assert(marked[j - res_avoid.len()] == p[i]);
    }
}

/// Where the search has nothing left to look at and met no owner that is
/// `target`, no walk from `start` ends at a resource that `target` owns.
proof fn lemma_closed(
    k: KernelView,
    kind: ResourceKind,
    start: usize,
    target: usize,
    res_avoid: Seq<usize>,
    task_avoid: Seq<usize>,
    marked: Seq<usize>,
    task_vis: Seq<usize>,
)
    requires
        k.covered(kind, start, res_avoid + marked, Seq::empty()),
        forall|x: usize| marked.contains(x) ==> k.res_done(kind, x, target, task_avoid, task_vis),
        forall|t: usize|
            task_vis.contains(t) && !task_avoid.contains(t) ==> k.task_done(
                kind,
                t,
                res_avoid + marked,
                Seq::empty(),
            ),
    ensures
        !k.reaches(kind, start, target, res_avoid, task_avoid),
        forall|x: usize|
            k.has_resource(kind, x) && #[trigger] k.walk_to(kind, start, x, res_avoid, task_avoid)
                ==> marked.contains(x),
        forall|t: usize| #[trigger]
            k.reaches(kind, start, t, res_avoid, task_avoid) ==> task_vis.contains(t),
{
    assert forall|x: usize|
        k.has_resource(kind, x) && #[trigger] k.walk_to(
            kind,
            start,
            x,
            res_avoid,
            task_avoid,
        ) implies marked.contains(x) by {
        let (p, q) = choose|p: Seq<usize>, q: Seq<usize>|
            k.walk(kind, start, res_avoid, task_avoid, p, q) && p.last() == x;
        lemma_walk_marked(
            k,
            kind,
            start,
            target,
            res_avoid,
            task_avoid,
            marked,
            task_vis,
            p,
            q,
            p.len() - 1,
        );
    }
    assert forall|t: usize| #[trigger]
        k.reaches(kind, start, t, res_avoid, task_avoid) implies task_vis.contains(t) && t
        != target by {
        let x = choose|x: usize|
            k.walk_to(kind, start, x, res_avoid, task_avoid) && k.owns(kind, t, x)
                && !task_avoid.contains(t);
        assert(k.has_resource(kind, x));
        assert(marked.contains(x));
        assert(k.res_done(kind, x, target, task_avoid, task_vis));
        assert(k.owns(kind, t, x));
    }
}


/// What either part holds, the two joined hold, and nothing else.
proof fn lemma_joined_contains(a: Seq<usize>, b: Seq<usize>, x: usize)
    ensures
        (a + b).contains(x) <==> a.contains(x) || b.contains(x),
{
    let c = a + b;
    if c.contains(x) {
        let j = choose|j: int| 0 <= j < c.len() && c[j] == x;
        if j < a.len() {
            assert(a[j] == x);
        } else {
            assert(b[j - a.len()] == x);
        }
    }
    if a.contains(x) {
        let j = choose|j: int| 0 <= j < a.len() && a[j] == x;
        assert(c[j] == x);
    }
    if b.contains(x) {
        let j = choose|j: int| 0 <= j < b.len() && b[j] == x;
        assert(c[j + a.len()] == x);
    }
}

/// What is pushed is held, and so is all that was held before.
proof fn lemma_pushed_contains(a: Seq<usize>, v: usize, x: usize)
    ensures
        a.push(v).contains(x) <==> a.contains(x) || x == v,
{
    let c = a.push(v);
    if c.contains(x) {
        let j = choose|j: int| 0 <= j < c.len() && c[j] == x;
        if j < a.len() {
            assert(a[j] == x);
        }
    }
    if a.contains(x) {
        let j = choose|j: int| 0 <= j < a.len() && a[j] == x;
        assert(c[j] == x);
    }
    assert(c[a.len() as int] == v);
}

/// A task stays done while everything that was covered stays covered.
proof fn lemma_task_done_kept(
    k: KernelView,
    kind: ResourceKind,
    t: usize,
    vis1: Seq<usize>,
    stack1: Seq<usize>,
    vis2: Seq<usize>,
    stack2: Seq<usize>,
)
    requires
        k.task_done(kind, t, vis1, stack1),
        forall|x: usize|
            k.covered(kind, x, vis1, stack1) ==> #[trigger] k.covered(kind, x, vis2, stack2),
    ensures
        k.task_done(kind, t, vis2, stack2),
{
    assert forall|r: usize| #[trigger] k.lists(kind, t, r) implies k.covered(
        kind,
        r,
        vis2,
        stack2,
    ) by {
        assert(k.covered(kind, r, vis1, stack1));
    }
}

/// A resource stays done while every marked task stays marked.
proof fn lemma_res_done_kept(
    k: KernelView,
    kind: ResourceKind,
    x: usize,
    target: usize,
    task_avoid: Seq<usize>,
    vis1: Seq<usize>,
    vis2: Seq<usize>,
)
    requires
        k.res_done(kind, x, target, task_avoid, vis1),
        forall|t: usize| vis1.contains(t) ==> vis2.contains(t),
    ensures
        k.res_done(kind, x, target, task_avoid, vis2),
{
    assert forall|t: usize| #[trigger]
        k.owns(kind, t, x) && !task_avoid.contains(t) implies t != target && vis2.contains(
        t,
    ) by {
        assert(vis1.contains(t));
    }
}


impl Kernel {
    /// Puts on the stack every resource that the task `t` lists and that is
    /// not marked yet. `t` owns `r`, to which a walk from `start` leads.
    fn push_listed(
        &self,
        kind: ResourceKind,
        t: usize,
        res_vis: &Vec<usize>,
        stack: &mut Vec<usize>,
        Ghost(start): Ghost<usize>,
        Ghost(r): Ghost<usize>,
        Ghost(res_avoid): Ghost<Seq<usize>>,
        Ghost(task_avoid): Ghost<Seq<usize>>,
    )
        requires
            res_avoid.is_prefix_of(res_vis@),
            self@.walk_to(kind, start, r, res_avoid, task_avoid),
            self@.owns(kind, t, r),
            !task_avoid.contains(t),
            forall|i: int|
                0 <= i < old(stack)@.len() ==> self@.walk_to(
                    kind,
                    start,
                    #[trigger] old(stack)@[i],
                    res_avoid,
                    task_avoid,
                ),
        ensures
            old(stack)@.is_prefix_of(final(stack)@),
            forall|i: int|
                0 <= i < final(stack)@.len() ==> self@.walk_to(
                    kind,
                    start,
                    #[trigger] final(stack)@[i],
                    res_avoid,
                    task_avoid,
                ),
            self@.task_done(kind, t, res_vis@, final(stack)@),
    {
        let ghost k = self@;
        let ghost stack0 = stack@;
        let listed = self.listed_by(kind, t);
        let n: usize = listed.len();
        let mut c: usize = 0;
        while c < n
            invariant
                k == self@,
                n == listed@.len(),
                c <= n,
                forall|x: usize| listed@.contains(x) <==> k.lists(kind, t, x),
                res_avoid.is_prefix_of(res_vis@),
                k.walk_to(kind, start, r, res_avoid, task_avoid),
                k.owns(kind, t, r),
                !task_avoid.contains(t),
                stack0.is_prefix_of(stack@),
                forall|i: int|
                    0 <= i < stack@.len() ==> k.walk_to(
                        kind,
                        start,
                        #[trigger] stack@[i],
                        res_avoid,
                        task_avoid,
                    ),
                forall|d: int|
                    0 <= d < c ==> res_vis@.contains(#[trigger] listed@[d]) || stack@.contains(
                        listed@[d],
                    ),
            decreases n - c,
        {
            let r2 = listed[c];
            let ghost before = stack@;
            if !vec_contains(res_vis, r2) {
                stack.push(r2);
                proof {
                    assert(listed@.contains(r2));
                    if res_avoid.contains(r2) {
                        lemma_prefix_contains(res_avoid, res_vis@, r2);
                    }
                    lemma_walk_step(k, kind, start, r, t, r2, res_avoid, task_avoid);
                    assert forall|i: int| 0 <= i < stack@.len() implies k.walk_to(
                        kind,
                        start,
                        #[trigger] stack@[i],
                        res_avoid,
                        task_avoid,
                    ) by {
                        if i < before.len() {
                            assert(stack@[i] == before[i]);
                        }
                    }
                }
            }
            proof {
                assert forall|d: int| 0 <= d < c + 1 implies res_vis@.contains(
                    #[trigger] listed@[d],
                ) || stack@.contains(listed@[d]) by {
                    if before.contains(listed@[d]) {
                        lemma_prefix_contains(before, stack@, listed@[d]);
                    }
                    if d == c && !res_vis@.contains(r2) {
                        lemma_pushed_contains(before, r2, r2);
                    }
                }
            }
            c += 1;
        }
        proof {
            assert forall|x: usize| #[trigger] k.lists(kind, t, x) implies k.covered(
                kind,
                x,
                res_vis@,
                stack@,
            ) by {
                assert(listed@.contains(x));
                let d = choose|d: int| 0 <= d < listed@.len() && listed@[d] == x;
                assert(res_vis@.contains(listed@[d]) || stack@.contains(listed@[d]));
            }
        }
    }
}


/// What was covered stays covered when the stack grows.
proof fn lemma_covered_kept(
    k: KernelView,
    kind: ResourceKind,
    vis: Seq<usize>,
    stack1: Seq<usize>,
    stack2: Seq<usize>,
)
    requires
        stack1.is_prefix_of(stack2),
    ensures
        forall|x: usize|
            k.covered(kind, x, vis, stack1) ==> #[trigger] k.covered(kind, x, vis, stack2),
{
    assert forall|x: usize| k.covered(kind, x, vis, stack1) implies #[trigger] k.covered(
        kind,
        x,
        vis,
        stack2,
    ) by {
        if stack1.contains(x) {
            lemma_prefix_contains(stack1, stack2, x);
        }
    }
}

impl Kernel {
    /// Looks at the owners `os` of the resource `r`: tells whether one of
    /// them that is not marked is `target`; marks the others and puts what
    /// they list on the stack.
    fn scan_owners(
        &self,
        kind: ResourceKind,
        target: usize,
        os: &Vec<usize>,
        res_vis: &Vec<usize>,
        task_vis: &mut Vec<usize>,
        stack: &mut Vec<usize>,
        Ghost(start): Ghost<usize>,
        Ghost(r): Ghost<usize>,
        Ghost(res_avoid): Ghost<Seq<usize>>,
        Ghost(task_avoid): Ghost<Seq<usize>>,
    ) -> (hit: bool)
        requires
            forall|t: usize| os@.contains(t) <==> self@.owns(kind, t, r),
            res_avoid.is_prefix_of(res_vis@),
            task_avoid.is_prefix_of(old(task_vis)@),
            self@.walk_to(kind, start, r, res_avoid, task_avoid),
            forall|i: int|
                0 <= i < old(stack)@.len() ==> self@.walk_to(
                    kind,
                    start,
                    #[trigger] old(stack)@[i],
                    res_avoid,
                    task_avoid,
                ),
            forall|t: usize|
                old(task_vis)@.contains(t) && !task_avoid.contains(t) ==> t != target,
        ensures
            hit ==> self@.reaches(kind, start, target, res_avoid, task_avoid),
            !hit ==> self@.res_done(kind, r, target, task_avoid, final(task_vis)@),
            old(task_vis)@.is_prefix_of(final(task_vis)@),
            old(stack)@.is_prefix_of(final(stack)@),
            forall|i: int|
                0 <= i < final(stack)@.len() ==> self@.walk_to(
                    kind,
                    start,
                    #[trigger] final(stack)@[i],
                    res_avoid,
                    task_avoid,
                ),
            forall|t: usize|
                final(task_vis)@.contains(t) && !task_avoid.contains(t) ==> t != target,
            forall|t: usize|
                final(task_vis)@.contains(t) && !old(task_vis)@.contains(t) ==> self@.task_done(
                    kind,
                    t,
                    res_vis@,
                    final(stack)@,
                ),
            forall|i: int|
                old(task_vis)@.len() <= i < final(task_vis)@.len() ==> self@.reaches(
                    kind,
                    start,
                    #[trigger] final(task_vis)@[i],
                    res_avoid,
                    task_avoid,
                ),
    {
        let ghost k = self@;
        let ghost tasks0 = task_vis@;
        let ghost stack0 = stack@;
        let n: usize = os.len();
        let mut a: usize = 0;
        while a < n
            invariant
                k == self@,
                n == os@.len(),
                a <= n,
                forall|t: usize| os@.contains(t) <==> k.owns(kind, t, r),
                res_avoid.is_prefix_of(res_vis@),
                tasks0 == old(task_vis)@,
                stack0 == old(stack)@,
                task_avoid.is_prefix_of(tasks0),
                tasks0.is_prefix_of(task_vis@),
                stack0.is_prefix_of(stack@),
                k.walk_to(kind, start, r, res_avoid, task_avoid),
                forall|i: int|
                    0 <= i < stack@.len() ==> k.walk_to(
                        kind,
                        start,
                        #[trigger] stack@[i],
                        res_avoid,
                        task_avoid,
                    ),
                forall|t: usize| task_vis@.contains(t) && !task_avoid.contains(t) ==> t != target,
                forall|t: usize|
                    task_vis@.contains(t) && !tasks0.contains(t) ==> k.task_done(
                        kind,
                        t,
                        res_vis@,
                        stack@,
                    ),
                forall|b: int|
                    0 <= b < a ==> task_avoid.contains(#[trigger] os@[b]) || (os@[b] != target
                        && task_vis@.contains(os@[b])),
                forall|i: int|
                    tasks0.len() <= i < task_vis@.len() ==> k.reaches(
                        kind,
                        start,
                        #[trigger] task_vis@[i],
                        res_avoid,
                        task_avoid,
                    ),
            decreases n - a,
        {
            let t = os[a];
            let ghost tasks1 = task_vis@;
            let ghost stack1 = stack@;
            assert(os@.contains(t));
            if !vec_contains(task_vis, t) {
                proof {
                    if task_avoid.contains(t) {
                        lemma_prefix_contains(task_avoid, tasks0, t);
                        lemma_prefix_contains(tasks0, task_vis@, t);
                    }
                }
                if t == target {
                    return true;
                }
                self.push_listed(
                    kind,
                    t,
                    res_vis,
                    stack,
                    Ghost(start),
                    Ghost(r),
                    Ghost(res_avoid),
                    Ghost(task_avoid),
                );
                task_vis.push(t);
                proof {
                    lemma_covered_kept(k, kind, res_vis@, stack1, stack@);
                    assert forall|u: usize|
                        task_vis@.contains(u) && !task_avoid.contains(u) implies u != target by {
                        lemma_pushed_contains(tasks1, t, u);
                    }
                    assert forall|u: usize|
                        task_vis@.contains(u) && !tasks0.contains(u) implies k.task_done(
                        kind,
                        u,
                        res_vis@,
                        stack@,
                    ) by {
                        lemma_pushed_contains(tasks1, t, u);
                        if u != t {
                            lemma_task_done_kept(k, kind, u, res_vis@, stack1, res_vis@, stack@);
                        }
                    }
                    lemma_pushed_contains(tasks1, t, t);
                    assert(k.owns(kind, t, r));
                    assert(k.reaches(kind, start, t, res_avoid, task_avoid));
                    assert forall|i: int| tasks0.len() <= i < task_vis@.len() implies k.reaches(
                        kind,
                        start,
                        #[trigger] task_vis@[i],
                        res_avoid,
                        task_avoid,
                    ) by {
                        if i < tasks1.len() {
                            assert(task_vis@[i] == tasks1[i]);
                        }
                    }
                }
            }
            proof {
                assert forall|b: int| 0 <= b < a + 1 implies task_avoid.contains(
                    #[trigger] os@[b],
                ) || (os@[b] != target && task_vis@.contains(os@[b])) by {
                    if b < a {
                        if tasks1.contains(os@[b]) {
                            lemma_prefix_contains(tasks1, task_vis@, os@[b]);
                        }
                    }
                }
            }
            a += 1;
        }
        proof {
            assert forall|t: usize| #[trigger]
                k.owns(kind, t, r) && !task_avoid.contains(t) implies t != target
                && task_vis@.contains(t) by {
                assert(os@.contains(t));
                let b = choose|b: int| 0 <= b < os@.len() && os@[b] == t;
                assert(task_avoid.contains(os@[b]) || (os@[b] != target && task_vis@.contains(
                    os@[b],
                )));
            }
        }
        false
    }
}


impl Kernel {
    /// Tells whether the task `target` would wait for itself if it waited
    /// for the resource `start`: whether a walk from `start`, over owners and
    /// what they list, ends at a resource that `target` owns. Resources in
    /// `res_vis` and tasks in `task_vis` count as looked at already; what the
    /// search looks at, it adds to them. A listed id that no resource carries
    /// is passed over.
    pub fn search(
        &self,
        kind: ResourceKind,
        start: usize,
        target: usize,
        res_vis: &mut Vec<usize>,
        task_vis: &mut Vec<usize>,
    ) -> (found: bool)
        ensures
            found == self@.reaches(kind, start, target, old(res_vis)@, old(task_vis)@),
            self@.marks_after(
                kind,
                start,
                found,
                old(res_vis)@,
                old(task_vis)@,
                final(res_vis)@,
                final(task_vis)@,
            ),
    {
        let ghost k = self@;
        let ghost res_avoid = res_vis@;
        let ghost task_avoid = task_vis@;
        if vec_contains(res_vis, start) {
            proof {
                assert forall|x: usize| #[trigger]
                    k.walk_to(kind, start, x, res_avoid, task_avoid) implies false by {
                    let (p, q) = choose|p: Seq<usize>, q: Seq<usize>|
                        k.walk(kind, start, res_avoid, task_avoid, p, q) && p.last() == x;
                    assert(!res_avoid.contains(p[0]));
                }
            }
            return false;
        }
        let mut stack: Vec<usize> = Vec::new();
        stack.push(start);
        let ghost mut marked: Seq<usize> = Seq::empty();
        proof {
            lemma_walk_start(k, kind, start, res_avoid, task_avoid);
            lemma_marked_bound(k, kind, marked);
            assert(res_vis@ =~= res_avoid + marked);
            assert(stack@[0] == start);
        }
        while stack.len() > 0
            invariant
                k == self@,
                res_avoid == old(res_vis)@,
                task_avoid == old(task_vis)@,
                res_vis@ == res_avoid + marked,
                task_avoid.is_prefix_of(task_vis@),
                marked.no_duplicates(),
                marked.len() <= k.resource_ids(kind).to_set().len(),
                forall|i: int| 0 <= i < marked.len() ==> k.has_resource(kind, #[trigger] marked[i]),
                forall|i: int|
                    0 <= i < marked.len() ==> k.walk_to(
                        kind,
                        start,
                        #[trigger] marked[i],
                        res_avoid,
                        task_avoid,
                    ),
                forall|i: int|
                    task_avoid.len() <= i < task_vis@.len() ==> k.reaches(
                        kind,
                        start,
                        #[trigger] task_vis@[i],
                        res_avoid,
                        task_avoid,
                    ),
                forall|i: int|
                    0 <= i < stack@.len() ==> k.walk_to(
                        kind,
                        start,
                        #[trigger] stack@[i],
                        res_avoid,
                        task_avoid,
                    ),
                k.covered(kind, start, res_vis@, stack@),
                forall|x: usize|
                    marked.contains(x) ==> k.res_done(kind, x, target, task_avoid, task_vis@),
                forall|t: usize| task_vis@.contains(t) && !task_avoid.contains(t) ==> t != target,
                forall|t: usize|
                    task_vis@.contains(t) && !task_avoid.contains(t) ==> k.task_done(
                        kind,
                        t,
                        res_vis@,
                        stack@,
                    ),
            decreases k.resource_ids(kind).to_set().len() - marked.len(), stack@.len(),
        {
            let ghost stack1 = stack@;
            let ghost res1 = res_vis@;
            let ghost tasks1 = task_vis@;
            let ghost marked1 = marked;
            let r = stack.pop().unwrap();
            let ghost stack2 = stack@;
            proof {
                assert(r == stack1[stack1.len() - 1]);
                assert(k.walk_to(kind, start, stack1[stack1.len() - 1], res_avoid, task_avoid));
                assert forall|x: usize| stack1.contains(x) implies stack2.contains(x) || x == r by {
                    let j = choose|j: int| 0 <= j < stack1.len() && stack1[j] == x;
                    if j < stack2.len() {
                        assert(stack2[j] == x);
                    }
                }
            }
            let mut fresh: Option<Vec<usize>> = None;
            if !vec_contains(res_vis, r) {
                fresh = self.owners_of(kind, r);
            }
            match fresh {
                None => {
                    proof {
                        assert forall|x: usize| k.covered(kind, x, res1, stack1) implies #[trigger]
                            k.covered(kind, x, res1, stack2) by {}
                        assert forall|t: usize|
                            task_vis@.contains(t) && !task_avoid.contains(t) implies k.task_done(
                            kind,
                            t,
                            res_vis@,
                            stack@,
                        ) by {
                            lemma_task_done_kept(k, kind, t, res1, stack1, res1, stack2);
                        }
                    }
                },
                Some(os) => {
                    res_vis.push(r);
                    proof {
                        marked = marked1.push(r);
                        assert(res_vis@ =~= res_avoid + marked);
                        lemma_joined_contains(res_avoid, marked1, r);
                        assert(marked.no_duplicates()) by {
                            assert forall|i: int, j: int|
                                0 <= i < marked.len() && 0 <= j < marked.len() && i
                                    != j implies marked[i] != marked[j] by {
                                if i < marked1.len() && j < marked1.len() {
                                    assert(marked1[i] != marked1[j]);
                                } else if i < marked1.len() {
                                    assert(marked1.contains(marked1[i]));
                                } else if j < marked1.len() {
                                    assert(marked1.contains(marked1[j]));
                                }
                            }
                        }
                        lemma_marked_bound(k, kind, marked);
                        assert(res_avoid.is_prefix_of(res_vis@));
                    }
                    let ghost res2 = res_vis@;
                    let hit = self.scan_owners(
                        kind,
                        target,
                        &os,
                        res_vis,
                        task_vis,
                        &mut stack,
                        Ghost(start),
                        Ghost(r),
                        Ghost(res_avoid),
                        Ghost(task_avoid),
                    );
                    proof {
                        assert(task_avoid.is_prefix_of(task_vis@));
                        assert forall|i: int|
                            task_avoid.len() <= i < task_vis@.len() implies k.reaches(
                            kind,
                            start,
                            #[trigger] task_vis@[i],
                            res_avoid,
                            task_avoid,
                        ) by {
                            if i < tasks1.len() {
                                assert(task_vis@[i] == tasks1[i]);
                            }
                        }
                        assert forall|i: int|
                            res_avoid.len() <= i < res_vis@.len() implies k.has_resource(
                            kind,
                            #[trigger] res_vis@[i],
                        ) && k.walk_to(kind, start, res_vis@[i], res_avoid, task_avoid) by {
                            assert(res_vis@[i] == marked[i - res_avoid.len()]);
                        }
                    }
                    if hit {
                        return true;
                    }
                    proof {
                        assert forall|x: usize| k.covered(kind, x, res1, stack1) implies #[trigger]
                            k.covered(kind, x, res2, stack@) by {
                            lemma_pushed_contains(res1, r, x);
                            if stack1.contains(x) && x != r {
                                lemma_prefix_contains(stack2, stack@, x);
                            }
                        }
                        assert forall|x: usize| marked.contains(x) implies k.res_done(
                            kind,
                            x,
                            target,
                            task_avoid,
                            task_vis@,
                        ) by {
                            lemma_pushed_contains(marked1, r, x);
                            if x != r {
                                assert forall|t: usize| tasks1.contains(t) implies task_vis@.contains(
                                    t,
                                ) by {
                                    lemma_prefix_contains(tasks1, task_vis@, t);
                                }
                                lemma_res_done_kept(
                                    k,
                                    kind,
                                    x,
                                    target,
                                    task_avoid,
                                    tasks1,
                                    task_vis@,
                                );
                            }
                        }
                        assert forall|t: usize|
                            task_vis@.contains(t) && !task_avoid.contains(t) implies k.task_done(
                            kind,
                            t,
                            res_vis@,
                            stack@,
                        ) by {
                            if tasks1.contains(t) {
                                lemma_task_done_kept(k, kind, t, res1, stack1, res2, stack@);
                            }
                        }
                    }
                },
            }
        }
        proof {
            assert(stack@ =~= Seq::<usize>::empty());
            lemma_closed(k, kind, start, target, res_avoid, task_avoid, marked, task_vis@);
            assert forall|i: int| res_avoid.len() <= i < res_vis@.len() implies k.has_resource(
                kind,
                #[trigger] res_vis@[i],
            ) && k.walk_to(kind, start, res_vis@[i], res_avoid, task_avoid) by {
                assert(res_vis@[i] == marked[i - res_avoid.len()]);
            }
            assert forall|x: usize|
                k.has_resource(kind, x) && #[trigger] k.walk_to(
                    kind,
                    start,
                    x,
                    res_avoid,
                    task_avoid,
                ) implies res_vis@.contains(x) by {
                lemma_joined_contains(res_avoid, marked, x);
            }
        }
        false
    }
}

} // verus!
