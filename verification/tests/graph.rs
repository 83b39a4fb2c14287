use ksync::graph::{vec_contains, ResourceKind};
use ksync::kernel::Kernel;
use ksync::sync::{MutexBlocking, Semaphore};
use ksync::task::TaskControlBlock;

fn task(id: usize, mutexes: &[Option<usize>], semaphores: &[Option<usize>]) -> TaskControlBlock {
    let mut t = TaskControlBlock::init();
    t.id = id;
    t.block_mutex_list = mutexes.to_vec();
    t.sema_list = semaphores.to_vec();
    t
}

fn held(id: usize, owner: usize) -> MutexBlocking {
    let mut m = MutexBlocking::new(owner);
    m.id = id;
    m.inner.locked = true;
    m
}

fn search(k: &Kernel, kind: ResourceKind, start: usize, target: usize) -> (bool, Vec<usize>, Vec<usize>) {
    let mut res_vis = Vec::new();
    let mut task_vis = Vec::new();
    let found = k.search(kind, start, target, &mut res_vis, &mut task_vis);
    (found, res_vis, task_vis)
}

#[test]
fn new_kernel_is_empty() {
    let k = Kernel::new();
    assert!(k.tasks.is_empty());
    assert!(k.spins.is_empty());
    assert!(k.mutexes.is_empty());
    assert!(k.semaphores.is_empty());
}

#[test]
fn vec_contains_finds_what_is_there() {
    assert!(vec_contains(&vec![3, 1, 2], 2));
    assert!(!vec_contains(&vec![3, 1, 2], 4));
    assert!(!vec_contains(&vec![], 0));
}

#[test]
fn a_free_mutex_leads_nowhere() {
    let mut k = Kernel::new();
    k.tasks.push(task(10, &[Some(1)], &[]));
    let mut m = MutexBlocking::new(10);
    m.id = 1;
    k.mutexes.push(m);
    assert_eq!(search(&k, ResourceKind::Mutex, 1, 10), (false, vec![1], vec![]));
}

#[test]
fn search_follows_a_chain_of_owners() {
    let mut k = Kernel::new();
    k.tasks.push(task(10, &[Some(1), Some(2)], &[]));
    k.tasks.push(task(11, &[Some(2), Some(3)], &[]));
    k.tasks.push(task(12, &[Some(3)], &[]));
    k.tasks.push(task(13, &[], &[]));
    k.mutexes.push(held(1, 10));
    k.mutexes.push(held(2, 11));
    k.mutexes.push(held(3, 12));
    let (found, _, _) = search(&k, ResourceKind::Mutex, 1, 12);
    assert!(found);
    let (found, res_vis, task_vis) = search(&k, ResourceKind::Mutex, 1, 13);
    assert!(!found);
    let mut res_sorted = res_vis.clone();
    res_sorted.sort();
    assert_eq!(res_sorted, vec![1, 2, 3]);
    assert_eq!(res_vis[0], 1);
    let mut task_sorted = task_vis.clone();
    task_sorted.sort();
    assert_eq!(task_sorted, vec![10, 11, 12]);
    assert_eq!(search(&k, ResourceKind::Mutex, 3, 10), (false, vec![3], vec![12]));
}

#[test]
fn search_ends_on_a_ring_that_misses_the_target() {
    let mut k = Kernel::new();
    k.tasks.push(task(10, &[Some(1), Some(2)], &[]));
    k.tasks.push(task(11, &[Some(2), Some(1)], &[]));
    k.mutexes.push(held(1, 10));
    k.mutexes.push(held(2, 11));
    let (found, res_vis, task_vis) = search(&k, ResourceKind::Mutex, 1, 12);
    assert!(!found);
    assert_eq!(res_vis, vec![1, 2]);
    assert_eq!(task_vis, vec![10, 11]);
}

#[test]
fn the_two_kinds_do_not_mix() {
    let mut k = Kernel::new();
    k.tasks.push(task(10, &[Some(1)], &[Some(1)]));
    k.tasks.push(task(11, &[], &[]));
    k.mutexes.push(held(1, 11));
    let mut s = Semaphore::new(1, 1);
    s.inner.owner_queue.push_back(None);
    s.inner.owner_queue.push_back(Some(10));
    k.semaphores.push(s);
    assert_eq!(search(&k, ResourceKind::Mutex, 1, 11), (true, vec![1], vec![]));
    assert_eq!(search(&k, ResourceKind::Semaphore, 1, 11), (false, vec![1], vec![10]));
    assert_eq!(search(&k, ResourceKind::Semaphore, 1, 10), (true, vec![1], vec![]));
}

#[test]
fn an_owner_that_is_no_task_lists_nothing() {
    let mut k = Kernel::new();
    k.tasks.push(task(10, &[], &[]));
    k.mutexes.push(held(1, 77));
    assert_eq!(search(&k, ResourceKind::Mutex, 1, 10), (false, vec![1], vec![77]));
    assert_eq!(search(&k, ResourceKind::Mutex, 1, 77), (true, vec![1], vec![]));
}
