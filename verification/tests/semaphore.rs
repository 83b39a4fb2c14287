use ksync::kernel::Kernel;
use ksync::sync::{Action, Outcome, Semaphore};
use ksync::task::TaskControlBlock;
use ksync::DEADLOCK;

fn world(tasks: &[usize], semaphores: &[(usize, usize)]) -> Kernel {
    let mut k = Kernel::new();
    for id in tasks {
        let mut t = TaskControlBlock::init();
        t.id = *id;
        k.tasks.push(t);
    }
    for (id, units) in semaphores {
        k.semaphores.push(Semaphore::new(*id, *units));
    }
    k
}

fn owners(k: &Kernel, place: usize) -> Vec<Option<usize>> {
    k.semaphores[place].inner.owner_queue.iter().copied().collect()
}

fn waiters(k: &Kernel, place: usize) -> Vec<usize> {
    k.semaphores[place].inner.wait_queue.iter().copied().collect()
}

const TAKEN: Outcome = Outcome { status: 0, action: Action::Continue };
const WAITING: Outcome = Outcome { status: 0, action: Action::Block };
const DENIED: Outcome = Outcome { status: DEADLOCK, action: Action::Continue };

#[test]
fn new_semaphore_has_all_units() {
    let s = Semaphore::new(3, 2);
    assert_eq!(s.id, 3);
    assert_eq!(s.inner.count, 2);
    assert!(s.inner.owner_queue.is_empty());
    assert!(s.inner.wait_queue.is_empty());
}

#[test]
fn capacity_two_grants_two_and_blocks_the_third() {
    let mut k = world(&[10, 11, 12], &[(1, 2)]);
    assert_eq!(Semaphore::down(&mut k, 1, 10), TAKEN);
    assert_eq!(k.semaphores[0].inner.count, 1);
    assert_eq!(Semaphore::down(&mut k, 1, 11), TAKEN);
    assert_eq!(k.semaphores[0].inner.count, 0);
    assert_eq!(Semaphore::down(&mut k, 1, 12), WAITING);
    assert_eq!(k.semaphores[0].inner.count, -1);
    assert_eq!(owners(&k, 0), vec![Some(10), Some(11)]);
    assert_eq!(waiters(&k, 0), vec![12]);
    assert_eq!(k.tasks[0].sema_list, vec![Some(1)]);
    assert_eq!(k.tasks[1].sema_list, vec![Some(1)]);
    assert!(k.tasks[2].sema_list.is_empty());
    assert_eq!(Semaphore::up(&mut k, 1, 10), Action::Wake(12));
    assert_eq!(k.semaphores[0].inner.count, 0);
    assert_eq!(owners(&k, 0), vec![None, Some(11), Some(12)]);
    assert!(waiters(&k, 0).is_empty());
    assert_eq!(k.tasks[0].sema_list, vec![None]);
}

#[test]
fn up_releases_one_unit_only() {
    let mut k = world(&[10], &[(1, 3)]);
    assert_eq!(Semaphore::down(&mut k, 1, 10), TAKEN);
    assert_eq!(Semaphore::down(&mut k, 1, 10), TAKEN);
    assert_eq!(owners(&k, 0), vec![Some(10), Some(10)]);
    assert_eq!(k.tasks[0].sema_list, vec![Some(1), Some(1)]);
    assert_eq!(Semaphore::up(&mut k, 1, 10), Action::Continue);
    assert_eq!(k.semaphores[0].inner.count, 2);
    assert_eq!(owners(&k, 0), vec![None, Some(10)]);
    assert_eq!(k.tasks[0].sema_list, vec![None, Some(1)]);
    assert_eq!(Semaphore::up(&mut k, 1, 10), Action::Continue);
    assert_eq!(k.semaphores[0].inner.count, 3);
    assert_eq!(owners(&k, 0), vec![None, None]);
    assert_eq!(k.tasks[0].sema_list, vec![None, None]);
}

#[test]
fn up_by_a_task_that_owns_nothing_only_counts() {
    let mut k = world(&[10, 11], &[(1, 1)]);
    assert_eq!(Semaphore::down(&mut k, 1, 10), TAKEN);
    k.tasks[1].sema_list.push(Some(1));
    assert_eq!(Semaphore::up(&mut k, 1, 11), Action::Continue);
    assert_eq!(k.semaphores[0].inner.count, 1);
    assert_eq!(owners(&k, 0), vec![Some(10)]);
    assert_eq!(k.tasks[1].sema_list, vec![Some(1)]);
}

#[test]
fn waiters_are_served_in_queue_order() {
    let mut k = world(&[10, 11, 12, 13], &[(1, 1)]);
    assert_eq!(Semaphore::down(&mut k, 1, 10), TAKEN);
    assert_eq!(Semaphore::down(&mut k, 1, 11), WAITING);
    assert_eq!(Semaphore::down(&mut k, 1, 12), WAITING);
    assert_eq!(Semaphore::down(&mut k, 1, 13), WAITING);
    assert_eq!(k.semaphores[0].inner.count, -3);
    assert_eq!(Semaphore::up(&mut k, 1, 10), Action::Wake(11));
    assert_eq!(Semaphore::up(&mut k, 1, 11), Action::Wake(12));
    assert_eq!(Semaphore::up(&mut k, 1, 12), Action::Wake(13));
    assert_eq!(k.semaphores[0].inner.count, 0);
    assert_eq!(Semaphore::up(&mut k, 1, 13), Action::Continue);
    assert_eq!(k.semaphores[0].inner.count, 1);
}

#[test]
fn down_by_an_owner_of_the_last_unit_is_refused_and_keeps_the_decrement() {
    let mut k = world(&[10], &[(1, 1)]);
    assert_eq!(Semaphore::down(&mut k, 1, 10), TAKEN);
    assert_eq!(Semaphore::down(&mut k, 1, 10), DENIED);
    assert_eq!(k.semaphores[0].inner.count, -1);
    assert!(waiters(&k, 0).is_empty());
    assert_eq!(owners(&k, 0), vec![Some(10)]);
    assert_eq!(k.tasks[0].sema_list, vec![Some(1)]);
}

#[test]
fn semaphore_cycle_over_two_tasks_is_refused() {
    let mut k = world(&[10, 11], &[(1, 1), (2, 1)]);
    assert_eq!(Semaphore::down(&mut k, 1, 10), TAKEN);
    assert_eq!(Semaphore::down(&mut k, 2, 11), TAKEN);
    assert!(Semaphore::has_dead(&k, 1, 10));
    assert!(!Semaphore::has_dead(&k, 1, 11));
    k.tasks[0].sema_list.push(Some(2));
    assert!(Semaphore::has_dead(&k, 1, 11));
    assert_eq!(Semaphore::down(&mut k, 1, 11), DENIED);
    assert_eq!(k.semaphores[0].inner.count, -1);
}

#[test]
fn dfs_dead_marks_what_it_looks_at() {
    let mut k = world(&[10, 11, 12], &[(1, 1), (2, 2)]);
    assert_eq!(Semaphore::down(&mut k, 1, 10), TAKEN);
    assert_eq!(Semaphore::down(&mut k, 2, 10), TAKEN);
    assert_eq!(Semaphore::down(&mut k, 2, 11), TAKEN);
    let mut sema_vis = Vec::new();
    let mut task_vis = Vec::new();
    assert!(!Semaphore::dfs_dead(&k, 1, 12, &mut sema_vis, &mut task_vis));
    assert_eq!(sema_vis, vec![1, 2]);
    assert_eq!(task_vis, vec![10, 11]);
    let mut sema_vis = Vec::new();
    let mut task_vis = Vec::new();
    assert!(Semaphore::dfs_dead(&k, 1, 11, &mut sema_vis, &mut task_vis));
    let mut sema_vis = vec![2];
    let mut task_vis = Vec::new();
    assert!(!Semaphore::dfs_dead(&k, 1, 11, &mut sema_vis, &mut task_vis));
}
